//! The miners that are installed, one per device, and what is known of the mining model.
use std::collections::HashMap;
use std::sync::Arc;

use vstd::prelude::*;

verus! {

broadcast use vstd::std_specs::hash::group_hash_axioms;

/// Puts a miner on a device. It takes the place of the miner that was there, if any.
pub fn install<M>(miners: &mut HashMap<u32, Arc<M>>, device_id: u32, m: M)
    ensures
        final(miners)@.dom() == old(miners)@.dom().insert(device_id),
        *final(miners)@[device_id] == m,
        forall|d: u32|
            d != device_id && old(miners)@.contains_key(d) ==> #[trigger] final(miners)@[d]
                == old(miners)@[d],
{
    miners.insert(device_id, Arc::new(m));
}

/// Forgets what is kept for one device, and for no other.
pub fn remove_device_entry<T>(map: &mut HashMap<u32, T>, device_id: u32)
    ensures
        final(map)@ == old(map)@.remove(device_id),
{
    map.remove(&device_id);
}

/// Takes the miner off a device.
pub fn uninstall<M>(miners: &mut HashMap<u32, Arc<M>>, device_id: u32)
    ensures
        final(miners)@ == old(miners)@.remove(device_id),
{
    remove_device_entry(miners, device_id);
}

/// Whether a device has a miner.
pub fn is_installed<M>(miners: &HashMap<u32, Arc<M>>, device_id: u32) -> (r: bool)
    ensures
        r == miners@.contains_key(device_id),
{
    miners.contains_key(&device_id)
}

/// The miner of a device.
pub fn installed<M>(miners: &HashMap<u32, Arc<M>>, device_id: u32) -> (r: Option<&Arc<M>>)
    ensures
        match r {
            Some(m) => miners@.contains_key(device_id) && *m == miners@[device_id],
            None => !miners@.contains_key(device_id),
        },
{
    miners.get(&device_id)
}

/// What the miners are rebuilt from: the mining model's id, and where its weights are.
pub type MiningTier = ([u8; 32], String);

/// Records the mining model. The first record stays, and later ones have no effect.
pub fn set_mining_tier(tier: &mut Option<MiningTier>, model_id: [u8; 32], gguf_path: String)
    ensures
        *old(tier) is Some ==> *final(tier) == *old(tier),
        *old(tier) is None ==> *final(tier) == Some((model_id, gguf_path)),
{
    if tier.is_none() {
        *tier = Some((model_id, gguf_path));
    }
}

/// The tier of the mining model at a DAA score, as `tier_index` knows it.
pub fn current_tier<F: Fn(&[u8; 32], u64) -> Option<u8>>(
    tier: &Option<MiningTier>,
    daa: u64,
    tier_index: F,
) -> (r: Option<u8>)
    requires
        tier matches Some(t) ==> call_requires(tier_index, (&t.0, daa)),
    ensures
        match tier {
            Some(t) => call_ensures(tier_index, (&t.0, daa), r),
            None => r is None,
        },
{
    match tier {
        Some(t) => tier_index(&t.0, daa),
        None => None,
    }
}

/// How many model loads are under way.
pub struct Loading {
    pub count: usize,
}

impl Loading {
    /// No load is under way.
    pub fn new() -> (l: Loading)
        ensures
            l.count == 0,
    {
        Loading { count: 0 }
    }

    /// A load begins.
    pub fn begin(&mut self)
        ensures
            final(self).count == old(self).count.wrapping_add(1),
    {
        self.count = self.count.wrapping_add(1);
    }

    /// A load ends, however it went.
    pub fn end(&mut self)
        ensures
            final(self).count == old(self).count.wrapping_sub(1),
    {
        self.count = self.count.wrapping_sub(1);
    }
}

/// Whether a load is under way: the worker is paused on purpose, and has not stalled.
pub fn is_loading(loading: &Loading) -> (r: bool)
    ensures
        r == (loading.count > 0),
{
    loading.count > 0
}

/// A load that has begun and ended leaves the count as it was, whatever other loads are under way.
pub proof fn law_load_is_counted_once(before: usize)
    ensures
        before.wrapping_add(1).wrapping_sub(1) == before,
        before < usize::MAX ==> before.wrapping_add(1) > 0,
{
}

/// After a miner was put on a device, that device has it; after it was taken off, the device has
/// none and every other device has what it had before.
pub proof fn law_install_uninstall<M>(
    before: Map<u32, Arc<M>>,
    with: Map<u32, Arc<M>>,
    after: Map<u32, Arc<M>>,
    device_id: u32,
    m: M,
)
    requires
        with.dom() == before.dom().insert(device_id),
        *with[device_id] == m,
        forall|d: u32|
            d != device_id && before.contains_key(d) ==> #[trigger] with[d] == before[d],
        after == with.remove(device_id),
    ensures
        with.contains_key(device_id),
        after == before.remove(device_id),
        !before.contains_key(device_id) ==> after == before,
{
    assert(after.dom() =~= before.dom().remove(device_id));
    assert(after =~= before.remove(device_id));
    if !before.contains_key(device_id) {
        assert(before.remove(device_id) =~= before);
    }
}

} // verus!
