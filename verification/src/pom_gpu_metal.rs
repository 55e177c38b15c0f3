//! Proof-of-Model mining on Apple GPUs over one packed buffer.
//!
//! The whole chunks of the model stand in one buffer in the canonical order, so that chunk `off`
//! is at bytes `32 * off` to `32 * off + 32`, and the kernel needs no table. The winner is a
//! 32-bit place in the batch, which is why a batch has to fit into 32 bits.
use std::collections::HashMap;
use std::sync::Arc;

use candle_core::quantized::QTensor;
use vstd::prelude::*;

use crate::bytes::words4;
use crate::layout::CHUNK_BYTES;
use crate::pom_gpu::{LoadError, POM_WALK_STEPS};
use crate::registry::installed;
use crate::tensors::{read_data, storage_size};
#[allow(unused_imports)]
use crate::bytes::{law_word_places, le_nat, words_of};
#[allow(unused_imports)]
use crate::layout::{
    ints, law_chunk_has_one_segment, law_layout_lengths, law_layouts_agree, law_prefix_table,
    law_segment_is_a_tensor, packed, sizes_of, total_chunks,
};
#[allow(unused_imports)]
use crate::pom_gpu::{addressed, lemma_chunk_counts, tensor_sizes};
#[allow(unused_imports)]
use crate::tensors::{is_address, read_refused, tensor_data, was_read};

pub use crate::install::{ensure_installed, ensure_installed_inner};
pub use crate::registry::{
    current_tier, install, is_installed, is_loading, set_mining_tier, uninstall,
};

verus! {

/// Threads in a group of a launch.
pub const THREADGROUP_SIZE: usize = 256;

/// The text of `LoadError::NoChunks`.
pub const NO_CHUNKS: &'static str = "PoM Metal: model produced 0 chunks";

/// The text of `MineError::BatchTooLarge`.
pub const BATCH_TOO_LARGE: &'static str = "PoM Metal: batch exceeds u32";

/// A miner over a packed model. `W` is the packed weights, on the host or on a device.
pub struct PomGpuMiner<W> {
    pub weights: W,
    pub n_total_chunks: u64,
    pub tensors: Vec<QTensor>,
}

/// The bytes of tensors.
pub open spec fn tensor_bytes(tensors: Seq<QTensor>) -> Seq<Seq<u8>> {
    tensors.map_values(|t: QTensor| tensor_data(t))
}

/// Byte strings as sequences.
pub open spec fn contents_of(data: Seq<Vec<u8>>) -> Seq<Seq<u8>> {
    data.map_values(|v: Vec<u8>| v@)
}

/// Packs the bytes of tensors into one buffer, in the order in which they are given, and counts
/// the chunks. Without chunks there is no buffer.
pub fn pack(data: Vec<Vec<u8>>) -> (r: Option<(Vec<u8>, u64)>)
    ensures
        r is None <==> total_chunks(sizes_of(contents_of(data@))) == 0,
        r matches Some((weights, n_chunks)) ==> {
            &&& weights@ == packed(contents_of(data@))
            &&& n_chunks == total_chunks(sizes_of(contents_of(data@)))
        },
{
    let ghost bytes = contents_of(data@);
    let mut weights: Vec<u8> = Vec::new();
    proof {
        assert(bytes.take(0) =~= Seq::empty());
        law_layout_lengths(bytes);
    }
    for tensor in it: data.into_iter()
        invariant
            it.seq() == data@,
            bytes == contents_of(data@),
            weights@ == packed(bytes.take(it.index() as int)),
    {
        let ghost i = it.index() as int;
        let usable: usize = tensor.len() / CHUNK_BYTES * CHUNK_BYTES;
        let chunks: &[u8] = vstd::slice::slice_subrange(tensor.as_slice(), 0, usable);
        let ghost before = weights@;
        weights.extend_from_slice(chunks);
        proof {
            assert(tensor@ == bytes[i]);
            assert(chunks@ =~= bytes[i].take(usable as int));
            assert(weights@ =~= before + chunks@);
            assert(bytes.take(i + 1).drop_last() =~= bytes.take(i));
        }
    }
    assert(bytes.take(bytes.len() as int) =~= bytes);
    let n_chunks: u64 = (weights.len() / CHUNK_BYTES) as u64;
    if n_chunks == 0 {
        return None;
    }
    Some((weights, n_chunks))
}

/// Tensors without chunks make no difference: what is packed of them is nothing.
proof fn lemma_small_tensors_do_not_count(read: Seq<Seq<u8>>, all: Seq<Seq<u8>>)
    requires
        read.len() == all.len(),
        forall|i: int|
            0 <= i < all.len() ==> if (all[i].len() as int) < 32 {
                (#[trigger] read[i]).len() == 0
            } else {
                read[i] == all[i]
            },
    ensures
        packed(read) == packed(all),
        total_chunks(sizes_of(read)) == total_chunks(sizes_of(all)),
    decreases all.len(),
{
    if all.len() > 0 {
        let last = all.len() - 1;
        assert(read[last] == read.last() && all[last] == all.last());
        assert forall|i: int| 0 <= i < last implies if (all.drop_last()[i].len() as int) < 32 {
            (#[trigger] read.drop_last()[i]).len() == 0
        } else {
            read.drop_last()[i] == all.drop_last()[i]
        } by {
            assert(read.drop_last()[i] == read[i]);
        }
        lemma_small_tensors_do_not_count(read.drop_last(), all.drop_last());
        assert(sizes_of(read).drop_last() =~= sizes_of(read.drop_last()));
        assert(sizes_of(all).drop_last() =~= sizes_of(all.drop_last()));
        if (all.last().len() as int) < 32 {
            assert(read.last().take(0) =~= all.last().take(0));
        }
    }
}

impl PomGpuMiner<Vec<u8>> {
    /// What holds of every miner whose weights are on the host: they are whole chunks, and there
    /// is one at least.
    pub open spec fn wf(&self) -> bool {
        &&& self.n_total_chunks > 0
        &&& self.weights@.len() == 32 * self.n_total_chunks
    }

    /// Packs tensors into one buffer, in the order in which they are given. A tensor without
    /// chunks is not read; the first one with chunks that cannot be read fails the load.
    pub fn load(tensors: Vec<QTensor>) -> (r: Result<PomGpuMiner<Vec<u8>>, LoadError>)
        ensures
            match r {
                Ok(m) => {
                    &&& m.wf()
                    &&& m.weights@ == packed(tensor_bytes(tensors@))
                    &&& m.n_total_chunks == total_chunks(tensor_sizes(tensors@))
                    &&& m.tensors@ == tensors@
                },
                Err(LoadError::NoChunks) => total_chunks(tensor_sizes(tensors@)) == 0,
                Err(LoadError::TooLarge) => false,
                Err(LoadError::Tensor(e)) => {
                    &&& total_chunks(tensor_sizes(tensors@)) > 0
                    &&& exists|i: int|
                        {
                            &&& 0 <= i < tensors@.len()
                            &&& tensor_sizes(tensors@)[i] / 32 != 0
                            &&& read_refused(#[trigger] tensors@[i], e)
                            &&& forall|j: int|
                                0 <= j < i && tensor_sizes(tensors@)[j] / 32 != 0 ==> was_read(
                                    #[trigger] tensors@[j],
                                )
                        }
                },
            },
    {
        let ghost bytes = tensor_bytes(tensors@);
        let ghost sizes = tensor_sizes(tensors@);
        let mut data: Vec<Vec<u8>> = Vec::new();
        let mut i: usize = 0;
        while i < tensors.len()
            invariant
                i <= tensors@.len(),
                bytes == tensor_bytes(tensors@),
                sizes == tensor_sizes(tensors@),
                data@.len() == i,
                forall|j: int|
                    0 <= j < i ==> if (bytes[j].len() as int) < 32 {
                        (#[trigger] data@[j])@.len() == 0
                    } else {
                        data@[j]@ == bytes[j]
                    },
                forall|j: int|
                    0 <= j < i && sizes[j] / 32 != 0 ==> was_read(#[trigger] tensors@[j]),
            decreases tensors@.len() - i,
        {
            proof {
                if sizes[i as int] / 32 != 0 {
                    lemma_chunk_counts(sizes, i as int);
                }
            }
            let n: usize = storage_size(&tensors[i]);
            if n < CHUNK_BYTES {
                data.push(Vec::new());
            } else {
                match read_data(&tensors[i]) {
                    Ok(read) => {
                        data.push(read);
                    },
                    Err(e) => {
                        return Err(LoadError::Tensor(e));
                    },
                }
            }
            i = i + 1;
        }
        proof {
            assert(sizes_of(bytes) =~= sizes);
            assert forall|j: int| 0 <= j < bytes.len() implies if (bytes[j].len() as int) < 32 {
                (#[trigger] contents_of(data@)[j]).len() == 0
            } else {
                contents_of(data@)[j] == bytes[j]
            } by {
                assert(contents_of(data@)[j] == data@[j]@);
            }
            lemma_small_tensors_do_not_count(contents_of(data@), bytes);
            law_layout_lengths(bytes);
        }
        match pack(data) {
            Some((weights, n_total_chunks)) => Ok(
                PomGpuMiner { weights, n_total_chunks, tensors },
            ),
            None => Err(LoadError::NoChunks),
        }
    }
}

/// The kernel's parameter block: one launch's job, target and nonce range.
pub struct Uniforms {
    pub n_total_chunks: u64,
    pub k_steps: u32,
    pub p: [u64; 4],
    pub time: u64,
    pub t: [u64; 4],
    pub nonce_base: u64,
    pub n_nonces: u32,
}

/// One launch of the mining kernel, with a thread for each nonce. The winner word holds `winner`
/// when the kernel starts.
pub struct Launch {
    pub uniforms: Uniforms,
    pub threads: usize,
    pub group: usize,
    pub winner: u32,
}

impl Launch {
    /// Whether this is the launch of a miner on a job.
    pub open spec fn searches<W>(
        &self,
        miner: PomGpuMiner<W>,
        pre_pow_hash: Seq<u8>,
        timestamp: u64,
        target_le: Seq<u8>,
        start: u64,
        batch: u64,
    ) -> bool {
        &&& self.uniforms.n_total_chunks == miner.n_total_chunks
        &&& self.uniforms.k_steps == POM_WALK_STEPS
        &&& self.uniforms.p@ == words_of(pre_pow_hash)
        &&& self.uniforms.time == timestamp
        &&& self.uniforms.t@ == words_of(target_le)
        &&& self.uniforms.nonce_base == start
        &&& self.uniforms.n_nonces == batch
        &&& self.threads == batch
        &&& self.group == THREADGROUP_SIZE
        &&& self.winner == u32::MAX
    }
}

/// Why a batch cannot be searched.
#[derive(Clone, Copy, PartialEq, Eq, Structural, Debug)]
pub enum MineError {
    /// It has more nonces than 32 bits can number.
    BatchTooLarge,
}

impl<W> PomGpuMiner<W> {
    /// The number of chunks that the miner walks over.
    pub fn n_chunks(&self) -> (n: u64)
        ensures
            n == self.n_total_chunks,
    {
        self.n_total_chunks
    }

    /// The same miner, with its weights on a device.
    pub fn on_device<V>(self, weights: V) -> (m: PomGpuMiner<V>)
        ensures
            m.weights == weights,
            m.n_total_chunks == self.n_total_chunks,
            m.tensors == self.tensors,
    {
        PomGpuMiner { weights, n_total_chunks: self.n_total_chunks, tensors: self.tensors }
    }

    /// What to launch to search the nonces of a batch. An empty batch needs no launch.
    pub fn mine(
        &self,
        pre_pow_hash: &[u8; 32],
        timestamp: u64,
        target_le: &[u8; 32],
        start: u64,
        batch: u64,
    ) -> (r: Result<Option<Launch>, MineError>)
        ensures
            match r {
                Ok(Some(launch)) => {
                    &&& 0 < batch <= u32::MAX
                    &&& launch.searches(*self, pre_pow_hash@, timestamp, target_le@, start, batch)
                    &&& forall|i: int|
                        0 <= i < 4 ==> #[trigger] launch.uniforms.p@[i] == le_nat(
                            pre_pow_hash@.subrange(8 * i, 8 * i + 8),
                        )
                    &&& launch.uniforms.t@[0] + 0x1_0000_0000_0000_0000 * launch.uniforms.t@[1]
                        + 0x1_0000_0000_0000_0000_0000_0000_0000_0000 * launch.uniforms.t@[2]
                        + 0x1_0000_0000_0000_0000_0000_0000_0000_0000_0000_0000_0000_0000
                        * launch.uniforms.t@[3] == le_nat(target_le@)
                },
                Ok(None) => batch == 0,
                Err(MineError::BatchTooLarge) => batch > u32::MAX,
            },
    {
        proof {
            law_word_places(pre_pow_hash@);
            law_word_places(target_le@);
        }
        if batch > u32::MAX as u64 {
            return Err(MineError::BatchTooLarge);
        }
        if batch == 0 {
            return Ok(None);
        }
        Ok(
            Some(
                Launch {
                    uniforms: Uniforms {
                        n_total_chunks: self.n_total_chunks,
                        k_steps: POM_WALK_STEPS,
                        p: words4(pre_pow_hash),
                        time: timestamp,
                        t: words4(target_le),
                        nonce_base: start,
                        n_nonces: batch as u32,
                    },
                    threads: batch as usize,
                    group: THREADGROUP_SIZE,
                    winner: u32::MAX,
                },
            ),
        )
    }
}

/// What the kernel is told is the caller's job: the words of the hash in order, the timestamp, the
/// target as one number, the nonce range, the number of chunks, and the length of the network's
/// walk. So a value is at most the kernel's target exactly if it is at most the caller's.
pub proof fn law_launch_carries_job<W>(
    launch: Launch,
    miner: PomGpuMiner<W>,
    pre_pow_hash: Seq<u8>,
    timestamp: u64,
    target_le: Seq<u8>,
    start: u64,
    batch: u64,
    value: Seq<u8>,
)
    requires
        pre_pow_hash.len() == 32,
        target_le.len() == 32,
        launch.searches(miner, pre_pow_hash, timestamp, target_le, start, batch),
    ensures
        launch.uniforms.k_steps == 256,
        launch.uniforms.n_total_chunks == miner.n_total_chunks,
        launch.uniforms.p@.len() == 4,
        forall|i: int|
            0 <= i < 4 ==> #[trigger] launch.uniforms.p@[i] == le_nat(
                pre_pow_hash.subrange(8 * i, 8 * i + 8),
            ),
        launch.uniforms.time == timestamp,
        launch.uniforms.t@.len() == 4,
        ({
            let t = launch.uniforms.t@;
            let number = t[0] + 0x1_0000_0000_0000_0000 * t[1]
                + 0x1_0000_0000_0000_0000_0000_0000_0000_0000 * t[2]
                + 0x1_0000_0000_0000_0000_0000_0000_0000_0000_0000_0000_0000_0000 * t[3];
            &&& number == le_nat(target_le)
            &&& le_nat(value) <= number <==> le_nat(value) <= le_nat(target_le)
        }),
        launch.uniforms.nonce_base == start,
        launch.uniforms.n_nonces == batch,
        launch.threads == batch,
        launch.group == 256,
        launch.winner == 0xffff_ffff,
{
    law_word_places(pre_pow_hash);
    law_word_places(target_le);
}

/// Whether a winner word stands for a nonce that a `u64` can hold.
pub open spec fn is_winner_word(start: u64, word: u32) -> bool {
    word == u32::MAX || start + word <= u64::MAX
}

/// The nonce that a winner word stands for: a place in the batch, or none.
pub open spec fn winner_of(start: u64, word: u32) -> Option<u64> {
    if word == u32::MAX {
        None
    } else {
        Some((start + word) as u64)
    }
}

/// The winning nonce, by what the winner word holds behind a launch.
pub fn winner(start: u64, word: u32) -> (r: Option<u64>)
    requires
        is_winner_word(start, word),
    ensures
        r == winner_of(start, word),
        word == 0xffff_ffff ==> r is None,
        word != 0xffff_ffff ==> r is Some && r->0 == start + word,
{
    if word == u32::MAX {
        None
    } else {
        Some(start + word as u64)
    }
}

/// What to launch on a device, and on which miner. A device without a miner mines nothing, and
/// neither does a batch that is empty or too large.
pub fn mine<'a, W>(
    miners: &'a HashMap<u32, Arc<PomGpuMiner<W>>>,
    device_id: u32,
    pre_pow_hash: &[u8; 32],
    timestamp: u64,
    target_le: &[u8; 32],
    start: u64,
    batch: u64,
) -> (r: Option<(&'a Arc<PomGpuMiner<W>>, Launch)>)
    ensures
        match r {
            Some((m, launch)) => {
                &&& miners@.contains_key(device_id)
                &&& *m == miners@[device_id]
                &&& 0 < batch <= u32::MAX
                &&& launch.searches(**m, pre_pow_hash@, timestamp, target_le@, start, batch)
            },
            None => !miners@.contains_key(device_id) || batch == 0 || batch > u32::MAX,
        },
{
    match installed(miners, device_id) {
        Some(m) => match m.mine(pre_pow_hash, timestamp, target_le, start, batch) {
            Ok(Some(launch)) => Some((m, launch)),
            Ok(None) => None,
            Err(_) => None,
        },
        None => None,
    }
}

/// The winning nonce of a launch that may have failed. A failed launch has none.
pub fn mined<E>(start: u64, word: Result<u32, E>) -> (r: Option<u64>)
    requires
        word matches Ok(w) ==> is_winner_word(start, w),
    ensures
        match word {
            Ok(w) => {
                &&& r == winner_of(start, w)
                &&& w == 0xffff_ffff ==> r is None
                &&& w != 0xffff_ffff ==> r is Some && r->0 == start + w
            },
            Err(_) => r is None,
        },
{
    match word {
        Ok(w) => winner(start, w),
        Err(_) => None,
    }
}

/// A winner is in its batch if its place is, and then the batch tells it from no winner.
pub proof fn law_winner_is_in_batch(start: u64, batch: u64, word: u32)
    requires
        0 < batch <= u32::MAX,
        start + batch <= u64::MAX + 1,
        word < batch,
    ensures
        is_winner_word(start, word),
        word != u32::MAX,
        start <= start + word < start + batch,
        winner_of(start, word) is Some,
        winner_of(start, word)->0 == start + word,
        winner_of(start, 0xffff_ffff) is None,
{
}

/// Whether a word is the kernel's answer to a launch, when `wins` says which nonces win on the
/// launch's job: the lowest place in the batch that wins, or the word that stands for none.
pub open spec fn answers(launch: Launch, wins: spec_fn(int) -> bool, word: u32) -> bool {
    let start = launch.uniforms.nonce_base;
    let batch = launch.uniforms.n_nonces;
    if word == u32::MAX {
        forall|k: int| 0 <= k < batch ==> !#[trigger] wins(start + k)
    } else {
        &&& word < batch
        &&& wins(start + word)
        &&& forall|k: int| 0 <= k < word ==> !#[trigger] wins(start + k)
    }
}

/// Searching a batch in two parts and taking the first hit gives the same nonce as searching it
/// whole, if the kernel answers each launch with the lowest winner.
pub proof fn law_split_search<W>(
    miner: PomGpuMiner<W>,
    pre_pow_hash: Seq<u8>,
    timestamp: u64,
    target_le: Seq<u8>,
    s: u64,
    a: u64,
    b: u64,
    wins: spec_fn(int) -> bool,
    whole: (Launch, u32),
    first: (Launch, u32),
    second: (Launch, u32),
)
    requires
        a >= 1,
        b >= 1,
        a + b <= u32::MAX,
        s + a + b <= u64::MAX,
        whole.0.searches(miner, pre_pow_hash, timestamp, target_le, s, (a + b) as u64),
        first.0.searches(miner, pre_pow_hash, timestamp, target_le, s, a),
        second.0.searches(miner, pre_pow_hash, timestamp, target_le, (s + a) as u64, b),
        answers(whole.0, wins, whole.1),
        answers(first.0, wins, first.1),
        answers(second.0, wins, second.1),
    ensures
        is_winner_word(s, whole.1),
        is_winner_word(s, first.1),
        is_winner_word((s + a) as u64, second.1),
        winner_of(s, whole.1) == (match winner_of(s, first.1) {
            Some(nonce) => Some(nonce),
            None => winner_of((s + a) as u64, second.1),
        }),
{
    let (w, x, y) = (whole.1, first.1, second.1);
    if w != u32::MAX && w < a {
        assert(wins(s + w));
        if x != u32::MAX {
            if x < w {
                assert(wins(s + x));
            }
        }
    } else if x != u32::MAX {
        assert(wins(s + x));
        assert(false);
    } else if w != u32::MAX {
        let k = w - a;
        assert(wins((s + a) + k));
        if y != u32::MAX {
            assert(wins((s + a) + y));
            assert(wins(s + (a + y)));
        }
    } else if y != u32::MAX {
        assert(wins((s + a) + y));
        assert(wins(s + (a + y)));
    }
}

/// Both kinds of miner over the same tensors walk over the same chunks. A packed miner and a
/// gathered one have the same number of them, and chunk `off` of the packed weights is the chunk
/// that the gathered miner's table leads to: the table's segment `t` is at the address of one of
/// the tensors, and the chunk is `off - prefix[t]` chunks into it.
pub proof fn law_miners_walk_alike<D>(
    flat: PomGpuMiner<Vec<u8>>,
    gathered: crate::pom_gpu::PomGpuMiner<D>,
    tensors: Seq<QTensor>,
    off: int,
) -> (r: (int, int))
    requires
        flat.weights@ == packed(tensor_bytes(tensors)),
        flat.n_total_chunks == total_chunks(tensor_sizes(tensors)),
        gathered.gathers(tensors),
        0 <= off < gathered.n_total_chunks,
    ensures
        flat.n_total_chunks == gathered.n_total_chunks,
        ({
            let (t, i) = r;
            let at = 32 * (off - gathered.table.prefix@[t]);
            &&& 0 <= t < gathered.table.bases@.len()
            &&& gathered.table.prefix@[t] <= off < gathered.table.prefix@[t + 1]
            &&& 0 <= i < tensors.len()
            &&& is_address(tensors[i], gathered.table.bases@[t])
            &&& flat.weights@.subrange(32 * off, 32 * off + 32) == tensor_data(
                tensors[i],
            ).subrange(at, at + 32)
        }),
{
    let sizes = tensor_sizes(tensors);
    assert(sizes_of(tensor_bytes(tensors)) =~= sizes);
    let bases = choose|bases: Seq<u64>|
        {
            &&& bases.len() == tensors.len()
            &&& #[trigger] gathered.table.describes(tensor_sizes(tensors), bases)
            &&& addressed(tensors, bases)
        };
    law_prefix_table(sizes, bases);
    let t = law_chunk_has_one_segment(sizes, off);
    law_layouts_agree(tensor_bytes(tensors), off, t);
    assert(ints(gathered.table.prefix@)[t] == gathered.table.prefix@[t]);
    assert(ints(gathered.table.prefix@)[t + 1] == gathered.table.prefix@[t + 1]);
    let i = law_segment_is_a_tensor(sizes, bases, tensor_bytes(tensors), t);
    assert(tensor_bytes(tensors)[i] == tensor_data(tensors[i]));
    assert(is_address(tensors[i], bases[i]));
    (t, i)
}

/// What is said of a model without chunks, and of a batch that is too large.
pub proof fn law_error_texts()
    ensures
        NO_CHUNKS@ == "PoM Metal: model produced 0 chunks"@,
        BATCH_TOO_LARGE@ == "PoM Metal: batch exceeds u32"@,
        THREADGROUP_SIZE == 256,
{
}

} // verus!
