//! The worker of a machine whose one GPU is driven through Metal.
//!
//! Mining itself goes by the device id alone, which is read from the worker's label. What else a
//! worker can be asked for belongs to an older proof of work: this one has nothing to hash, and
//! finds nothing.
use vstd::prelude::*;

verus! {

/// The label of the device: its number behind a `#`, and its name.
pub const METAL_DEVICE_ID: &'static str = "#0 Apple GPU (Metal)";

/// What a Metal worker is built from.
pub struct MetalWorkerSpec;

impl MetalWorkerSpec {
    /// The label of the device. It says that the device is number 0.
    pub fn id(&self) -> (r: String)
        ensures
            r@ == METAL_DEVICE_ID@,
            r@.take(3) == seq!['#', '0', ' '],
    {
        proof {
            reveal_strlit("#0 Apple GPU (Metal)");
        }
        METAL_DEVICE_ID.to_owned()
    }

    /// A worker for the device.
    pub fn build(&self) -> (r: Box<MetalWorker>)
        ensures
            *r == MetalWorker,
    {
        Box::new(MetalWorker)
    }
}

/// A Metal worker.
pub struct MetalWorker;

impl MetalWorker {
    /// The label of the device. It says that the device is number 0.
    pub fn id(&self) -> (r: String)
        ensures
            r@ == METAL_DEVICE_ID@,
            r@.take(3) == seq!['#', '0', ' '],
    {
        proof {
            reveal_strlit("#0 Apple GPU (Metal)");
        }
        METAL_DEVICE_ID.to_owned()
    }

    /// Takes a block's constants, and has no use for them.
    pub fn load_block_constants(
        &mut self,
        hash_header: &[u8; 72],
        matrix: &[[u16; 64]; 64],
        target: &[u64; 4],
    )
        ensures
            *final(self) == *old(self),
    {
    }

    /// Hashes nothing.
    pub fn calculate_hash(
        &mut self,
        nonces: Option<&Vec<u64>>,
        nonce_mask: u64,
        nonce_fixed: u64,
    )
        ensures
            *final(self) == *old(self),
    {
    }

    /// There is nothing to wait for.
    pub fn sync<E>(&self) -> (r: Result<(), E>)
        ensures
            r is Ok,
    {
        Ok(())
    }

    /// No nonce is tried.
    pub fn get_workload(&self) -> (n: usize)
        ensures
            n == 0,
    {
        0
    }

    /// There is no output: the nonces stay as they are.
    pub fn copy_output_to<E>(&mut self, nonces: &mut Vec<u64>) -> (r: Result<(), E>)
        ensures
            r is Ok,
            *final(nonces) == *old(nonces),
            *final(self) == *old(self),
    {
        Ok(())
    }
}

} // verus!
