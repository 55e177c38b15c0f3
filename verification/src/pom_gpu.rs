//! Proof-of-Model mining on a GPU: what a miner is built from, and what each launch of the mining
//! kernel is given.
use std::collections::HashMap;
use std::sync::Arc;

use candle_core::quantized::QTensor;
use vstd::prelude::*;

use crate::bytes::words4;
use crate::layout::{
    concatenate, gather, Concatenation, SegmentTable, TensorSpan, CHUNK_BYTES,
};
use crate::registry::installed;
use crate::tensors::{device_address, read_data, storage_size};
#[allow(unused_imports)]
use crate::bytes::{law_word_places, le_nat, words_of};
#[allow(unused_imports)]
use crate::layout::{
    are_copy_targets, ints, law_prefix_table, lemma_total_chunks_grows, lengths, prefix_table,
    segment_bytes, segment_offsets, span_bases, span_sizes, total_chunks,
};
#[allow(unused_imports)]
use crate::tensors::{address_refused, has_address, is_address, read_refused, tensor_data};

pub use crate::install::{ensure_installed, ensure_installed_inner};
pub use crate::registry::{
    current_tier, install, is_installed, is_loading, remove_device_entry, set_mining_tier,
    uninstall,
};

verus! {

/// Why a miner could not be built.
#[derive(Debug)]
pub enum LoadError {
    /// No tensor of the model holds a whole chunk.
    NoChunks,
    /// There are more chunks, or more bytes of them, than can be counted.
    TooLarge,
    /// A tensor could not be reached on its device.
    Tensor(candle_core::Error),
}

/// The text of `NoChunks` where the model was loaded by itself.
pub const NO_CHUNKS: &'static str = "PoM GPU: model produced 0 chunks";

/// The text of `NoChunks` where the model was shared.
pub const NO_SHARED_CHUNKS: &'static str = "PoM GPU: shared load produced 0 chunks";

/// Where a tensor of the mining model comes from.
pub enum TensorSource {
    /// It was loaded for the miner alone.
    Raw(QTensor),
    /// It is resident already, in the inference engine.
    Shared(Arc<QTensor>),
}

impl TensorSource {
    /// The tensor, whoever owns it.
    pub open spec fn tensor(self) -> QTensor {
        match self {
            TensorSource::Raw(t) => t,
            TensorSource::Shared(t) => *t,
        }
    }
}

/// The sizes of tensors in bytes.
pub open spec fn tensor_sizes(tensors: Seq<QTensor>) -> Seq<int> {
    tensors.map_values(|t: QTensor| tensor_data(t).len() as int)
}

/// The place of the resident tensor of a name, in a list of the names of all that are. A tensor
/// that is not among them has to be loaded.
pub fn shared_position(shared_names: &Vec<String>, name: &String) -> (r: Option<usize>)
    ensures
        match r {
            Some(i) => {
                &&& i < shared_names@.len()
                &&& shared_names@[i as int]@ == name@
                &&& forall|j: int| 0 <= j < i ==> (#[trigger] shared_names@[j])@ != name@
            },
            None => forall|j: int|
                0 <= j < shared_names@.len() ==> (#[trigger] shared_names@[j])@ != name@,
        },
{
    let mut i: usize = 0;
    while i < shared_names.len()
        invariant
            i <= shared_names@.len(),
            forall|j: int| 0 <= j < i ==> (#[trigger] shared_names@[j])@ != name@,
        decreases shared_names@.len() - i,
    {
        if shared_names[i] == *name {
            return Some(i);
        }
        i = i + 1;
    }
    None
}

/// The tensors behind a list of sources.
pub open spec fn source_tensors(sources: Seq<TensorSource>) -> Seq<QTensor> {
    sources.map_values(|s: TensorSource| s.tensor())
}

/// Whether a list has the address of every tensor that has a chunk.
pub open spec fn addressed(tensors: Seq<QTensor>, bases: Seq<u64>) -> bool {
    forall|i: int|
        0 <= i < tensors.len() && tensor_data(tensors[i]).len() as int / 32 != 0 ==> is_address(
            tensors[i],
            #[trigger] bases[i],
        )
}

/// The tensors that were loaded for the miner alone, in order.
pub open spec fn raw_tensors(sources: Seq<TensorSource>) -> Seq<QTensor>
    decreases sources.len(),
{
    if sources.len() == 0 {
        Seq::empty()
    } else {
        match sources.last() {
            TensorSource::Raw(t) => raw_tensors(sources.drop_last()).push(t),
            TensorSource::Shared(_) => raw_tensors(sources.drop_last()),
        }
    }
}

/// Whether a tensor has to have an address: it is shared, or it has a chunk.
pub open spec fn needs_address(source: TensorSource) -> bool {
    source is Shared || tensor_data(source.tensor()).len() as int / 32 != 0
}

/// The tensors that are shared with the inference engine, in order.
pub open spec fn shared_tensors(sources: Seq<TensorSource>) -> Seq<QTensor>
    decreases sources.len(),
{
    if sources.len() == 0 {
        Seq::empty()
    } else {
        match sources.last() {
            TensorSource::Raw(_) => shared_tensors(sources.drop_last()),
            TensorSource::Shared(t) => shared_tensors(sources.drop_last()).push(*t),
        }
    }
}

/// The tensors behind a list of references.
pub open spec fn referents(v: Seq<Arc<QTensor>>) -> Seq<QTensor> {
    v.map_values(|t: Arc<QTensor>| *t)
}

/// A miner over a gathered model. `D` is what a backend keeps of its device.
pub struct PomGpuMiner<D> {
    pub device: D,
    pub table: SegmentTable,
    pub t_count: u32,
    pub n_total_chunks: u64,
    pub tensors: Vec<QTensor>,
    pub shared: Vec<Arc<QTensor>>,
}

impl<D> PomGpuMiner<D> {
    /// What holds of every miner: it has chunks, and its table is one over them.
    pub open spec fn wf(&self) -> bool {
        &&& self.n_total_chunks > 0
        &&& self.t_count == self.table.bases@.len() % 0x1_0000_0000
        &&& crate::layout::is_prefix_table(
            ints(self.table.prefix@),
            self.table.bases@.len() as int,
            self.n_total_chunks as int,
        )
    }

    /// Whether the miner gathers the given tensors, in that order: its table has their chunks, each
    /// at the address that the tensor has on its device.
    pub open spec fn gathers(&self, tensors: Seq<QTensor>) -> bool {
        &&& self.n_total_chunks == total_chunks(tensor_sizes(tensors))
        &&& exists|bases: Seq<u64>|
            {
                &&& bases.len() == tensors.len()
                &&& #[trigger] self.table.describes(tensor_sizes(tensors), bases)
                &&& addressed(tensors, bases)
            }
    }

    /// The number of chunks that the miner walks over.
    pub fn n_chunks(&self) -> (n: u64)
        ensures
            n == self.n_total_chunks,
    {
        self.n_total_chunks
    }

    /// The same miner, on the device that its table was uploaded to.
    pub fn on_device<E>(self, device: E) -> (m: PomGpuMiner<E>)
        ensures
            m.device == device,
            m.table == self.table,
            m.t_count == self.t_count,
            m.n_total_chunks == self.n_total_chunks,
            m.tensors == self.tensors,
            m.shared == self.shared,
    {
        PomGpuMiner {
            device,
            table: self.table,
            t_count: self.t_count,
            n_total_chunks: self.n_total_chunks,
            tensors: self.tensors,
            shared: self.shared,
        }
    }
}

/// The low 32 bits of a count.
fn low_bits(n: u64) -> (r: u32)
    ensures
        r == n % 0x1_0000_0000,
{
    assert(n as u32 == n % 0x1_0000_0000) by (bit_vector);
    #[verifier::truncate]
    let r: u32 = n as u32;
    r
}

/// Builds the host side of a miner over spans. Without chunks there is none.
pub fn assemble(spans: &Vec<TensorSpan>) -> (r: Option<PomGpuMiner<()>>)
    requires
        total_chunks(span_sizes(spans@)) <= u64::MAX,
    ensures
        r is None <==> total_chunks(span_sizes(spans@)) == 0,
        r matches Some(m) ==> {
            &&& m.wf()
            &&& m.n_total_chunks == total_chunks(span_sizes(spans@))
            &&& m.table.describes(span_sizes(spans@), span_bases(spans@))
            &&& m.tensors@.len() == 0
            &&& m.shared@.len() == 0
        },
{
    let table: SegmentTable = gather(spans);
    let n_total_chunks: u64 = table.n_chunks();
    proof {
        law_prefix_table(span_sizes(spans@), span_bases(spans@));
    }
    if n_total_chunks == 0 {
        return None;
    }
    let t_count: u32 = low_bits(table.bases.len() as u64);
    Some(
        PomGpuMiner {
            device: (),
            table,
            t_count,
            n_total_chunks,
            tensors: Vec::new(),
            shared: Vec::new(),
        },
    )
}

/// Measures a tensor and finds its address. A tensor without chunks needs no address, and gets
/// none unless `always` is set.
fn span_of(t: &QTensor, always: bool) -> (r: Result<TensorSpan, candle_core::Error>)
    ensures
        match r {
            Ok(span) => {
                &&& span.bytes == tensor_data(*t).len()
                &&& always || span.bytes as int / 32 != 0 ==> is_address(*t, span.base)
            },
            Err(e) => {
                &&& always || tensor_data(*t).len() as int / 32 != 0
                &&& address_refused(*t, e)
            },
        },
{
    let bytes: usize = storage_size(t);
    if bytes / CHUNK_BYTES == 0 && !always {
        return Ok(TensorSpan { bytes, base: 0 });
    }
    match device_address(t) {
        Ok(base) => Ok(TensorSpan { bytes, base }),
        Err(e) => Err(e),
    }
}

/// Measures a list of tensors, and counts their chunks as far as they can be counted.
struct Survey {
    spans: Vec<TensorSpan>,
    chunks: u64,
}

impl Survey {
    /// Whether these are the tensors so far, and the count is right.
    spec fn covers(&self, tensors: Seq<QTensor>) -> bool {
        &&& span_sizes(self.spans@) == tensor_sizes(tensors)
        &&& addressed(tensors, span_bases(self.spans@))
        &&& self.chunks == total_chunks(tensor_sizes(tensors))
    }

    /// Measures one tensor more, behind those that were measured already.
    fn visit(
        &mut self,
        Ghost(tensors): Ghost<Seq<QTensor>>,
        t: &QTensor,
        always: bool,
    ) -> (r: Result<(), LoadError>)
        requires
            old(self).covers(tensors),
        ensures
            match r {
                Ok(_) => {
                    &&& final(self).covers(tensors.push(*t))
                    &&& always || tensor_data(*t).len() as int / 32 != 0 ==> has_address(*t)
                },
                Err(LoadError::NoChunks) => false,
                Err(LoadError::TooLarge) => total_chunks(tensor_sizes(tensors.push(*t)))
                    > u64::MAX,
                Err(LoadError::Tensor(e)) => {
                    &&& always || tensor_data(*t).len() as int / 32 != 0
                    &&& address_refused(*t, e)
                },
            },
    {
        let ghost grown = tensors.push(*t);
        let ghost before = self.spans@;
        proof {
            assert(tensor_sizes(grown).drop_last() =~= tensor_sizes(tensors));
            assert(span_sizes(before).len() == before.len());
            assert(tensor_sizes(tensors).len() == tensors.len());
        }
        match span_of(t, always) {
            Ok(span) => {
                let more: u64 = (span.bytes / CHUNK_BYTES) as u64;
                match self.chunks.checked_add(more) {
                    Some(chunks) => {
                        let ghost base = span.base;
                        self.spans.push(span);
                        self.chunks = chunks;
                        proof {
                            let len = tensor_data(*t).len() as int;
                            assert(span_sizes(self.spans@) =~= span_sizes(before).push(len));
                            assert(tensor_sizes(grown) =~= tensor_sizes(tensors).push(len));
                            assert(span_bases(self.spans@) =~= span_bases(before).push(base));
                            let bases = span_bases(self.spans@);
                            assert forall|i: int|
                                0 <= i < grown.len() && tensor_data(grown[i]).len() as int / 32
                                    != 0 implies is_address(grown[i], #[trigger] bases[i]) by {
                                if i < tensors.len() {
                                    assert(bases[i] == span_bases(before)[i]);
                                    assert(grown[i] == tensors[i]);
                                }
                            }
                        }
                        Ok(())
                    },
                    None => Err(LoadError::TooLarge),
                }
            },
            Err(e) => Err(LoadError::Tensor(e)),
        }
    }
}

/// The chunks of a tensor are among those of the model.
pub(crate) proof fn lemma_chunk_counts(sizes: Seq<int>, i: int)
    requires
        crate::layout::are_sizes(sizes),
        0 <= i < sizes.len(),
        sizes[i] / 32 != 0,
    ensures
        total_chunks(sizes) > 0,
{
    lemma_total_chunks_grows(sizes, i);
    lemma_total_chunks_grows(sizes, i + 1);
    assert(sizes.take(i + 1).drop_last() =~= sizes.take(i));
}

impl PomGpuMiner<()> {
    /// Builds the host side of a miner over tensors that were loaded for it alone, in the order
    /// in which they are given. The first tensor with a chunk that has no address fails it.
    pub fn load(tensors: Vec<QTensor>) -> (r: Result<PomGpuMiner<()>, LoadError>)
        ensures
            match r {
                Ok(m) => {
                    &&& m.wf()
                    &&& m.gathers(tensors@)
                    &&& m.tensors@ == tensors@
                    &&& m.shared@.len() == 0
                },
                Err(LoadError::NoChunks) => total_chunks(tensor_sizes(tensors@)) == 0,
                Err(LoadError::TooLarge) => total_chunks(tensor_sizes(tensors@)) > u64::MAX,
                Err(LoadError::Tensor(e)) => {
                    &&& total_chunks(tensor_sizes(tensors@)) > 0
                    &&& exists|i: int|
                        {
                            &&& 0 <= i < tensors@.len()
                            &&& tensor_sizes(tensors@)[i] / 32 != 0
                            &&& address_refused(#[trigger] tensors@[i], e)
                            &&& forall|j: int|
                                0 <= j < i && tensor_sizes(tensors@)[j] / 32 != 0 ==> has_address(
                                    #[trigger] tensors@[j],
                                )
                        }
                },
            },
    {
        let ghost all = tensors@;
        let ghost sizes = tensor_sizes(all);
        let mut survey: Survey = Survey { spans: Vec::new(), chunks: 0 };
        let mut i: usize = 0;
        proof {
            assert(all.take(0) =~= Seq::empty());
            assert(span_sizes(survey.spans@) =~= tensor_sizes(all.take(0)));
        }
        while i < tensors.len()
            invariant
                i <= tensors@.len(),
                all == tensors@,
                sizes == tensor_sizes(all),
                survey.covers(all.take(i as int)),
                forall|j: int|
                    0 <= j < i && sizes[j] / 32 != 0 ==> has_address(#[trigger] tensors@[j]),
            decreases tensors@.len() - i,
        {
            proof {
                assert(all.take(i + 1) =~= all.take(i as int).push(all[i as int]));
                assert(sizes.take(i + 1) =~= tensor_sizes(all.take(i + 1)));
                lemma_total_chunks_grows(sizes, i + 1);
                if sizes[i as int] / 32 != 0 {
                    lemma_chunk_counts(sizes, i as int);
                }
            }
            match survey.visit(Ghost(all.take(i as int)), &tensors[i], false) {
                Ok(_) => {},
                Err(e) => {
                    proof {
                        assert(sizes[i as int] == tensor_data(tensors@[i as int]).len());
                    }
                    return Err(e);
                },
            }
            i = i + 1;
        }
        proof {
            assert(all.take(i as int) =~= all);
        }
        match assemble(&survey.spans) {
            Some(m) => {
                let built: PomGpuMiner<()> = PomGpuMiner { tensors, ..m };
                proof {
                    assert(span_bases(survey.spans@).len() == span_sizes(survey.spans@).len());
                    assert(built.table.describes(sizes, span_bases(survey.spans@)));
                }
                Ok(built)
            },
            None => Err(LoadError::NoChunks),
        }
    }

    /// Builds the host side of a miner that uses the tensors which are resident already, and has
    /// loaded only the others. A shared tensor has to have an address even if it has no chunk; the
    /// first tensor that needs one and has none fails the load.
    pub fn load_shared(sources: Vec<TensorSource>) -> (r: Result<PomGpuMiner<()>, LoadError>)
        ensures
            match r {
                Ok(m) => {
                    &&& m.wf()
                    &&& m.gathers(source_tensors(sources@))
                    &&& m.tensors@ == raw_tensors(sources@)
                    &&& referents(m.shared@) == shared_tensors(sources@)
                    &&& forall|i: int|
                        0 <= i < sources@.len() && sources@[i] is Shared ==> has_address(
                            (#[trigger] sources@[i]).tensor(),
                        )
                },
                Err(LoadError::NoChunks) => total_chunks(tensor_sizes(source_tensors(sources@)))
                    == 0,
                Err(LoadError::TooLarge) => total_chunks(tensor_sizes(source_tensors(sources@)))
                    > u64::MAX,
                Err(LoadError::Tensor(e)) => exists|i: int|
                    {
                        &&& 0 <= i < sources@.len()
                        &&& needs_address(sources@[i])
                        &&& address_refused((#[trigger] sources@[i]).tensor(), e)
                        &&& forall|j: int|
                            0 <= j < i && needs_address(sources@[j]) ==> has_address(
                                (#[trigger] sources@[j]).tensor(),
                            )
                    },
            },
    {
        let ghost all = sources@;
        let ghost tensors = source_tensors(all);
        let ghost sizes = tensor_sizes(tensors);
        let mut survey: Survey = Survey { spans: Vec::new(), chunks: 0 };
        let mut raw: Vec<QTensor> = Vec::new();
        let mut shared: Vec<Arc<QTensor>> = Vec::new();
        proof {
            assert(tensors.take(0) =~= Seq::empty());
            assert(span_sizes(survey.spans@) =~= tensor_sizes(tensors.take(0)));
            assert(all.take(0) =~= Seq::empty());
            assert(referents(shared@) =~= Seq::empty());
        }
        for source in it: sources.into_iter()
            invariant
                it.seq() == all,
                all == sources@,
                tensors == source_tensors(all),
                sizes == tensor_sizes(tensors),
                survey.covers(tensors.take(it.index() as int)),
                forall|j: int|
                    0 <= j < it.index() && needs_address(all[j]) ==> has_address(
                        (#[trigger] all[j]).tensor(),
                    ),
                raw@ == raw_tensors(all.take(it.index() as int)),
                referents(shared@) == shared_tensors(all.take(it.index() as int)),
        {
            let ghost i = it.index() as int;
            proof {
                assert(source == all[i]);
                assert(tensors[i] == source.tensor());
                assert(sizes[i] == tensor_data(source.tensor()).len());
                assert(tensors.take(i + 1) =~= tensors.take(i).push(tensors[i]));
                assert(sizes.take(i + 1) =~= tensor_sizes(tensors.take(i + 1)));
                assert(all.take(i + 1).drop_last() =~= all.take(i));
                lemma_total_chunks_grows(sizes, i + 1);
            }
            match source {
                TensorSource::Raw(t) => {
                    match survey.visit(Ghost(tensors.take(i)), &t, false) {
                        Ok(_) => {},
                        Err(e) => {
                            return Err(e);
                        },
                    }
                    raw.push(t);
                },
                TensorSource::Shared(t) => {
                    match survey.visit(Ghost(tensors.take(i)), &t, true) {
                        Ok(_) => {},
                        Err(e) => {
                            return Err(e);
                        },
                    }
                    let ghost before = shared@;
                    shared.push(t);
                    proof {
                        assert(referents(shared@) =~= referents(before).push(*t));
                    }
                },
            }
        }
        proof {
            assert(tensors.take(all.len() as int) =~= tensors);
            assert(all.take(all.len() as int) =~= all);
        }
        match assemble(&survey.spans) {
            Some(m) => {
                let built: PomGpuMiner<()> = PomGpuMiner { tensors: raw, shared, ..m };
                proof {
                    assert(built.tensors@ == raw_tensors(all));
                    assert(referents(built.shared@) == shared_tensors(all));
                    assert(span_bases(survey.spans@).len() == span_sizes(survey.spans@).len());
                    assert(built.table.describes(sizes, span_bases(survey.spans@)));
                }
                Ok(built)
            },
            None => Err(LoadError::NoChunks),
        }
    }
}

/// The bytes of a tensor, on the host.
pub fn contents(t: &QTensor) -> (r: Result<Vec<u8>, LoadError>)
    ensures
        match r {
            Ok(bytes) => bytes@ == tensor_data(*t),
            Err(LoadError::Tensor(e)) => read_refused(*t, e),
            Err(_) => false,
        },
{
    match read_data(t) {
        Ok(bytes) => Ok(bytes),
        Err(e) => Err(LoadError::Tensor(e)),
    }
}

/// A miner whose tensors are to be copied into one buffer: how long the buffer is, and where in it
/// each tensor goes. A tensor without chunks goes nowhere.
pub struct ConcatenatedLoad {
    pub miner: PomGpuMiner<()>,
    pub total_bytes: u64,
    pub copy_to: Vec<Option<u64>>,
}

/// Builds the host side of a miner over one buffer, from the sizes of the tensors that will be
/// copied into it.
pub fn load_concatenated(sizes: &Vec<usize>) -> (r: Result<ConcatenatedLoad, LoadError>)
    ensures
        match r {
            Ok(load) => {
                &&& load.miner.wf()
                &&& load.miner.n_total_chunks == total_chunks(lengths(sizes@))
                &&& ints(load.miner.table.bases@) == segment_offsets(lengths(sizes@))
                &&& ints(load.miner.table.prefix@) == prefix_table(lengths(sizes@))
                &&& load.miner.tensors@.len() == 0
                &&& load.miner.shared@.len() == 0
                &&& load.total_bytes == segment_bytes(lengths(sizes@))
                &&& are_copy_targets(lengths(sizes@), load.copy_to@)
            },
            Err(LoadError::NoChunks) => total_chunks(lengths(sizes@)) == 0,
            Err(LoadError::TooLarge) => segment_bytes(lengths(sizes@)) > u64::MAX,
            Err(LoadError::Tensor(_)) => false,
        },
{
    let ghost all = lengths(sizes@);
    let mut total_bytes: u64 = 0;
    let mut i: usize = 0;
    proof {
        assert(all.take(0) =~= Seq::empty());
    }
    while i < sizes.len()
        invariant
            i <= sizes@.len(),
            all == lengths(sizes@),
            total_bytes == segment_bytes(all.take(i as int)),
        decreases sizes@.len() - i,
    {
        proof {
            assert(all.take(i + 1).drop_last() =~= all.take(i as int));
            lemma_total_chunks_grows(all, i + 1);
        }
        if sizes[i] / CHUNK_BYTES != 0 {
            match total_bytes.checked_add(sizes[i] as u64) {
                Some(total) => {
                    total_bytes = total;
                },
                None => {
                    return Err(LoadError::TooLarge);
                },
            }
        }
        i = i + 1;
    }
    proof {
        assert(all.take(i as int) =~= all);
        law_prefix_table(all, all);
    }
    let plan: Concatenation = concatenate(sizes);
    let n_total_chunks: u64 = plan.table.n_chunks();
    if n_total_chunks == 0 {
        return Err(LoadError::NoChunks);
    }
    let t_count: u32 = low_bits(plan.table.bases.len() as u64);
    proof {
        assert(ints(plan.table.bases@).len() == plan.table.bases@.len());
    }
    Ok(
        ConcatenatedLoad {
            miner: PomGpuMiner {
                device: (),
                table: plan.table,
                t_count,
                n_total_chunks,
                tensors: Vec::new(),
                shared: Vec::new(),
            },
            total_bytes: plan.total_bytes,
            copy_to: plan.copy_to,
        },
    )
}

/// Steps of a walk in the network's proof.
pub const POM_WALK_STEPS: u32 = 256;

/// Threads in a group of a launch.
pub const GROUP_SIZE: u64 = 256;

/// The kernel's parameter block: one launch's job, target and nonce range.
pub struct PomParams {
    pub t_count: u32,
    pub k_steps: u32,
    pub n_total_chunks: u64,
    pub p: [u64; 4],
    pub time: u64,
    pub t: [u64; 4],
    pub nonce_base: u64,
    pub n_nonces: u64,
}

/// One launch of the mining kernel. The winner word holds `winner` when the kernel starts, and
/// the winning nonce behind it, if there is one.
pub struct Launch {
    pub params: PomParams,
    /// Groups of `GROUP_SIZE` threads that cover the nonces.
    pub groups: u64,
    /// The same number in the 32 bits that a CUDA grid has for it.
    pub grid: u32,
    pub winner: u64,
}

impl Launch {
    /// Whether this is the launch of a miner on a job.
    pub open spec fn searches<D>(
        &self,
        miner: PomGpuMiner<D>,
        pre_pow_hash: Seq<u8>,
        timestamp: u64,
        target_le: Seq<u8>,
        start: u64,
        batch: u64,
    ) -> bool {
        &&& self.params.t_count == miner.t_count
        &&& self.params.k_steps == POM_WALK_STEPS
        &&& self.params.n_total_chunks == miner.n_total_chunks
        &&& self.params.p@ == words_of(pre_pow_hash)
        &&& self.params.time == timestamp
        &&& self.params.t@ == words_of(target_le)
        &&& self.params.nonce_base == start
        &&& self.params.n_nonces == batch
        &&& self.groups == (batch + 255) / 256
        &&& self.grid == self.groups % 0x1_0000_0000
        &&& self.winner == u64::MAX
    }
}

/// What the kernel is told is the caller's job: the words of the hash in order, the timestamp, the
/// target as one number, the nonce range, the number of chunks, and the length of the network's
/// walk. So a value is at most the kernel's target exactly if it is at most the caller's.
pub proof fn law_launch_carries_job<D>(
    launch: Launch,
    miner: PomGpuMiner<D>,
    pre_pow_hash: Seq<u8>,
    timestamp: u64,
    target_le: Seq<u8>,
    start: u64,
    batch: u64,
    value: Seq<u8>,
)
    requires
        pre_pow_hash.len() == 32,
        target_le.len() == 32,
        launch.searches(miner, pre_pow_hash, timestamp, target_le, start, batch),
    ensures
        launch.params.t_count == miner.t_count,
        launch.params.k_steps == 256,
        launch.params.n_total_chunks == miner.n_total_chunks,
        launch.params.p@.len() == 4,
        forall|i: int|
            0 <= i < 4 ==> #[trigger] launch.params.p@[i] == le_nat(
                pre_pow_hash.subrange(8 * i, 8 * i + 8),
            ),
        launch.params.time == timestamp,
        launch.params.t@.len() == 4,
        ({
            let t = launch.params.t@;
            let number = t[0] + 0x1_0000_0000_0000_0000 * t[1]
                + 0x1_0000_0000_0000_0000_0000_0000_0000_0000 * t[2]
                + 0x1_0000_0000_0000_0000_0000_0000_0000_0000_0000_0000_0000_0000 * t[3];
            &&& number == le_nat(target_le)
            &&& le_nat(value) <= number <==> le_nat(value) <= le_nat(target_le)
        }),
        launch.params.nonce_base == start,
        launch.params.n_nonces == batch,
        launch.groups * 256 >= batch,
        batch > 0 ==> (launch.groups - 1) * 256 < batch,
        batch == 0 ==> launch.groups == 0,
        launch.grid == launch.groups % 0x1_0000_0000,
        launch.winner == 0xffff_ffff_ffff_ffff,
{
    law_word_places(pre_pow_hash);
    law_word_places(target_le);
}

/// A launch has a thread for every nonce, and no group without one.
pub proof fn law_launch_covers_batch<D>(
    launch: Launch,
    miner: PomGpuMiner<D>,
    pre_pow_hash: Seq<u8>,
    timestamp: u64,
    target_le: Seq<u8>,
    start: u64,
    batch: u64,
)
    requires
        launch.searches(miner, pre_pow_hash, timestamp, target_le, start, batch),
    ensures
        batch <= launch.groups * GROUP_SIZE,
        batch > 0 ==> (launch.groups - 1) * GROUP_SIZE < batch,
        batch == 0 ==> launch.groups == 0,
        batch <= 0xff_ffff_ff00 ==> launch.grid == launch.groups,
{
}

impl<D> PomGpuMiner<D> {
    /// What to launch to search the nonces of a batch.
    pub fn mine(
        &self,
        pre_pow_hash: &[u8; 32],
        timestamp: u64,
        target_le: &[u8; 32],
        start: u64,
        batch: u64,
    ) -> (launch: Launch)
        requires
            batch + 255 <= u64::MAX,
        ensures
            launch.searches(*self, pre_pow_hash@, timestamp, target_le@, start, batch),
            forall|i: int|
                0 <= i < 4 ==> #[trigger] launch.params.p@[i] == le_nat(
                    pre_pow_hash@.subrange(8 * i, 8 * i + 8),
                ),
            launch.params.t@[0] + 0x1_0000_0000_0000_0000 * launch.params.t@[1]
                + 0x1_0000_0000_0000_0000_0000_0000_0000_0000 * launch.params.t@[2]
                + 0x1_0000_0000_0000_0000_0000_0000_0000_0000_0000_0000_0000_0000 * launch.params.t@[3]
                == le_nat(target_le@),
    {
        proof {
            law_word_places(pre_pow_hash@);
            law_word_places(target_le@);
        }
        let groups: u64 = (batch + (GROUP_SIZE - 1)) / GROUP_SIZE;
        Launch {
            params: PomParams {
                t_count: self.t_count,
                k_steps: POM_WALK_STEPS,
                n_total_chunks: self.n_total_chunks,
                p: words4(pre_pow_hash),
                time: timestamp,
                t: words4(target_le),
                nonce_base: start,
                n_nonces: batch,
            },
            groups,
            grid: low_bits(groups),
            winner: u64::MAX,
        }
    }
}

/// The winning nonce, by what the winner word holds behind a launch.
pub fn winner(word: u64) -> (r: Option<u64>)
    ensures
        r == (if word == u64::MAX {
            None::<u64>
        } else {
            Some(word)
        }),
{
    if word == u64::MAX {
        None
    } else {
        Some(word)
    }
}

/// What to launch on a device, and on which miner. A device without a miner mines nothing.
pub fn mine<'a, D>(
    miners: &'a HashMap<u32, Arc<PomGpuMiner<D>>>,
    device_id: u32,
    pre_pow_hash: &[u8; 32],
    timestamp: u64,
    target_le: &[u8; 32],
    start: u64,
    batch: u64,
) -> (r: Option<(&'a Arc<PomGpuMiner<D>>, Launch)>)
    requires
        batch + 255 <= u64::MAX,
    ensures
        match r {
            Some((m, launch)) => {
                &&& miners@.contains_key(device_id)
                &&& *m == miners@[device_id]
                &&& launch.searches(**m, pre_pow_hash@, timestamp, target_le@, start, batch)
            },
            None => !miners@.contains_key(device_id),
        },
{
    match installed(miners, device_id) {
        Some(m) => Some((m, m.mine(pre_pow_hash, timestamp, target_le, start, batch))),
        None => None,
    }
}

/// The winning nonce of a launch that may have failed. A failed launch has none.
pub fn mined<E>(word: Result<u64, E>) -> (r: Option<u64>)
    ensures
        r == (match word {
            Ok(w) => if w == u64::MAX {
                None::<u64>
            } else {
                Some(w)
            },
            Err(_) => None::<u64>,
        }),
{
    match word {
        Ok(w) => winner(w),
        Err(_) => None,
    }
}

/// The raw and the shared tensors of a list of sources are those of its parts one after the other,
/// and a tensor is among those of its kind alone.
pub proof fn law_sources_in_order(a: Seq<TensorSource>, b: Seq<TensorSource>, t: TensorSource)
    ensures
        raw_tensors(a + b) == raw_tensors(a) + raw_tensors(b),
        shared_tensors(a + b) == shared_tensors(a) + shared_tensors(b),
        t is Raw ==> raw_tensors(seq![t]) == seq![t.tensor()],
        t is Raw ==> shared_tensors(seq![t]).len() == 0,
        t is Shared ==> raw_tensors(seq![t]).len() == 0,
        t is Shared ==> shared_tensors(seq![t]) == seq![t.tensor()],
    decreases b.len(),
{
    assert(seq![t].drop_last() =~= Seq::empty());
    assert(raw_tensors(Seq::empty()) =~= Seq::empty());
    assert(shared_tensors(Seq::empty()) =~= Seq::empty());
    assert(Seq::empty().push(t.tensor()) =~= seq![t.tensor()]);
    if b.len() == 0 {
        assert(a + b =~= a);
        assert(raw_tensors(a) + raw_tensors(b) =~= raw_tensors(a));
        assert(shared_tensors(a) + shared_tensors(b) =~= shared_tensors(a));
    } else {
        law_sources_in_order(a, b.drop_last(), t);
        assert((a + b).drop_last() =~= a + b.drop_last());
        assert((a + b).last() == b.last());
        assert(raw_tensors(a + b) =~= raw_tensors(a) + raw_tensors(b));
        assert(shared_tensors(a + b) =~= shared_tensors(a) + shared_tensors(b));
    }
}

/// A miner has a segment for each entry of its table, counted in 32 bits, and the table runs over
/// all of its chunks without a gap: it begins at 0, each segment has a chunk at least, and it ends
/// at the number of chunks.
pub proof fn law_miner_table<D>(m: PomGpuMiner<D>, t: int)
    requires
        m.wf(),
        0 <= t < m.table.bases@.len(),
    ensures
        m.n_total_chunks > 0,
        m.table.bases@.len() < 0x1_0000_0000 ==> m.t_count == m.table.bases@.len(),
        m.table.prefix@.len() == m.table.bases@.len() + 1,
        m.table.prefix@[0] == 0,
        m.table.prefix@[t] < m.table.prefix@[t + 1],
        m.table.prefix@.last() == m.n_total_chunks,
{
    let p = ints(m.table.prefix@);
    assert(p[0] == m.table.prefix@[0]);
    assert(p[t] == m.table.prefix@[t] && p[t + 1] == m.table.prefix@[t + 1]);
    assert(p[p.len() - 1] == m.table.prefix@.last());
}

/// A tensor counts for as many bytes as it holds, whoever owns it; and a load asks for the address
/// of every tensor that is shared, and of every one that has 32 bytes.
pub proof fn law_sources_measured(sources: Seq<TensorSource>, i: int)
    requires
        0 <= i < sources.len(),
    ensures
        source_tensors(sources).len() == sources.len(),
        source_tensors(sources)[i] == sources[i].tensor(),
        tensor_sizes(source_tensors(sources)).len() == sources.len(),
        tensor_sizes(source_tensors(sources))[i] == tensor_data(sources[i].tensor()).len(),
        sources[i] is Shared ==> needs_address(sources[i]),
        sources[i] is Raw ==> (needs_address(sources[i]) <==> tensor_data(
            sources[i].tensor(),
        ).len() >= 32),
{
}

/// What is said of a model without chunks.
pub proof fn law_load_error_texts()
    ensures
        NO_CHUNKS@ == "PoM GPU: model produced 0 chunks"@,
        NO_SHARED_CHUNKS@ == "PoM GPU: shared load produced 0 chunks"@,
        POM_WALK_STEPS == 256,
        GROUP_SIZE == 256,
{
}

} // verus!
