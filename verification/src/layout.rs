//! How a model's weights are laid out for mining.
//!
//! The weights are cut into 32-byte chunks, tensor after tensor in the canonical order. A chunk
//! has one global index in every layout: in the gathered layout, where each tensor stays where it
//! is and a prefix table says which tensor an index falls into; in the concatenated layout, where
//! the tensors stand one after the other in one buffer; and in the packed layout, where only
//! whole chunks are kept and an index is a position.
use vstd::prelude::*;

verus! {

/// Bytes in a weight chunk.
pub const CHUNK_BYTES: usize = 32;

/// The chunks of all tensors together, by the tensors' sizes in bytes. What is left of a tensor
/// behind its last whole chunk does not count.
pub open spec fn total_chunks(sizes: Seq<int>) -> int
    decreases sizes.len(),
{
    if sizes.len() == 0 {
        0
    } else {
        total_chunks(sizes.drop_last()) + sizes.last() / 32
    }
}

/// What is kept of a list with one entry per tensor: the entries of the tensors that have a chunk.
pub open spec fn segments<T>(sizes: Seq<int>, entries: Seq<T>) -> Seq<T>
    recommends
        sizes.len() == entries.len(),
    decreases sizes.len(),
{
    if sizes.len() == 0 {
        Seq::empty()
    } else if sizes.last() / 32 == 0 {
        segments(sizes.drop_last(), entries.drop_last())
    } else {
        segments(sizes.drop_last(), entries.drop_last()).push(entries.last())
    }
}

/// The prefix table: the first chunk index of each segment, and the number of chunks at the end.
pub open spec fn prefix_table(sizes: Seq<int>) -> Seq<int>
    decreases sizes.len(),
{
    if sizes.len() == 0 {
        seq![0]
    } else if sizes.last() / 32 == 0 {
        prefix_table(sizes.drop_last())
    } else {
        prefix_table(sizes.drop_last()).push(total_chunks(sizes))
    }
}

/// The bytes of all segments together, tails included.
pub open spec fn segment_bytes(sizes: Seq<int>) -> int
    decreases sizes.len(),
{
    if sizes.len() == 0 {
        0
    } else if sizes.last() / 32 == 0 {
        segment_bytes(sizes.drop_last())
    } else {
        segment_bytes(sizes.drop_last()) + sizes.last()
    }
}

/// Where each segment starts in the concatenated layout.
pub open spec fn segment_offsets(sizes: Seq<int>) -> Seq<int>
    decreases sizes.len(),
{
    if sizes.len() == 0 {
        Seq::empty()
    } else if sizes.last() / 32 == 0 {
        segment_offsets(sizes.drop_last())
    } else {
        segment_offsets(sizes.drop_last()).push(segment_bytes(sizes.drop_last()))
    }
}

/// The tensors' sizes.
pub open spec fn sizes_of(tensors: Seq<Seq<u8>>) -> Seq<int> {
    tensors.map_values(|t: Seq<u8>| t.len() as int)
}

/// The concatenated layout: the bytes of the tensors that have a chunk, one after the other.
pub open spec fn concatenated(tensors: Seq<Seq<u8>>) -> Seq<u8>
    decreases tensors.len(),
{
    if tensors.len() == 0 {
        Seq::empty()
    } else if (tensors.last().len() as int) / 32 == 0 {
        concatenated(tensors.drop_last())
    } else {
        concatenated(tensors.drop_last()) + tensors.last()
    }
}

/// The packed layout: the whole chunks of the tensors, one after the other.
pub open spec fn packed(tensors: Seq<Seq<u8>>) -> Seq<u8>
    decreases tensors.len(),
{
    if tensors.len() == 0 {
        Seq::empty()
    } else {
        packed(tensors.drop_last()) + tensors.last().take((tensors.last().len() as int) / 32 * 32)
    }
}

/// Whether all sizes are sizes.
pub open spec fn are_sizes(sizes: Seq<int>) -> bool {
    forall|i: int| 0 <= i < sizes.len() ==> #[trigger] sizes[i] >= 0
}

/// What a prefix table is: it starts at zero, grows strictly, ends at the number of chunks, and
/// has one entry more than there are segments.
pub open spec fn is_prefix_table(prefix: Seq<int>, n_segments: int, n_chunks: int) -> bool {
    &&& prefix.len() == n_segments + 1
    &&& prefix[0] == 0
    &&& prefix[n_segments] == n_chunks
    &&& forall|i: int, j: int| 0 <= i < j < prefix.len() ==> prefix[i] < prefix[j]
}

/// The prefix table of any model is one, for every list of per-tensor entries.
pub proof fn law_prefix_table<T>(sizes: Seq<int>, entries: Seq<T>)
    requires
        are_sizes(sizes),
        sizes.len() == entries.len(),
    ensures
        is_prefix_table(
            prefix_table(sizes),
            segments(sizes, entries).len() as int,
            total_chunks(sizes),
        ),
        segment_offsets(sizes).len() == segments(sizes, entries).len(),
        total_chunks(sizes) >= 0,
        segment_bytes(sizes) >= 0,
    decreases sizes.len(),
{
    if sizes.len() > 0 {
        let s = sizes.drop_last();
        law_prefix_table(s, entries.drop_last());
        assert(sizes.last() == sizes[sizes.len() - 1]);
        let p = prefix_table(sizes);
        assert forall|i: int, j: int| 0 <= i < j < p.len() implies p[i] < p[j] by {
            if sizes.last() / 32 != 0 {
                let q = prefix_table(s);
                if j == p.len() - 1 && i < q.len() - 1 {
                    assert(q[i] < q[q.len() - 1]);
                }
            }
        }
    }
}

/// A segment is one of the tensors that have a chunk, in every list with an entry per tensor.
pub proof fn law_segment_is_a_tensor<S, T>(sizes: Seq<int>, a: Seq<S>, b: Seq<T>, t: int) -> (i: int)
    requires
        sizes.len() == a.len() == b.len(),
        0 <= t < segments(sizes, a).len(),
    ensures
        0 <= i < sizes.len(),
        sizes[i] / 32 != 0,
        t < segments(sizes, b).len(),
        segments(sizes, a)[t] == a[i],
        segments(sizes, b)[t] == b[i],
    decreases sizes.len(),
{
    let s = sizes.drop_last();
    lemma_as_many_segments(s, a.drop_last(), b.drop_last());
    if sizes.last() / 32 == 0 || t < segments(s, a.drop_last()).len() {
        law_segment_is_a_tensor(s, a.drop_last(), b.drop_last(), t)
    } else {
        sizes.len() - 1
    }
}

/// There are as many segments in every list with an entry per tensor.
proof fn lemma_as_many_segments<S, T>(sizes: Seq<int>, a: Seq<S>, b: Seq<T>)
    requires
        sizes.len() == a.len() == b.len(),
    ensures
        segments(sizes, a).len() == segments(sizes, b).len(),
    decreases sizes.len(),
{
    if sizes.len() > 0 {
        lemma_as_many_segments(sizes.drop_last(), a.drop_last(), b.drop_last());
    }
}

/// Every chunk index falls into one segment, and into only one.
pub proof fn law_chunk_has_one_segment(sizes: Seq<int>, off: int) -> (t: int)
    requires
        are_sizes(sizes),
        0 <= off < total_chunks(sizes),
    ensures
        0 <= t < prefix_table(sizes).len() - 1,
        prefix_table(sizes)[t] <= off < prefix_table(sizes)[t + 1],
        forall|u: int|
            0 <= u < prefix_table(sizes).len() - 1 && prefix_table(sizes)[u] <= off
                && off < #[trigger] prefix_table(sizes)[u + 1] ==> u == t,
    decreases sizes.len(),
{
    let p = prefix_table(sizes);
    let s = sizes.drop_last();
    law_prefix_table(s, s);
    law_prefix_table(sizes, sizes);
    let t = if sizes.last() / 32 == 0 || off < total_chunks(s) {
        let t = law_chunk_has_one_segment(s, off);
        assert(p[t] == prefix_table(s)[t]);
        assert(p[t + 1] == prefix_table(s)[t + 1]);
        t
    } else {
        p.len() - 2
    };
    assert forall|u: int|
        0 <= u < p.len() - 1 && p[u] <= off && off < #[trigger] p[u + 1] implies u == t by {
        if u < t {
            assert(p[u + 1] <= p[t]) by {
                if u + 1 < t {
                    assert(p[u + 1] < p[t]);
                }
            }
        } else if u > t {
            assert(p[t + 1] <= p[u]) by {
                if t + 1 < u {
                    assert(p[t + 1] < p[u]);
                }
            }
        }
    }
    t
}

/// The packed layout is as long as its chunks, and the concatenated one as its segments.
pub proof fn law_layout_lengths(tensors: Seq<Seq<u8>>)
    ensures
        packed(tensors).len() == 32 * total_chunks(sizes_of(tensors)),
        concatenated(tensors).len() == segment_bytes(sizes_of(tensors)),
    decreases tensors.len(),
{
    if tensors.len() > 0 {
        law_layout_lengths(tensors.drop_last());
        assert(sizes_of(tensors).drop_last() =~= sizes_of(tensors.drop_last()));
    }
}

/// A chunk is the same 32 bytes in every layout: at `off * 32` in the packed one, and
/// `off - prefix[t]` chunks into segment `t` in the gathered and in the concatenated one, where
/// `t` is the segment that `off` falls into.
pub proof fn law_layouts_agree(tensors: Seq<Seq<u8>>, off: int, t: int)
    requires
        0 <= t < prefix_table(sizes_of(tensors)).len() - 1,
        prefix_table(sizes_of(tensors))[t] <= off < prefix_table(sizes_of(tensors))[t + 1],
    ensures
        ({
            let sizes = sizes_of(tensors);
            let at = 32 * (off - prefix_table(sizes)[t]);
            let segment = segments(sizes, tensors)[t];
            let start = segment_offsets(sizes)[t];
            &&& at + 32 <= segment.len()
            &&& 32 * off + 32 <= packed(tensors).len()
            &&& start + at + 32 <= concatenated(tensors).len()
            &&& packed(tensors).subrange(32 * off, 32 * off + 32) == segment.subrange(at, at + 32)
            &&& concatenated(tensors).subrange(start + at, start + at + 32) == segment.subrange(
                at,
                at + 32,
            )
        }),
    decreases tensors.len(),
{
    let sizes = sizes_of(tensors);
    law_prefix_table(sizes, tensors);
    law_layout_lengths(tensors);
    let p = prefix_table(sizes);
    assert(tensors.len() > 0);
    let before = tensors.drop_last();
    let last = tensors.last();
    let s = sizes_of(before);
    assert(sizes.drop_last() =~= s);
    law_prefix_table(s, before);
    law_layout_lengths(before);
    let q = prefix_table(s);
    let at = 32 * (off - p[t]);
    let usable = (last.len() as int) / 32 * 32;
    let start = segment_offsets(sizes)[t];
    if (last.len() as int) / 32 == 0 || t < q.len() - 1 {
        assert(p[t] == q[t] && p[t + 1] == q[t + 1]);
        law_layouts_agree(before, off, t);
        let segment = segments(sizes, tensors)[t];
        assert(segment == segments(s, before)[t]);
        assert(packed(tensors).subrange(32 * off, 32 * off + 32) =~= packed(before).subrange(
            32 * off,
            32 * off + 32,
        ));
        assert(start == segment_offsets(s)[t]);
        assert(segment_offsets(s)[t] >= 0) by {
            lemma_offsets_nonnegative(s, t);
        }
        assert(concatenated(tensors).subrange(start + at, start + at + 32) =~= concatenated(
            before,
        ).subrange(start + at, start + at + 32));
    } else {
        assert(t == q.len() - 1);
        assert(p[t] == total_chunks(s));
        assert(start == segment_bytes(s));
        assert(packed(tensors).subrange(32 * off, 32 * off + 32) =~= last.subrange(at, at + 32));
        assert(concatenated(tensors).subrange(start + at, start + at + 32) =~= last.subrange(
            at,
            at + 32,
        ));
    }
}

/// A segment starts at or behind the start of the buffer.
proof fn lemma_offsets_nonnegative(sizes: Seq<int>, t: int)
    requires
        are_sizes(sizes),
        0 <= t < segment_offsets(sizes).len(),
    ensures
        segment_offsets(sizes)[t] >= 0,
    decreases sizes.len(),
{
    let s = sizes.drop_last();
    law_prefix_table(s, s);
    if sizes.last() / 32 == 0 || t < segment_offsets(s).len() {
        lemma_offsets_nonnegative(s, t);
    }
}

/// The chunks of the first tensors are no more than the chunks of all.
pub(crate) proof fn lemma_total_chunks_grows(sizes: Seq<int>, i: int)
    requires
        are_sizes(sizes),
        0 <= i <= sizes.len(),
    ensures
        0 <= total_chunks(sizes.take(i)) <= total_chunks(sizes),
        0 <= segment_bytes(sizes.take(i)) <= segment_bytes(sizes),
    decreases sizes.len() - i,
{
    if i < sizes.len() {
        let next = sizes.take(i + 1);
        assert(next.drop_last() =~= sizes.take(i));
        assert(next.last() == sizes[i]);
        lemma_total_chunks_grows(sizes, i + 1);
        law_prefix_table(sizes.take(i), sizes.take(i));
    } else {
        assert(sizes.take(i) =~= sizes);
        law_prefix_table(sizes, sizes);
    }
}

/// Whole chunks take no more room than the segments that hold them.
pub proof fn law_chunks_fit_segments(sizes: Seq<int>)
    requires
        are_sizes(sizes),
    ensures
        32 * total_chunks(sizes) <= segment_bytes(sizes),
    decreases sizes.len(),
{
    if sizes.len() > 0 {
        law_chunks_fit_segments(sizes.drop_last());
        assert(sizes.last() == sizes[sizes.len() - 1]);
    }
}

/// Machine words as integers.
pub open spec fn ints(v: Seq<u64>) -> Seq<int> {
    v.map_values(|x: u64| x as int)
}

/// Lengths as integers.
pub open spec fn lengths(v: Seq<usize>) -> Seq<int> {
    v.map_values(|x: usize| x as int)
}

/// One tensor: its size in bytes, and where a device finds it.
pub struct TensorSpan {
    pub bytes: usize,
    pub base: u64,
}

/// The sizes of a list of tensors.
pub open spec fn span_sizes(spans: Seq<TensorSpan>) -> Seq<int> {
    spans.map_values(|s: TensorSpan| s.bytes as int)
}

/// The bases of a list of tensors.
pub open spec fn span_bases(spans: Seq<TensorSpan>) -> Seq<u64> {
    spans.map_values(|s: TensorSpan| s.base)
}

/// The segments of a model: where each is, and the prefix table over their chunks.
pub struct SegmentTable {
    pub bases: Vec<u64>,
    pub prefix: Vec<u64>,
}

impl SegmentTable {
    /// Whether the table is that of the given tensors.
    pub open spec fn describes(&self, sizes: Seq<int>, bases: Seq<u64>) -> bool {
        &&& self.bases@ == segments(sizes, bases)
        &&& ints(self.prefix@) == prefix_table(sizes)
    }

    /// Adds a tensor behind the others, unless it has no chunk.
    fn add(&mut self, bytes: usize, base: u64)
        requires
            old(self).prefix@.len() > 0,
            old(self).prefix@.last() + bytes as int / 32 <= u64::MAX,
        ensures
            bytes as int / 32 == 0 ==> *final(self) == *old(self),
            bytes as int / 32 != 0 ==> {
                &&& final(self).bases@ == old(self).bases@.push(base)
                &&& final(self).prefix@ == old(self).prefix@.push(
                    (old(self).prefix@.last() + bytes as int / 32) as u64,
                )
            },
    {
        let chunks: u64 = (bytes / CHUNK_BYTES) as u64;
        if chunks == 0 {
            return ;
        }
        let last: u64 = self.prefix[self.prefix.len() - 1];
        self.bases.push(base);
        self.prefix.push(last + chunks);
    }

    /// The number of chunks in the table.
    pub fn n_chunks(&self) -> (n: u64)
        requires
            self.prefix@.len() > 0,
        ensures
            n == self.prefix@.last(),
    {
        self.prefix[self.prefix.len() - 1]
    }
}

/// Builds the table of tensors that stay where they are.
pub fn gather(spans: &Vec<TensorSpan>) -> (table: SegmentTable)
    requires
        total_chunks(span_sizes(spans@)) <= u64::MAX,
    ensures
        table.describes(span_sizes(spans@), span_bases(spans@)),
        table.prefix@.len() > 0,
        table.prefix@.last() == total_chunks(span_sizes(spans@)),
{
    let ghost sizes = span_sizes(spans@);
    let ghost bases = span_bases(spans@);
    let mut table: SegmentTable = SegmentTable { bases: Vec::new(), prefix: vec![0u64] };
    proof {
        assert(sizes.take(0) =~= Seq::<int>::empty());
        assert(bases.take(0) =~= Seq::<u64>::empty());
        assert(ints(table.prefix@) =~= seq![0int]);
    }
    let mut i: usize = 0;
    while i < spans.len()
        invariant
            i <= spans@.len(),
            sizes == span_sizes(spans@),
            bases == span_bases(spans@),
            total_chunks(sizes) <= u64::MAX,
            table.describes(sizes.take(i as int), bases.take(i as int)),
            table.prefix@.len() > 0,
            table.prefix@.last() == total_chunks(sizes.take(i as int)),
        decreases spans@.len() - i,
    {
        let ghost before = table;
        proof {
            let s = sizes.take(i + 1);
            let b = bases.take(i + 1);
            assert(s.drop_last() =~= sizes.take(i as int));
            assert(b.drop_last() =~= bases.take(i as int));
            assert(s.last() == spans@[i as int].bytes);
            assert(b.last() == spans@[i as int].base);
            lemma_total_chunks_grows(sizes, i + 1);
        }
        table.add(spans[i].bytes, spans[i].base);
        proof {
            let c = spans@[i as int].bytes as int / 32;
            if c != 0 {
                assert(ints(table.prefix@) =~= ints(before.prefix@).push(
                    total_chunks(sizes.take(i + 1)),
                ));
            }
        }
        i = i + 1;
    }
    proof {
        assert(sizes.take(i as int) =~= sizes);
        assert(bases.take(i as int) =~= bases);
    }
    table
}

/// How tensors go into one buffer: the table over it, its length, and the place of each tensor.
pub struct Concatenation {
    pub table: SegmentTable,
    pub total_bytes: u64,
    pub copy_to: Vec<Option<u64>>,
}

/// Where tensor `i` goes in the concatenated layout, if it goes there at all.
pub open spec fn copy_target(sizes: Seq<int>, i: int) -> Option<int> {
    if sizes[i] / 32 == 0 {
        None
    } else {
        Some(segment_bytes(sizes.take(i)))
    }
}

/// Whether a list of places is where the tensors go.
pub open spec fn are_copy_targets(sizes: Seq<int>, copy_to: Seq<Option<u64>>) -> bool {
    &&& copy_to.len() == sizes.len()
    &&& forall|i: int|
        0 <= i < sizes.len() ==> match #[trigger] copy_to[i] {
            Some(at) => copy_target(sizes, i) == Some(at as int),
            None => copy_target(sizes, i) is None,
        }
}

/// Plans the concatenated layout of tensors of the given sizes.
pub fn concatenate(sizes: &Vec<usize>) -> (plan: Concatenation)
    requires
        segment_bytes(lengths(sizes@)) <= u64::MAX,
    ensures
        ints(plan.table.bases@) == segment_offsets(lengths(sizes@)),
        ints(plan.table.prefix@) == prefix_table(lengths(sizes@)),
        plan.table.prefix@.len() > 0,
        plan.table.prefix@.last() == total_chunks(lengths(sizes@)),
        plan.total_bytes == segment_bytes(lengths(sizes@)),
        are_copy_targets(lengths(sizes@), plan.copy_to@),
{
    let ghost s = lengths(sizes@);
    let mut table: SegmentTable = SegmentTable { bases: Vec::new(), prefix: vec![0u64] };
    let mut total_bytes: u64 = 0;
    let mut copy_to: Vec<Option<u64>> = Vec::new();
    proof {
        assert(s.take(0) =~= Seq::<int>::empty());
        assert(ints(table.prefix@) =~= seq![0int]);
        assert(ints(table.bases@) =~= Seq::<int>::empty());
    }
    let mut i: usize = 0;
    while i < sizes.len()
        invariant
            i <= sizes@.len(),
            s == lengths(sizes@),
            segment_bytes(s) <= u64::MAX,
            ints(table.bases@) == segment_offsets(s.take(i as int)),
            ints(table.prefix@) == prefix_table(s.take(i as int)),
            table.prefix@.len() > 0,
            table.prefix@.last() == total_chunks(s.take(i as int)),
            total_bytes == segment_bytes(s.take(i as int)),
            copy_to@.len() == i,
            forall|j: int|
                0 <= j < i ==> match #[trigger] copy_to@[j] {
                    Some(at) => copy_target(s, j) == Some(at as int),
                    None => copy_target(s, j) is None,
                },
        decreases sizes@.len() - i,
    {
        let n: usize = sizes[i];
        let ghost before = table;
        proof {
            let t = s.take(i + 1);
            assert(t.drop_last() =~= s.take(i as int));
            assert(t.last() == n);
            lemma_total_chunks_grows(s, i + 1);
            law_chunks_fit_segments(s);
        }
        table.add(n, total_bytes);
        proof {
            if n as int / 32 != 0 {
                assert(ints(table.prefix@) =~= ints(before.prefix@).push(
                    total_chunks(s.take(i + 1)),
                ));
                assert(ints(table.bases@) =~= ints(before.bases@).push(total_bytes as int));
            }
        }
        if n / CHUNK_BYTES == 0 {
            copy_to.push(None);
        } else {
            copy_to.push(Some(total_bytes));
            total_bytes = total_bytes + n as u64;
        }
        i = i + 1;
    }
    proof {
        assert(s.take(i as int) =~= s);
    }
    Concatenation { table, total_bytes, copy_to }
}

/// The copies fill the buffer as the table reads it: the places of the tensors that are copied
/// are the starts of the segments, in order.
pub proof fn law_copies_match_table(sizes: Seq<int>, copy_to: Seq<Option<u64>>)
    requires
        are_sizes(sizes),
        are_copy_targets(sizes, copy_to),
    ensures
        segments(sizes, copy_to).len() == segment_offsets(sizes).len(),
        forall|t: int|
            0 <= t < segment_offsets(sizes).len() ==> {
                &&& #[trigger] segments(sizes, copy_to)[t] is Some
                &&& segments(sizes, copy_to)[t]->0 == segment_offsets(sizes)[t]
            },
    decreases sizes.len(),
{
    if sizes.len() > 0 {
        let s = sizes.drop_last();
        let c = copy_to.drop_last();
        assert forall|i: int| 0 <= i < s.len() implies match #[trigger] c[i] {
            Some(at) => copy_target(s, i) == Some(at as int),
            None => copy_target(s, i) is None,
        } by {
            assert(c[i] == copy_to[i]);
            assert(s.take(i) =~= sizes.take(i));
        }
        law_copies_match_table(s, c);
        let last = sizes.len() - 1;
        assert(copy_to.last() == copy_to[last]);
        assert(sizes.take(last) =~= s);
    }
}

/// Whether a buffer holds a tensor wherever the tensor was to go.
pub open spec fn holds_copies(
    buffer: Seq<u8>,
    tensors: Seq<Seq<u8>>,
    copy_to: Seq<Option<u64>>,
) -> bool {
    forall|i: int|
        0 <= i < tensors.len() ==> match #[trigger] copy_to[i] {
            Some(at) => buffer.subrange(at as int, at + tensors[i].len()) == tensors[i],
            None => true,
        }
}

/// When every tensor was copied to its place, the buffer is the concatenated layout: no byte of
/// it is left unwritten, and no copy overwrites another.
pub proof fn law_copies_fill_buffer(
    buffer: Seq<u8>,
    tensors: Seq<Seq<u8>>,
    copy_to: Seq<Option<u64>>,
)
    requires
        buffer.len() == segment_bytes(sizes_of(tensors)),
        are_copy_targets(sizes_of(tensors), copy_to),
        holds_copies(buffer, tensors, copy_to),
    ensures
        buffer == concatenated(tensors),
    decreases tensors.len(),
{
    let sizes = sizes_of(tensors);
    if tensors.len() > 0 {
        let last = tensors.len() - 1;
        let t = tensors.drop_last();
        let c = copy_to.drop_last();
        let s = sizes_of(t);
        assert(sizes.drop_last() =~= s);
        assert(sizes.take(last) =~= s);
        assert(copy_to[last] == copy_to.last());
        law_prefix_table(s, s);
        let front = buffer.take(segment_bytes(s));
        assert forall|i: int| 0 <= i < s.len() implies match #[trigger] c[i] {
            Some(at) => {
                &&& copy_target(s, i) == Some(at as int)
                &&& front.subrange(at as int, at + t[i].len()) == t[i]
            },
            None => copy_target(s, i) is None,
        } by {
            assert(c[i] == copy_to[i]);
            assert(s.take(i) =~= sizes.take(i));
            if let Some(at) = copy_to[i] {
                assert(s.take(i + 1).drop_last() =~= s.take(i));
                lemma_total_chunks_grows(s, i + 1);
                assert(at + t[i].len() <= segment_bytes(s));
                assert(front.subrange(at as int, at + t[i].len()) =~= buffer.subrange(
                    at as int,
                    at + tensors[i].len(),
                ));
            }
        }
        law_copies_fill_buffer(front, t, c);
        assert(buffer =~= concatenated(tensors));
    }
}

/// The chunks of a model are those of its parts together, and a tensor has as many chunks as 32
/// bytes go into it whole.
pub proof fn law_chunks_add_up(a: Seq<int>, b: Seq<int>, size: int)
    ensures
        total_chunks(a + b) == total_chunks(a) + total_chunks(b),
        32 * total_chunks(seq![size]) <= size < 32 * total_chunks(seq![size]) + 32,
    decreases b.len(),
{
    assert(seq![size].drop_last() =~= Seq::empty());
    assert(total_chunks(Seq::empty()) == 0);
    if b.len() == 0 {
        assert(a + b =~= a);
    } else {
        law_chunks_add_up(a, b.drop_last(), size);
        assert((a + b).drop_last() =~= a + b.drop_last());
    }
}

/// The segments of a model are those of its parts one after the other, and a tensor is a segment
/// exactly if it has 32 bytes.
pub proof fn law_segments_in_order<T>(
    a: Seq<int>,
    b: Seq<int>,
    x: Seq<T>,
    y: Seq<T>,
    size: int,
    entry: T,
)
    requires
        a.len() == x.len(),
        b.len() == y.len(),
        size >= 0,
    ensures
        segments(a + b, x + y) == segments(a, x) + segments(b, y),
        size < 32 ==> segments(seq![size], seq![entry]).len() == 0,
        size >= 32 ==> segments(seq![size], seq![entry]) == seq![entry],
    decreases b.len(),
{
    assert(seq![size].drop_last() =~= Seq::empty());
    assert(segments(Seq::<int>::empty(), seq![entry].drop_last()) =~= Seq::empty());
    assert(Seq::empty().push(entry) =~= seq![entry]);
    if b.len() == 0 {
        assert(a + b =~= a && x + y =~= x);
        assert(segments(a, x) + segments(b, y) =~= segments(a, x));
    } else {
        law_segments_in_order(a, b.drop_last(), x, y.drop_last(), size, entry);
        assert((a + b).drop_last() =~= a + b.drop_last());
        assert((x + y).drop_last() =~= x + y.drop_last());
        assert((x + y).last() == y.last() && (a + b).last() == b.last());
        assert(segments(a + b, x + y) =~= segments(a, x) + segments(b, y));
    }
}

/// What is packed, and what is concatenated, of a model is that of its parts one after the other.
/// Of one tensor, what is packed is as many of its first bytes as are whole chunks, and what is
/// concatenated is all of it if it has a chunk, and nothing if not.
pub proof fn law_layouts_in_order(a: Seq<Seq<u8>>, b: Seq<Seq<u8>>, tensor: Seq<u8>)
    ensures
        packed(a + b) == packed(a) + packed(b),
        concatenated(a + b) == concatenated(a) + concatenated(b),
        packed(seq![tensor]).len() % 32 == 0,
        packed(seq![tensor]).len() <= tensor.len() < packed(seq![tensor]).len() + 32,
        packed(seq![tensor]) == tensor.take(packed(seq![tensor]).len() as int),
        tensor.len() >= 32 ==> concatenated(seq![tensor]) == tensor,
        tensor.len() < 32 ==> concatenated(seq![tensor]).len() == 0,
    decreases b.len(),
{
    assert(seq![tensor].drop_last() =~= Seq::empty());
    assert(packed(Seq::empty()) =~= Seq::<u8>::empty());
    assert(concatenated(Seq::empty()) =~= Seq::<u8>::empty());
    let n = (tensor.len() as int) / 32 * 32;
    assert(packed(seq![tensor]) =~= tensor.take(n));
    assert(Seq::<u8>::empty() + tensor =~= tensor);
    if b.len() == 0 {
        assert(a + b =~= a);
        assert(packed(a) + packed(b) =~= packed(a));
        assert(concatenated(a) + concatenated(b) =~= concatenated(a));
    } else {
        law_layouts_in_order(a, b.drop_last(), tensor);
        assert((a + b).drop_last() =~= a + b.drop_last());
        assert((a + b).last() == b.last());
        assert(packed(a + b) =~= packed(a) + packed(b));
        assert(concatenated(a + b) =~= concatenated(a) + concatenated(b));
    }
}

/// Each segment has its own chunks in the prefix table, as many as 32 bytes go into it whole, and
/// its own bytes in the concatenated layout, with no gap before the next one.
pub proof fn law_table_steps(sizes: Seq<int>, t: int)
    requires
        are_sizes(sizes),
        0 <= t < segments(sizes, sizes).len(),
    ensures
        ({
            let p = prefix_table(sizes);
            let at = segment_offsets(sizes);
            let size = segments(sizes, sizes)[t];
            &&& 32 * (p[t + 1] - p[t]) <= size < 32 * (p[t + 1] - p[t]) + 32
            &&& t == 0 ==> at[t] == 0
            &&& at[t] + size == if t + 1 < at.len() {
                at[t + 1]
            } else {
                segment_bytes(sizes)
            }
        }),
    decreases sizes.len(),
{
    let s = sizes.drop_last();
    law_prefix_table(s, s);
    law_prefix_table(sizes, sizes);
    let n = segments(s, s).len();
    if sizes.last() / 32 == 0 || t < n {
        law_table_steps(s, t);
    } else {
        assert(prefix_table(s)[n as int] == total_chunks(s));
        if n == 0 {
            lemma_no_segments(s);
        }
    }
}

/// Without segments there are no bytes.
proof fn lemma_no_segments(sizes: Seq<int>)
    requires
        segments(sizes, sizes).len() == 0,
    ensures
        segment_bytes(sizes) == 0,
    decreases sizes.len(),
{
    if sizes.len() > 0 {
        lemma_no_segments(sizes.drop_last());
    }
}

/// A tensor is copied exactly if it has 32 bytes, and the first one that is goes to the front.
pub proof fn law_copied_tensors(sizes: Seq<int>, copy_to: Seq<Option<u64>>, i: int)
    requires
        are_sizes(sizes),
        are_copy_targets(sizes, copy_to),
        0 <= i < sizes.len(),
    ensures
        copy_to[i] is Some <==> sizes[i] >= 32,
        copy_to[i] is Some && (forall|j: int| 0 <= j < i ==> #[trigger] sizes[j] < 32)
            ==> copy_to[i]->0 == 0,
{
    let before = sizes.take(i);
    assert(copy_to[i] == copy_to[i]);
    if forall|j: int| 0 <= j < i ==> #[trigger] sizes[j] < 32 {
        assert forall|j: int| 0 <= j < before.len() implies 0 <= #[trigger] before[j] < 32 by {
            assert(before[j] == sizes[j]);
        }
        lemma_small_tensors_have_no_segment(before);
        lemma_no_segments(before);
    }
}

/// Tensors below 32 bytes have no segment.
proof fn lemma_small_tensors_have_no_segment(sizes: Seq<int>)
    requires
        forall|i: int| 0 <= i < sizes.len() ==> 0 <= #[trigger] sizes[i] < 32,
    ensures
        segments(sizes, sizes).len() == 0,
    decreases sizes.len(),
{
    if sizes.len() > 0 {
        let s = sizes.drop_last();
        assert forall|i: int| 0 <= i < s.len() implies 0 <= #[trigger] s[i] < 32 by {
            assert(s[i] == sizes[i]);
        }
        assert(sizes.last() == sizes[sizes.len() - 1]);
        lemma_small_tensors_have_no_segment(s);
    }
}

} // verus!
