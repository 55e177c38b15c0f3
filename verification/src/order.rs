//! The canonical tensor order: by name, as byte strings compare.
//!
//! Every backend gathers a model's weights in this order, so that a chunk has the same global
//! index everywhere.
use vstd::prelude::*;
use vstd::relations::*;
use vstd::seq_lib::*;
use vstd::utf8::*;

#[allow(unused_imports)]
use crate::text::views;

verus! {

/// Lexicographic order of byte strings: the first byte that differs decides, and a prefix comes
/// before what it is a prefix of.
pub open spec fn bytes_le(a: Seq<u8>, b: Seq<u8>) -> bool
    decreases a.len(),
{
    if a.len() == 0 {
        true
    } else if b.len() == 0 {
        false
    } else if a[0] != b[0] {
        a[0] < b[0]
    } else {
        bytes_le(a.skip(1), b.skip(1))
    }
}

/// The order of names: that of their UTF-8 bytes.
pub open spec fn name_le(a: Seq<char>, b: Seq<char>) -> bool {
    bytes_le(encode_utf8(a), encode_utf8(b))
}

/// Whether a list of names is in the canonical order.
pub open spec fn is_canonical(v: Seq<Seq<char>>) -> bool {
    forall|i: int, j: int| 0 <= i < j < v.len() ==> #[trigger] name_le(v[i], v[j])
}

proof fn lemma_bytes_le_reflexive(a: Seq<u8>)
    ensures
        bytes_le(a, a),
    decreases a.len(),
{
    if a.len() > 0 {
        lemma_bytes_le_reflexive(a.skip(1));
    }
}

proof fn lemma_bytes_le_total(a: Seq<u8>, b: Seq<u8>)
    ensures
        bytes_le(a, b) || bytes_le(b, a),
    decreases a.len(),
{
    if a.len() > 0 && b.len() > 0 {
        lemma_bytes_le_total(a.skip(1), b.skip(1));
    }
}

proof fn lemma_bytes_le_transitive(a: Seq<u8>, b: Seq<u8>, c: Seq<u8>)
    requires
        bytes_le(a, b),
        bytes_le(b, c),
    ensures
        bytes_le(a, c),
    decreases a.len(),
{
    if a.len() > 0 && b.len() > 0 && c.len() > 0 && a[0] == b[0] && b[0] == c[0] {
        lemma_bytes_le_transitive(a.skip(1), b.skip(1), c.skip(1));
    }
}

proof fn lemma_bytes_le_antisymmetric(a: Seq<u8>, b: Seq<u8>)
    requires
        bytes_le(a, b),
        bytes_le(b, a),
    ensures
        a == b,
    decreases a.len(),
{
    if a.len() > 0 && b.len() > 0 {
        lemma_bytes_le_antisymmetric(a.skip(1), b.skip(1));
        assert(a =~= seq![a[0]] + a.skip(1));
        assert(b =~= seq![b[0]] + b.skip(1));
    } else {
        assert(a =~= b);
    }
}

/// The canonical order is a total order on names.
pub proof fn law_name_order_is_total()
    ensures
        total_ordering(|a: Seq<char>, b: Seq<char>| name_le(a, b)),
{
    let r = |a: Seq<char>, b: Seq<char>| name_le(a, b);
    assert forall|x: Seq<char>| #[trigger] r(x, x) by {
        lemma_bytes_le_reflexive(encode_utf8(x));
    }
    assert forall|x: Seq<char>, y: Seq<char>| #[trigger] r(x, y) && #[trigger] r(y, x) implies x
        == y by {
        lemma_bytes_le_antisymmetric(encode_utf8(x), encode_utf8(y));
        encode_utf8_decode_utf8(x);
        encode_utf8_decode_utf8(y);
    }
    assert forall|x: Seq<char>, y: Seq<char>, z: Seq<char>| #[trigger]
        r(x, y) && #[trigger] r(y, z) implies r(x, z) by {
        lemma_bytes_le_transitive(encode_utf8(x), encode_utf8(y), encode_utf8(z));
    }
    assert forall|x: Seq<char>, y: Seq<char>| #[trigger] r(x, y) || #[trigger] r(y, x) by {
        lemma_bytes_le_total(encode_utf8(x), encode_utf8(y));
    }
}

/// The canonical order of a model's tensors depends only on which tensors there are: two
/// canonical lists of the same names are the same list, in whatever order the file gave them.
pub proof fn law_canonical_order_is_unique(a: Seq<Seq<char>>, b: Seq<Seq<char>>)
    requires
        is_canonical(a),
        is_canonical(b),
        a.to_multiset() == b.to_multiset(),
    ensures
        a == b,
{
    law_name_order_is_total();
    lemma_sorted_unique(a, b, |x: Seq<char>, y: Seq<char>| name_le(x, y));
}

/// Compares two byte strings.
fn compare_bytes(a: &[u8], b: &[u8]) -> (r: bool)
    ensures
        r == bytes_le(a@, b@),
{
    let mut i: usize = 0;
    assert(a@.skip(0) =~= a@);
    assert(b@.skip(0) =~= b@);
    while i < a.len()
        invariant
            i <= a@.len(),
            i <= b@.len(),
            bytes_le(a@, b@) == bytes_le(a@.skip(i as int), b@.skip(i as int)),
        decreases a@.len() - i,
    {
        if i >= b.len() {
            return false;
        }
        if a[i] != b[i] {
            return a[i] < b[i];
        }
        assert(a@.skip(i as int).skip(1) =~= a@.skip(i + 1));
        assert(b@.skip(i as int).skip(1) =~= b@.skip(i + 1));
        i = i + 1;
    }
    true
}

/// Whether a name is at or before another in the canonical order.
pub fn name_at_most(a: &str, b: &str) -> (r: bool)
    ensures
        r == name_le(a@, b@),
{
    compare_bytes(a.as_bytes(), b.as_bytes())
}

/// Puts a name into a canonical list, behind the names that are at or before it.
fn insert_name(sorted: &mut Vec<String>, name: String)
    requires
        is_canonical(views(old(sorted)@)),
    ensures
        is_canonical(views(final(sorted)@)),
        views(final(sorted)@).to_multiset() == views(old(sorted)@).to_multiset().insert(name@),
{
    let mut at: usize = sorted.len();
    proof {
        law_name_order_is_total();
    }
    while at > 0 && !name_at_most(sorted[at - 1].as_str(), name.as_str())
        invariant
            at <= sorted@.len(),
            sorted@ == old(sorted)@,
            is_canonical(views(sorted@)),
            total_ordering(|a: Seq<char>, b: Seq<char>| name_le(a, b)),
            forall|i: int| at <= i < sorted@.len() ==> name_le(name@, #[trigger] sorted@[i]@),
        decreases at,
    {
        proof {
            let r = |a: Seq<char>, b: Seq<char>| name_le(a, b);
            let x = sorted@[at - 1]@;
            assert(r(x, name@) || r(name@, x));
        }
        at = at - 1;
    }
    let ghost before = views(sorted@);
    let ghost added = name@;
    proof {
        assert forall|i: int| 0 <= i < at implies name_le(#[trigger] before[i], added) by {
            if i < at - 1 {
                let r = |a: Seq<char>, b: Seq<char>| name_le(a, b);
                assert(name_le(before[i], before[at - 1]));
                assert(r(before[i], before[at - 1]) && r(before[at - 1], added));
                assert(r(before[i], added));
            }
        }
        assert forall|i: int| at <= i < before.len() implies name_le(added, #[trigger] before[i]) by {
            assert(before[i] == sorted@[i]@);
        }
    }
    sorted.insert(at, name);
    proof {
        assert(views(sorted@) =~= before.insert(at as int, added));
        to_multiset_insert(before, at as int, added);
        let after = views(sorted@);
        assert forall|i: int, j: int| 0 <= i < j < after.len() implies #[trigger] name_le(
            after[i],
            after[j],
        ) by {
            if i < at {
                assert(after[i] == before[i]);
            } else if i > at {
                assert(after[i] == before[i - 1]);
            }
            if j < at {
                assert(after[j] == before[j]);
            } else if j > at {
                assert(after[j] == before[j - 1]);
            }
        }
    }
}

/// Puts a model's tensor names into the canonical order.
pub fn canonical_order(tensor_names: Vec<String>) -> (sorted: Vec<String>)
    ensures
        is_canonical(views(sorted@)),
        views(sorted@).to_multiset() == views(tensor_names@).to_multiset(),
{
    let mut rest: Vec<String> = tensor_names;
    let mut sorted: Vec<String> = Vec::new();
    proof {
        assert(views(sorted@) =~= Seq::<Seq<char>>::empty());
        lemma_multiset_commutative(views(sorted@), views(rest@));
        assert(views(sorted@) + views(rest@) =~= views(rest@));
    }
    while rest.len() > 0
        invariant
            is_canonical(views(sorted@)),
            views(sorted@).to_multiset().add(views(rest@).to_multiset()) == views(
                tensor_names@,
            ).to_multiset(),
        decreases rest@.len(),
    {
        let ghost before = rest@;
        match rest.pop() {
            Some(name) => {
                proof {
                    assert(views(before) =~= views(rest@).push(name@));
                    views(rest@).to_multiset_ensures();
                    assert(views(sorted@).to_multiset().insert(name@).add(
                        views(rest@).to_multiset(),
                    ) =~= views(sorted@).to_multiset().add(
                        views(rest@).to_multiset().insert(name@),
                    ));
                }
                insert_name(&mut sorted, name);
            },
            None => {},
        }
    }
    proof {
        assert(views(rest@) =~= Seq::<Seq<char>>::empty());
        views(rest@).to_multiset_ensures();
        assert(views(rest@).to_multiset() =~= vstd::multiset::Multiset::empty());
        assert(views(sorted@).to_multiset().add(views(rest@).to_multiset()) =~= views(
            sorted@,
        ).to_multiset());
    }
    sorted
}

/// The first byte in which two names differ decides, as a number: the name with the smaller byte
/// comes first, and the other does not.
pub proof fn law_first_difference_decides(a: Seq<char>, b: Seq<char>, i: int)
    requires
        0 <= i < encode_utf8(a).len(),
        i < encode_utf8(b).len(),
        forall|j: int| 0 <= j < i ==> encode_utf8(a)[j] == #[trigger] encode_utf8(b)[j],
        (encode_utf8(a)[i] as int) < (encode_utf8(b)[i] as int),
    ensures
        name_le(a, b),
        !name_le(b, a),
{
    lemma_first_difference(encode_utf8(a), encode_utf8(b), i);
}

/// A name comes before every longer one that begins with it.
pub proof fn law_prefix_comes_first(a: Seq<char>, b: Seq<char>)
    requires
        encode_utf8(a).len() < encode_utf8(b).len(),
        forall|j: int|
            0 <= j < encode_utf8(a).len() ==> encode_utf8(a)[j] == #[trigger] encode_utf8(b)[j],
    ensures
        name_le(a, b),
        !name_le(b, a),
{
    lemma_prefix(encode_utf8(a), encode_utf8(b));
}

/// In a canonical list, of two names that differ first at some byte, the one with the smaller byte
/// there is the earlier one.
pub proof fn law_canonical_by_bytes(v: Seq<Seq<char>>, x: int, y: int, i: int)
    requires
        is_canonical(v),
        0 <= x < v.len(),
        0 <= y < v.len(),
        0 <= i < encode_utf8(v[x]).len(),
        i < encode_utf8(v[y]).len(),
        forall|j: int| 0 <= j < i ==> encode_utf8(v[x])[j] == #[trigger] encode_utf8(v[y])[j],
        (encode_utf8(v[x])[i] as int) < (encode_utf8(v[y])[i] as int),
    ensures
        x < y,
{
    law_first_difference_decides(v[x], v[y], i);
    if y < x {
        assert(name_le(v[y], v[x]));
    }
}

proof fn lemma_first_difference(a: Seq<u8>, b: Seq<u8>, i: int)
    requires
        0 <= i < a.len(),
        i < b.len(),
        forall|j: int| 0 <= j < i ==> a[j] == #[trigger] b[j],
        (a[i] as int) < (b[i] as int),
    ensures
        bytes_le(a, b),
        !bytes_le(b, a),
    decreases i,
{
    if i > 0 {
        assert(a[0] == b[0]);
        assert forall|j: int| 0 <= j < i - 1 implies a.skip(1)[j] == #[trigger] b.skip(1)[j] by {
            assert(a[j + 1] == b[j + 1]);
        }
        lemma_first_difference(a.skip(1), b.skip(1), i - 1);
    }
}

proof fn lemma_prefix(a: Seq<u8>, b: Seq<u8>)
    requires
        a.len() < b.len(),
        forall|j: int| 0 <= j < a.len() ==> a[j] == #[trigger] b[j],
    ensures
        bytes_le(a, b),
        !bytes_le(b, a),
    decreases a.len(),
{
    if a.len() > 0 {
        assert(a[0] == b[0]);
        assert forall|j: int| 0 <= j < a.skip(1).len() implies a.skip(1)[j] == #[trigger] b.skip(
            1,
        )[j] by {
            assert(a[j + 1] == b[j + 1]);
        }
        lemma_prefix(a.skip(1), b.skip(1));
    }
}

} // verus!
