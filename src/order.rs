use vstd::prelude::*;
use vstd::relations::{sorted_by, total_ordering};

verus! {

/// Byte-wise lexicographic order: `a` comes no later than `b`. A proper prefix comes first.
pub open spec fn bytes_le(a: Seq<u8>, b: Seq<u8>) -> bool
    decreases a.len(),
{
    if a.len() == 0 {
        true
    } else if b.len() == 0 {
        false
    } else if a[0] != b[0] {
        a[0] < b[0]
    } else {
        bytes_le(a.drop_first(), b.drop_first())
    }
}

/// The order on program names, as a relation.
pub open spec fn name_order() -> spec_fn(Seq<u8>, Seq<u8>) -> bool {
    |a: Seq<u8>, b: Seq<u8>| bytes_le(a, b)
}

pub proof fn lemma_le_reflexive(a: Seq<u8>)
    ensures
        bytes_le(a, a),
    decreases a.len(),
{
    if a.len() > 0 {
        lemma_le_reflexive(a.drop_first());
    }
}

pub proof fn lemma_le_antisymmetric(a: Seq<u8>, b: Seq<u8>)
    requires
        bytes_le(a, b),
        bytes_le(b, a),
    ensures
        a == b,
    decreases a.len(),
{
    if a.len() > 0 && b.len() > 0 {
        lemma_le_antisymmetric(a.drop_first(), b.drop_first());
        assert(a =~= seq![a[0]] + a.drop_first());
        assert(b =~= seq![b[0]] + b.drop_first());
    } else {
        assert(a =~= b);
    }
}

pub proof fn lemma_le_transitive(a: Seq<u8>, b: Seq<u8>, c: Seq<u8>)
    requires
        bytes_le(a, b),
        bytes_le(b, c),
    ensures
        bytes_le(a, c),
    decreases a.len(),
{
    if a.len() > 0 && b.len() > 0 && c.len() > 0 && a[0] == b[0] && b[0] == c[0] {
        lemma_le_transitive(a.drop_first(), b.drop_first(), c.drop_first());
    }
}

pub proof fn lemma_le_total(a: Seq<u8>, b: Seq<u8>)
    ensures
        bytes_le(a, b) || bytes_le(b, a),
    decreases a.len(),
{
    if a.len() > 0 && b.len() > 0 && a[0] == b[0] {
        lemma_le_total(a.drop_first(), b.drop_first());
    }
}

/// Byte-wise lexicographic order is a total order.
pub proof fn lemma_name_order_total()
    ensures
        total_ordering(name_order()),
{
    let r = name_order();
    assert forall|a: Seq<u8>| #[trigger] r(a, a) by {
        lemma_le_reflexive(a);
    }
    assert forall|a: Seq<u8>, b: Seq<u8>| #[trigger] r(a, b) && #[trigger] r(b, a) implies a == b by {
        lemma_le_antisymmetric(a, b);
    }
    assert forall|a: Seq<u8>, b: Seq<u8>, c: Seq<u8>| #[trigger] r(a, b) && #[trigger] r(b, c) implies r(
        a,
        c,
    ) by {
        lemma_le_transitive(a, b, c);
    }
    assert forall|a: Seq<u8>, b: Seq<u8>| #[trigger] r(a, b) || #[trigger] r(b, a) by {
        lemma_le_total(a, b);
    }
}

/// Two names that agree on their first `i` bytes compare as what follows those bytes does.
proof fn lemma_le_skip(a: Seq<u8>, b: Seq<u8>, i: int)
    requires
        0 <= i <= a.len(),
        i <= b.len(),
        forall|j: int| 0 <= j < i ==> a[j] == b[j],
    ensures
        bytes_le(a, b) == bytes_le(a.skip(i), b.skip(i)),
    decreases i,
{
    if i == 0 {
        assert(a.skip(0) =~= a);
        assert(b.skip(0) =~= b);
    } else {
        lemma_le_skip(a.drop_first(), b.drop_first(), i - 1);
        assert(a.drop_first().skip(i - 1) =~= a.skip(i));
        assert(b.drop_first().skip(i - 1) =~= b.skip(i));
    }
}

/// Whether `a` comes no later than `b` in byte-wise lexicographic order.
pub fn name_le(a: &Vec<u8>, b: &Vec<u8>) -> (r: bool)
    ensures
        r == bytes_le(a@, b@),
{
    let mut i: usize = 0;
    while i < a.len() && i < b.len() && a[i] == b[i]
        invariant
            i <= a@.len(),
            i <= b@.len(),
            forall|j: int| 0 <= j < i ==> a@[j] == b@[j],
        decreases a@.len() - i,
    {
        i = i + 1;
    }
    proof {
        lemma_le_skip(a@, b@, i as int);
    }
    if i == a.len() {
        true
    } else if i == b.len() {
        false
    } else {
        a[i] < b[i]
    }
}

/// Inserts `x` into the sorted list `v` so that it stays sorted.
pub fn insert_sorted(v: &mut Vec<Vec<u8>>, x: Vec<u8>)
    requires
        sorted_by(views(old(v)@), name_order()),
    ensures
        sorted_by(views(final(v)@), name_order()),
        views(final(v)@).to_multiset() == views(old(v)@).to_multiset().insert(x@),
{
    let ghost xs = x@;
    let ghost s = views(v@);
    let mut pos: usize = 0;
    while pos < v.len()
        invariant
            pos <= v@.len(),
            v@ == old(v)@,
            s == views(v@),
            xs == x@,
            forall|j: int| 0 <= j < pos ==> bytes_le(#[trigger] s[j], xs),
        ensures
            pos < v@.len() ==> !bytes_le(s[pos as int], xs),
        decreases v@.len() - pos,
    {
        assert(s[pos as int] == v@[pos as int]@);
        if !name_le(&v[pos], &x) {
            break;
        }
        pos = pos + 1;
    }
    proof {
        lemma_name_order_total();
        if pos < s.len() {
            assert(s[pos as int] == v@[pos as int]@);
            lemma_le_total(s[pos as int], xs);
            assert(bytes_le(xs, s[pos as int]));
        }
    }
    v.insert(pos, x);
    proof {
        assert(views(v@) =~= s.insert(pos as int, xs));
        lemma_insert_keeps_order(s, xs, pos as int);
    }
}

/// Putting `xs` after everything no later than it and before the rest keeps a sorted list
/// sorted, and adds exactly `xs` to what it holds.
proof fn lemma_insert_keeps_order(s: Seq<Seq<u8>>, xs: Seq<u8>, pos: int)
    requires
        0 <= pos <= s.len(),
        sorted_by(s, name_order()),
        forall|j: int| 0 <= j < pos ==> bytes_le(#[trigger] s[j], xs),
        pos < s.len() ==> bytes_le(xs, s[pos]),
    ensures
        sorted_by(s.insert(pos, xs), name_order()),
        s.insert(pos, xs).to_multiset() == s.to_multiset().insert(xs),
{
    let t = s.insert(pos, xs);
    s.insert_ensures(pos, xs);
    let r = name_order();
    assert forall|i: int, j: int| 0 <= i < j < t.len() implies #[trigger] r(t[i], t[j]) by {
        if j < pos {
            assert(t[i] == s[i] && t[j] == s[j]);
            assert(r(s[i], s[j]));
        } else if i < pos && j == pos {
            assert(t[i] == s[i] && t[j] == xs);
            assert(bytes_le(s[i], xs));
        } else if i < pos {
            assert(t[i] == s[i] && t[j] == s[j - 1]);
            assert(bytes_le(s[i], xs));
            assert(bytes_le(xs, s[pos as int]));
            if j - 1 > pos {
                assert(r(s[pos as int], s[j - 1]));
                lemma_le_transitive(xs, s[pos as int], s[j - 1]);
            }
            lemma_le_transitive(s[i], xs, s[j - 1]);
        } else if i == pos {
            assert(t[i] == xs && t[j] == s[j - 1]);
            if j - 1 > pos {
                assert(r(s[pos as int], s[j - 1]));
                lemma_le_transitive(xs, s[pos as int], s[j - 1]);
            }
        } else {
            assert(t[i] == s[i - 1]);
            assert(t[j] == s[j - 1]);
            assert(r(s[i - 1], s[j - 1]));
        }
    }
    assert(t.remove(pos as int) =~= s);
    broadcast use vstd::seq_lib::group_to_multiset_ensures;
    broadcast use vstd::multiset::group_multiset_axioms;
    assert(t.to_multiset().remove(xs) =~= s.to_multiset());
    assert(t.to_multiset() =~= s.to_multiset().insert(xs));
}

/// The names a list of byte strings holds.
pub open spec fn views(v: Seq<Vec<u8>>) -> Seq<Seq<u8>> {
    v.map_values(|n: Vec<u8>| n@)
}

} // verus!
