use vstd::prelude::*;
use vstd::relations::sorted_by;
use crate::order::{insert_sorted, lemma_name_order_total, name_order, views};

verus! {

/// One entry of the directory that holds the programs' sources.
#[derive(Clone, Debug)]
pub struct DirEntry {
    /// The entry's file name, as bytes.
    pub name: Vec<u8>,
    /// Whether the entry is a regular file.
    pub is_file: bool,
}

/// A file name whose extension (what follows its last dot, a leading dot not counting) is `rs`.
pub open spec fn is_source_name(s: Seq<u8>) -> bool {
    &&& s.len() >= 4
    &&& s[s.len() - 3] == 0x2e
    &&& s[s.len() - 2] == 0x72
    &&& s[s.len() - 1] == 0x73
}

/// The program name a file name gives: the file name without its `rs` extension (the name
/// itself when it has no such extension).
pub open spec fn stem_spec(s: Seq<u8>) -> Seq<u8> {
    if is_source_name(s) {
        s.take(s.len() - 3)
    } else {
        s
    }
}

/// Whether an entry is a program's source: a regular file with extension `rs`.
pub open spec fn is_program(e: DirEntry) -> bool {
    e.is_file && is_source_name(e.name@)
}

/// The names of the programs among `es`, in listing order.
pub open spec fn candidates(es: Seq<DirEntry>) -> Seq<Seq<u8>>
    decreases es.len(),
{
    if es.len() == 0 {
        seq![]
    } else {
        let prev = candidates(es.drop_last());
        if is_program(es.last()) {
            prev.push(stem_spec(es.last().name@))
        } else {
            prev
        }
    }
}

/// `names` is what discovery yields for the listing `es`: the program names, each as often as
/// it occurs, in ascending byte-wise order.
pub open spec fn discovers(es: Seq<DirEntry>, names: Seq<Seq<u8>>) -> bool {
    &&& sorted_by(names, name_order())
    &&& names.to_multiset() == candidates(es).to_multiset()
}

/// Whether the file name `s` has the extension `rs`.
pub fn is_source(s: &Vec<u8>) -> (r: bool)
    ensures
        r == is_source_name(s@),
{
    let n = s.len();
    n >= 4 && s[n - 3] == 0x2e && s[n - 2] == 0x72 && s[n - 1] == 0x73
}

/// The program name a file name gives: the file name with its `.rs` extension removed; a
/// name without that extension is kept whole.
pub fn stem(s: &Vec<u8>) -> (r: Vec<u8>)
    ensures
        r@ == stem_spec(s@),
{
    let end: usize = if is_source(s) { s.len() - 3 } else { s.len() };
    let mut r: Vec<u8> = Vec::new();
    let mut i: usize = 0;
    while i < end
        invariant
            i <= end <= s@.len(),
            r@ == s@.take(i as int),
        decreases end - i,
    {
        r.push(s[i]);
        i = i + 1;
        assert(r@ =~= s@.take(i as int));
    }
    assert(!is_source_name(s@) ==> s@.take(end as int) =~= s@);
    r
}

/// The names of the programs in a directory listing, sorted byte-wise ascending; the sort
/// alone decides each program's index.
pub fn program_names(entries: &Vec<DirEntry>) -> (r: Vec<Vec<u8>>)
    ensures
        discovers(entries@, views(r@)),
{
    let mut names: Vec<Vec<u8>> = Vec::new();
    let mut i: usize = 0;
    proof {
        lemma_name_order_total();
        assert(entries@.take(0) =~= Seq::<DirEntry>::empty());
        assert(views(names@) =~= Seq::<Seq<u8>>::empty());
    }
    while i < entries.len()
        invariant
            i <= entries@.len(),
            sorted_by(views(names@), name_order()),
            views(names@).to_multiset() == candidates(entries@.take(i as int)).to_multiset(),
        decreases entries@.len() - i,
    {
        let e = &entries[i];
        let ghost prev = entries@.take(i as int);
        let ghost next = entries@.take(i + 1);
        proof {
            assert(next.drop_last() =~= prev);
            assert(next.last() == entries@[i as int]);
        }
        if e.is_file && is_source(&e.name) {
            let name = stem(&e.name);
            insert_sorted(&mut names, name);
            proof {
                broadcast use vstd::seq_lib::group_to_multiset_ensures;
                assert(candidates(next) == candidates(prev).push(stem_spec(e.name@)));
            }
        }
        i = i + 1;
    }
    proof {
        assert(entries@.take(i as int) =~= entries@);
    }
    names
}

/// What one entry adds to the program names.
pub open spec fn contribution(e: DirEntry) -> Seq<Seq<u8>> {
    if is_program(e) {
        seq![stem_spec(e.name@)]
    } else {
        seq![]
    }
}

proof fn lemma_candidates_append(a: Seq<DirEntry>, b: Seq<DirEntry>)
    ensures
        candidates(a + b) == candidates(a) + candidates(b),
    decreases b.len(),
{
    if b.len() == 0 {
        assert(a + b =~= a);
        assert(candidates(a) + candidates(b) =~= candidates(a));
    } else {
        lemma_candidates_append(a, b.drop_last());
        assert((a + b).drop_last() =~= a + b.drop_last());
        assert((a + b).last() == b.last());
        if is_program(b.last()) {
            assert(candidates(a + b) =~= candidates(a) + candidates(b));
        } else {
            assert(candidates(a + b) =~= candidates(a) + candidates(b));
        }
    }
}

proof fn lemma_candidates_single(e: DirEntry)
    ensures
        candidates(seq![e]) == contribution(e),
{
    let one = seq![e];
    assert(one.drop_last() =~= Seq::<DirEntry>::empty());
    assert(one.last() == e);
    assert(candidates(Seq::<DirEntry>::empty()) == Seq::<Seq<u8>>::empty());
    assert(candidates(one) =~= contribution(e));
}

/// Listings that hold the same entries, in whatever order, name the same programs equally
/// often.
proof fn lemma_candidates_permutation(x: Seq<DirEntry>, y: Seq<DirEntry>)
    requires
        x.to_multiset() == y.to_multiset(),
    ensures
        candidates(x).to_multiset() == candidates(y).to_multiset(),
    decreases x.len(),
{
    broadcast use vstd::seq_lib::group_to_multiset_ensures;
    broadcast use vstd::multiset::group_multiset_axioms;

    if x.len() == 0 {
        assert(x.to_multiset().len() == x.len());
        assert(y.to_multiset().len() == y.len());
        assert(y =~= x);
    } else {
        let e = x.last();
        let xs = x.drop_last();
        assert(x =~= xs.push(e));
        assert(y.to_multiset().count(e) > 0);
        assert(y.contains(e));
        let k = choose|k: int| 0 <= k < y.len() && y[k] == e;
        let ys = y.remove(k);
        assert(ys.to_multiset() =~= y.to_multiset().remove(e));
        assert(xs.to_multiset() =~= x.to_multiset().remove(e));
        lemma_candidates_permutation(xs, ys);
        let pre = y.take(k);
        let post = y.skip(k + 1);
        assert(y =~= pre + seq![e] + post);
        assert(ys =~= pre + post);
        lemma_candidates_append(pre + seq![e], post);
        lemma_candidates_append(pre, seq![e]);
        lemma_candidates_append(pre, post);
        lemma_candidates_single(e);
        lemma_candidates_append(xs, seq![e]);
        assert(xs + seq![e] =~= x);
        let cp = candidates(pre);
        let cq = candidates(post);
        let ce = contribution(e);
        vstd::seq_lib::lemma_multiset_commutative(cp + ce, cq);
        vstd::seq_lib::lemma_multiset_commutative(cp, ce);
        vstd::seq_lib::lemma_multiset_commutative(cp, cq);
        vstd::seq_lib::lemma_multiset_commutative(candidates(xs), ce);
        assert(candidates(y).to_multiset() =~= candidates(ys).to_multiset().add(ce.to_multiset()));
    }
}

/// Discovery does not depend on the order in which the directory is listed: two listings of
/// the same entries yield the same names in the same order.
pub proof fn lemma_discovery_order_free(
    a: Seq<DirEntry>,
    b: Seq<DirEntry>,
    ra: Seq<Seq<u8>>,
    rb: Seq<Seq<u8>>,
)
    requires
        a.to_multiset() == b.to_multiset(),
        discovers(a, ra),
        discovers(b, rb),
    ensures
        ra == rb,
{
    lemma_candidates_permutation(a, b);
    lemma_name_order_total();
    vstd::seq_lib::lemma_sorted_unique(ra, rb, name_order());
}

} // verus!
