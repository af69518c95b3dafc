use vstd::prelude::*;
use crate::r4::has_label;
use crate::r4::r4_columns;
use crate::r4::r4_has_key;
use crate::r4::r4_kept;
use crate::r4::r4_key;
use crate::r4::sorted_columns;

verus! {

broadcast use {vstd::seq_lib::group_to_multiset_ensures, vstd::multiset::group_multiset_axioms};

proof fn lemma_filter_partition<A>(s: Seq<A>, p: spec_fn(A) -> bool, q: spec_fn(A) -> bool)
    requires
        forall|x: A| #[trigger] q(x) == !p(x),
    ensures
        s.filter(p).len() + s.filter(q).len() == s.len(),
    decreases s.len(),
{
    reveal(Seq::filter);
    if s.len() > 0 {
        lemma_filter_partition(s.drop_last(), p, q);
    }
}

/// Law: a column whose header cell is empty in the source is absent
/// from the R4 output — every kept column has a non-empty label, and
/// the kept and dropped column counts add up to the source's column
/// count.
pub proof fn lemma_r4_dropped_columns(t: Seq<Seq<Seq<char>>>)
    ensures
        forall|i: int| 0 <= i < r4_kept(t).len() ==> has_label(#[trigger] r4_kept(t)[i]),
        r4_kept(t).len() + r4_columns(t).filter(|c: Seq<Seq<char>>| !has_label(c)).len()
            == r4_columns(t).len(),
{
    broadcast use vstd::seq_lib::group_filter_ensures;

    lemma_filter_partition(
        r4_columns(t),
        |c: Seq<Seq<char>>| has_label(c),
        |c: Seq<Seq<char>>| !has_label(c),
    );
}

/// Law: when the source columns hold a time column labeled `t` and
/// every other label reads as a positive integer, sorting puts the
/// time column first, and the keys stand in non-decreasing order from
/// there. A label with a zero or negative value can sort ahead of the
/// time column, so such inputs are excluded.
pub proof fn lemma_time_column_first(orig: Seq<Seq<Seq<char>>>, sc: Seq<Seq<Seq<char>>>)
    requires
        sorted_columns(orig, sc),
        exists|w: int| 0 <= w < orig.len() && (#[trigger] orig[w])[0] == seq!['t'],
        forall|i: int|
            0 <= i < orig.len() ==> (#[trigger] orig[i])[0] == seq!['t'] || (r4_has_key(orig[i])
                && r4_key(orig[i]) > 0),
    ensures
        sc.len() == orig.len(),
        0 < sc.len(),
        sc[0][0] == seq!['t'],
        forall|i: int, j: int| 0 <= i < j < sc.len() ==> r4_key(sc[i]) <= r4_key(sc[j]),
{
    sc.to_multiset_ensures();
    orig.to_multiset_ensures();
    assert(sc.len() == orig.len());
    let w = choose|w: int| 0 <= w < orig.len() && (#[trigger] orig[w])[0] == seq!['t'];
    let x = orig[w];
    assert(orig.contains(x));
    assert(orig.to_multiset().count(x) > 0);
    assert(sc.to_multiset().count(x) > 0);
    assert(sc.contains(x));
    let p = choose|p: int| 0 <= p < sc.len() && sc[p] == x;
    assert(r4_key(x) == 0);
    if sc[0][0] != seq!['t'] {
        assert(sc.contains(sc[0]));
        assert(sc.to_multiset().count(sc[0]) > 0);
        assert(orig.to_multiset().count(sc[0]) > 0);
        assert(orig.contains(sc[0]));
        let q = choose|q: int| 0 <= q < orig.len() && orig[q] == sc[0];
        assert(r4_key(sc[0]) > 0);
        if p > 0 {
            assert(r4_key(sc[0]) <= r4_key(sc[p]));
        }
        assert(false);
    }
}

} // verus!
