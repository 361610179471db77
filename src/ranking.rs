//! Stable descending order of items keyed by non-negative fractions.
use vstd::prelude::*;
use vstd::set_lib::{lemma_int_range, lemma_subset_equality, set_int_range};

verus! {

/// A non-negative fraction `num / den` with `den > 0`.
#[derive(Debug, Clone, Copy, PartialEq, Eq, Structural)]
pub struct Fraction {
    /// Numerator.
    pub num: u64,
    /// Denominator, positive.
    pub den: u64,
}

/// `a` is greater than `b` as a fraction.
pub open spec fn frac_gt(a: Fraction, b: Fraction) -> bool {
    a.num as int * b.den as int > b.num as int * a.den as int
}

/// Position `p` comes before position `q` in the stable descending order of `keys`:
/// a greater key first, equal keys in the order of their positions.
pub open spec fn precedes(keys: Seq<Fraction>, p: int, q: int) -> bool {
    frac_gt(keys[p], keys[q]) || (!frac_gt(keys[q], keys[p]) && p < q)
}

/// All denominators are positive.
pub open spec fn all_positive(keys: Seq<Fraction>) -> bool {
    forall|i: int| 0 <= i < keys.len() ==> #[trigger] keys[i].den > 0
}

/// `order` lists each position of `keys` once, in the stable descending order.
pub open spec fn is_descending_order(keys: Seq<Fraction>, order: Seq<usize>) -> bool {
    &&& order.len() == keys.len()
    &&& order.no_duplicates()
    &&& forall|k: int| 0 <= k < order.len() ==> #[trigger] order[k] < keys.len()
    &&& forall|i: int, j: int|
        0 <= i < j < order.len() ==> precedes(keys, order[i] as int, order[j] as int)
}

/// Comparing fractions by cross-multiplication is transitive.
proof fn lemma_frac_gt_transitive(a: Fraction, b: Fraction, c: Fraction)
    requires
        a.den > 0,
        b.den > 0,
        c.den > 0,
    ensures
        frac_gt(a, b) && frac_gt(b, c) ==> frac_gt(a, c),
        !frac_gt(b, a) && !frac_gt(c, b) ==> !frac_gt(c, a),
        frac_gt(a, b) && !frac_gt(c, b) ==> frac_gt(a, c),
        !frac_gt(b, a) && frac_gt(b, c) ==> frac_gt(a, c),
{
    let (an, ad, bn, bd, cn, cd) = (
        a.num as int,
        a.den as int,
        b.num as int,
        b.den as int,
        c.num as int,
        c.den as int,
    );
    assert(an * bd > bn * ad && bn * cd > cn * bd ==> an * cd > cn * ad) by (nonlinear_arith)
        requires
            ad > 0,
            bd > 0,
            cd > 0,
            an >= 0,
            bn >= 0,
            cn >= 0,
    ;
    assert(an * bd >= bn * ad && bn * cd >= cn * bd ==> an * cd >= cn * ad) by (nonlinear_arith)
        requires
            ad > 0,
            bd > 0,
            cd > 0,
            an >= 0,
            bn >= 0,
            cn >= 0,
    ;
    assert(an * bd > bn * ad && bn * cd >= cn * bd ==> an * cd > cn * ad) by (nonlinear_arith)
        requires
            ad > 0,
            bd > 0,
            cd > 0,
            an >= 0,
            bn >= 0,
            cn >= 0,
    ;
    assert(an * bd >= bn * ad && bn * cd > cn * bd ==> an * cd > cn * ad) by (nonlinear_arith)
        requires
            ad > 0,
            bd > 0,
            cd > 0,
            an >= 0,
            bn >= 0,
            cn >= 0,
    ;
}

/// A descending order lists every position of its keys.
pub proof fn lemma_order_covers(keys: Seq<Fraction>, order: Seq<usize>)
    requires
        is_descending_order(keys, order),
    ensures
        forall|p: int| 0 <= p < keys.len() ==> #[trigger] order.contains(p as usize),
{
    broadcast use vstd::set::group_set_axioms;

    let n = keys.len() as int;
    let oi = order.map_values(|x: usize| x as int);
    assert(oi.no_duplicates());
    oi.unique_seq_to_set();
    lemma_int_range(0, n);
    vstd::seq_lib::seq_to_set_is_finite(oi);
    assert forall|x: int| oi.to_set().contains(x) implies set_int_range(0, n).contains(x) by {
        let k = choose|k: int| 0 <= k < oi.len() && oi[k] == x;
    }
    lemma_subset_equality(oi.to_set(), set_int_range(0, n));
    assert forall|p: int| 0 <= p < n implies #[trigger] order.contains(p as usize) by {
        assert(set_int_range(0, n).contains(p));
        assert(oi.to_set().contains(p));
        let k = choose|k: int| 0 <= k < oi.len() && oi[k] == p;
        assert(order[k] == p as usize);
    }
}

/// `a > b` as fractions, computed exactly.
pub fn fraction_greater(a: Fraction, b: Fraction) -> (r: bool)
    ensures
        r == frac_gt(a, b),
{
    let (an, ad, bn, bd) = (a.num as u128, a.den as u128, b.num as u128, b.den as u128);
    assert(an * bd <= u64::MAX * u64::MAX && bn * ad <= u64::MAX * u64::MAX) by (nonlinear_arith)
        requires
            an <= u64::MAX,
            ad <= u64::MAX,
            bn <= u64::MAX,
            bd <= u64::MAX,
    ;
    let lhs: u128 = an * bd;
    let rhs: u128 = bn * ad;
    lhs > rhs
}

/// The positions of `keys` in stable descending order of their fractions: a
/// greater key comes first, and equal keys keep the order of their positions.
pub fn descending_order(keys: &Vec<Fraction>) -> (order: Vec<usize>)
    requires
        all_positive(keys@),
    ensures
        is_descending_order(keys@, order@),
{
    let mut order: Vec<usize> = Vec::new();
    let mut n: usize = 0;
    while n < keys.len()
        invariant
            all_positive(keys@),
            n <= keys@.len(),
            order@.len() == n,
            order@.no_duplicates(),
            forall|k: int| 0 <= k < order@.len() ==> #[trigger] order@[k] < n,
            forall|i: int, j: int|
                0 <= i < j < order@.len() ==> precedes(keys@, order@[i] as int, order@[j] as int),
        decreases keys@.len() - n,
    {
        let key = keys[n];
        let mut p: usize = 0;
        while p < order.len() && !fraction_greater(key, keys[order[p]])
            invariant
                all_positive(keys@),
                n < keys@.len(),
                key == keys@[n as int],
                p <= order@.len(),
                forall|k: int| 0 <= k < order@.len() ==> #[trigger] order@[k] < n,
                forall|k: int| 0 <= k < p ==> !frac_gt(key, #[trigger] keys@[order@[k] as int]),
            decreases order@.len() - p,
        {
            p += 1;
        }
        let ghost prev = order@;
        proof {
            if p < prev.len() {
                assert forall|k: int| p <= k < prev.len() implies frac_gt(
                    key,
                    #[trigger] keys@[prev[k] as int],
                ) by {
                    if k > p {
                        assert(precedes(keys@, prev[p as int] as int, prev[k] as int));
                        lemma_frac_gt_transitive(
                            key,
                            keys@[prev[p as int] as int],
                            keys@[prev[k] as int],
                        );
                    }
                }
            }
        }
        order.insert(p, n);
        assert(order@ == prev.insert(p as int, n));
        assert forall|i: int, j: int| 0 <= i < j < order@.len() implies precedes(
            keys@,
            order@[i] as int,
            order@[j] as int,
        ) by {
            if j < p {
                assert(order@[i] == prev[i] && order@[j] == prev[j]);
            } else if j == p {
                assert(order@[i] == prev[i]);
            } else if i < p {
                assert(order@[i] == prev[i] && order@[j] == prev[j - 1]);
            } else if i == p {
                assert(order@[j] == prev[j - 1]);
            } else {
                assert(order@[i] == prev[i - 1] && order@[j] == prev[j - 1]);
            }
        }
        assert forall|a: int, b: int| 0 <= a < b < order@.len() implies order@[a] != order@[b] by {
            if a < p && b < p {
                assert(prev[a] != prev[b]);
            } else if a < p && b > p {
                assert(prev[a] != prev[b - 1]);
            } else if a > p {
                assert(prev[a - 1] != prev[b - 1]);
            }
        }
        n += 1;
    }
    order
}

} // verus!
