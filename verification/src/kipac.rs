//! The numeric primitive catalogue the evaluator draws on: time-interval
//! wrap-around, rounding, remainder, interpolation, and the reducers over
//! whole operand lists. Everything here works on exact decimals; the
//! transcendental primitives, which no exact representation can carry,
//! are not part of this catalogue.
use vstd::multiset::Multiset;
use vstd::prelude::*;

use crate::num::{
    Num, SCALE, spec_add, spec_sub, spec_mul, spec_div, spec_rem, spec_lt, spec_abs, spec_floor,
    spec_ceil, spec_min2, spec_max2,
};

verus! {

/// One day in mantissa units: the wrap-around period of `aikavali`.
pub const DAY: i128 = 86_400_000_000_000_000_000;

pub open spec fn spec_aikavali(a: Num, b: Num) -> Num {
    let s = spec_sub(b, a);
    if spec_lt(s, Num::Fin(0)) {
        spec_add(s, Num::Fin(DAY as i128))
    } else {
        s
    }
}

/// Time difference wrapping negative results forward by one day.
pub fn aikavali(a: Num, b: Num) -> (r: Num)
    ensures
        r == spec_aikavali(a, b),
{
    let s = b.minus(&a);
    if s.lt(&Num::Fin(0)) {
        s.plus(&Num::Fin(DAY))
    } else {
        s
    }
}

/// Absolute value.
pub fn abs(x: Num) -> (r: Num)
    ensures
        r == spec_abs(x),
{
    x.abs()
}

/// Largest whole number not above the argument.
pub fn floor(x: Num) -> (r: Num)
    ensures
        r == spec_floor(x),
{
    x.floor()
}

/// Smallest whole number not below the argument.
pub fn ceil(x: Num) -> (r: Num)
    ensures
        r == spec_ceil(x),
{
    x.ceil()
}

/// Remainder of the two arguments, with the sign of the first.
pub fn kmod(a: Num, b: Num) -> (r: Num)
    ensures
        r == spec_rem(a, b),
{
    a.rem(&b)
}

pub open spec fn spec_interpoloi(x: Num, x1: Num, y1: Num, x2: Num) -> Num {
    spec_div(spec_mul(y1, spec_sub(x, x2)), spec_sub(x1, x2))
}

/// Linear interpolation through `(x1, y1)` and `(x2, 0)`; the last
/// anchor's second coordinate is accepted and ignored, as the
/// interpolation rule this models does.
pub fn interpoloi(x: Num, x1: Num, y1: Num, x2: Num, _y2: Num) -> (r: Num)
    ensures
        r == spec_interpoloi(x, x1, y1, x2),
{
    y1.times(&x.minus(&x2)).divide(&x1.minus(&x2))
}

/// Left fold of float-style `min` over a list, from a NaN seed: the
/// seed loses to the first real value, and the minimum of an empty
/// list is NaN.
pub open spec fn spec_min_seq(s: Seq<Num>) -> Num
    decreases s.len(),
{
    if s.len() == 0 {
        Num::NaN
    } else {
        spec_min2(spec_min_seq(s.drop_last()), s.last())
    }
}

pub open spec fn spec_max_seq(s: Seq<Num>) -> Num
    decreases s.len(),
{
    if s.len() == 0 {
        Num::NaN
    } else {
        spec_max2(spec_max_seq(s.drop_last()), s.last())
    }
}

pub open spec fn spec_sum_seq(s: Seq<Num>) -> Num
    decreases s.len(),
{
    if s.len() == 0 {
        Num::Fin(0)
    } else {
        spec_add(spec_sum_seq(s.drop_last()), s.last())
    }
}

/// Smallest value of a list; NaN for an empty list.
pub fn min(x: Vec<Num>) -> (r: Num)
    ensures
        r == spec_min_seq(x@),
{
    let mut acc = Num::NaN;
    let mut i: usize = 0;
    while i < x.len()
        invariant
            0 <= i <= x@.len(),
            acc == spec_min_seq(x@.subrange(0, i as int)),
        decreases x@.len() - i,
    {
        proof {
            assert(x@.subrange(0, i + 1).drop_last() =~= x@.subrange(0, i as int));
        }
        acc = acc.min2(&x[i]);
        i = i + 1;
    }
    proof {
        assert(x@.subrange(0, x@.len() as int) =~= x@);
    }
    acc
}

/// Largest value of a list; NaN for an empty list.
pub fn max(x: Vec<Num>) -> (r: Num)
    ensures
        r == spec_max_seq(x@),
{
    let mut acc = Num::NaN;
    let mut i: usize = 0;
    while i < x.len()
        invariant
            0 <= i <= x@.len(),
            acc == spec_max_seq(x@.subrange(0, i as int)),
        decreases x@.len() - i,
    {
        proof {
            assert(x@.subrange(0, i + 1).drop_last() =~= x@.subrange(0, i as int));
        }
        acc = acc.max2(&x[i]);
        i = i + 1;
    }
    proof {
        assert(x@.subrange(0, x@.len() as int) =~= x@);
    }
    acc
}

/// Sum of a list; zero for an empty list.
pub fn sum(x: Vec<Num>) -> (r: Num)
    ensures
        r == spec_sum_seq(x@),
{
    let mut acc = Num::Fin(0);
    let mut i: usize = 0;
    while i < x.len()
        invariant
            0 <= i <= x@.len(),
            acc == spec_sum_seq(x@.subrange(0, i as int)),
        decreases x@.len() - i,
    {
        proof {
            assert(x@.subrange(0, i + 1).drop_last() =~= x@.subrange(0, i as int));
        }
        acc = acc.plus(&x[i]);
        i = i + 1;
    }
    proof {
        assert(x@.subrange(0, x@.len() as int) =~= x@);
    }
    acc
}

pub open spec fn spec_mean_seq(s: Seq<Num>) -> Num {
    spec_div(spec_sum_seq(s), Num::Fin((s.len() * (SCALE as int)) as i128))
}

/// Mean of a list; the empty list divides zero by zero and is NaN.
pub fn mean(x: Vec<Num>) -> (r: Num)
    ensures
        r == spec_mean_seq(x@),
{
    let s = sum_ref(&x);
    let n = x.len();
    s.divide(&Num::Fin((n as i128) * SCALE))
}

/// Sum without consuming the list.
fn sum_ref(x: &Vec<Num>) -> (r: Num)
    ensures
        r == spec_sum_seq(x@),
{
    let mut acc = Num::Fin(0);
    let mut i: usize = 0;
    while i < x.len()
        invariant
            0 <= i <= x@.len(),
            acc == spec_sum_seq(x@.subrange(0, i as int)),
        decreases x@.len() - i,
    {
        proof {
            assert(x@.subrange(0, i + 1).drop_last() =~= x@.subrange(0, i as int));
        }
        acc = acc.plus(&x[i]);
        i = i + 1;
    }
    proof {
        assert(x@.subrange(0, x@.len() as int) =~= x@);
    }
    acc
}

/// A total order for sorting: negative infinity first, finite values by
/// mantissa, then positive infinity, with NaN ordered last so that a
/// list containing one still sorts.
pub open spec fn le_tot(a: Num, b: Num) -> bool {
    rank(a) < rank(b) || (rank(a) == rank(b) && fin_m(a) <= fin_m(b))
}

pub open spec fn rank(a: Num) -> int {
    match a {
        Num::NegInf => 0,
        Num::Fin(_) => 1,
        Num::Inf => 2,
        Num::NaN => 3,
    }
}

pub open spec fn fin_m(a: Num) -> int {
    match a {
        Num::Fin(m) => m as int,
        _ => 0,
    }
}

fn le_tot_exec(a: &Num, b: &Num) -> (r: bool)
    ensures
        r == le_tot(*a, *b),
{
    let ra: u8 = match a {
        Num::NegInf => 0,
        Num::Fin(_) => 1,
        Num::Inf => 2,
        Num::NaN => 3,
    };
    let rb: u8 = match b {
        Num::NegInf => 0,
        Num::Fin(_) => 1,
        Num::Inf => 2,
        Num::NaN => 3,
    };
    if ra < rb {
        true
    } else if ra > rb {
        false
    } else {
        let ma: i128 = match a {
            Num::Fin(m) => *m,
            _ => 0,
        };
        let mb: i128 = match b {
            Num::Fin(m) => *m,
            _ => 0,
        };
        ma <= mb
    }
}

/// Insert a value into a sorted list, keeping earlier equal values first.
pub open spec fn spec_insert_sorted(s: Seq<Num>, v: Num) -> Seq<Num>
    decreases s.len(),
{
    if s.len() == 0 {
        seq![v]
    } else if le_tot(v, s[0]) {
        seq![v] + s
    } else {
        seq![s[0]] + spec_insert_sorted(s.drop_first(), v)
    }
}

/// Insertion sort, stable for the total order above.
pub open spec fn spec_sort(s: Seq<Num>) -> Seq<Num>
    decreases s.len(),
{
    if s.len() == 0 {
        Seq::empty()
    } else {
        spec_insert_sorted(spec_sort(s.drop_last()), s.last())
    }
}

proof fn lemma_insert_sorted_len(s: Seq<Num>, v: Num)
    ensures
        spec_insert_sorted(s, v).len() == s.len() + 1,
    decreases s.len(),
{
    if s.len() > 0 && !le_tot(v, s[0]) {
        lemma_insert_sorted_len(s.drop_first(), v);
    }
}

pub proof fn lemma_sort_len(s: Seq<Num>)
    ensures
        spec_sort(s).len() == s.len(),
    decreases s.len(),
{
    if s.len() > 0 {
        lemma_sort_len(s.drop_last());
        lemma_insert_sorted_len(spec_sort(s.drop_last()), s.last());
    }
}

/// Inserting at the first position whose element is not below the value
/// is what the recursive insertion does.
proof fn lemma_insert_at(s: Seq<Num>, v: Num, j: int)
    requires
        0 <= j <= s.len(),
        forall|i: int| 0 <= i < j ==> !le_tot(v, #[trigger] s[i]),
        j < s.len() ==> le_tot(v, s[j]),
    ensures
        spec_insert_sorted(s, v) == s.insert(j, v),
    decreases j,
{
    if s.len() == 0 {
        assert(spec_insert_sorted(s, v) =~= s.insert(0, v));
    } else if j == 0 {
        assert(spec_insert_sorted(s, v) =~= s.insert(0, v));
    } else {
        lemma_insert_at(s.drop_first(), v, j - 1);
        assert(seq![s[0]] + s.drop_first().insert(j - 1, v) =~= s.insert(j, v));
    }
}

/// Sort a list with insertion sort.
fn sort(x: &Vec<Num>) -> (r: Vec<Num>)
    ensures
        r@ == spec_sort(x@),
{
    let mut out: Vec<Num> = Vec::new();
    let mut i: usize = 0;
    proof {
        assert(x@.subrange(0, 0) =~= Seq::<Num>::empty());
    }
    while i < x.len()
        invariant
            0 <= i <= x@.len(),
            out@ == spec_sort(x@.subrange(0, i as int)),
        decreases x@.len() - i,
    {
        let v = x[i];
        let mut j: usize = 0;
        loop
            invariant
                0 <= j <= out@.len(),
                forall|p: int| 0 <= p < j ==> !le_tot(v, #[trigger] out@[p]),
            ensures
                0 <= j <= out@.len(),
                forall|p: int| 0 <= p < j ==> !le_tot(v, #[trigger] out@[p]),
                j < out@.len() ==> le_tot(v, out@[j as int]),
            decreases out@.len() - j,
        {
            if j >= out.len() {
                break;
            }
            if le_tot_exec(&v, &out[j]) {
                break;
            }
            j = j + 1;
        }
        proof {
            lemma_insert_at(out@, v, j as int);
            assert(x@.subrange(0, i + 1).drop_last() =~= x@.subrange(0, i as int));
        }
        out.insert(j, v);
        i = i + 1;
    }
    proof {
        assert(x@.subrange(0, x@.len() as int) =~= x@);
    }
    out
}

/// The sorting order as a relation value.
pub open spec fn le_tot_fn() -> spec_fn(Num, Num) -> bool {
    |a: Num, b: Num| le_tot(a, b)
}

/// The sorting order is a total order: reflexive, antisymmetric,
/// transitive, and defined between any two values.
pub proof fn lemma_le_tot_total_ordering()
    ensures
        vstd::relations::total_ordering(le_tot_fn()),
{
    let leq = le_tot_fn();
    assert forall|x: Num| #[trigger] leq(x, x) by {
        assert(le_tot(x, x));
    }
    assert forall|x: Num, y: Num| #[trigger] leq(x, y) && #[trigger] leq(y, x) implies x == y by {
        assert(rank(x) == rank(y) && fin_m(x) == fin_m(y));
    }
    assert forall|x: Num, y: Num, z: Num| #[trigger] leq(x, y) && #[trigger] leq(y, z) implies leq(
        x,
        z,
    ) by {
        assert(le_tot(x, z));
    }
    assert forall|x: Num, y: Num| #[trigger] leq(x, y) || #[trigger] leq(y, x) by {
        assert(le_tot(x, y) || le_tot(y, x));
    }
}

/// On values that are not NaN the sorting order is exactly the
/// language's own ordering.
pub proof fn lemma_le_tot_agrees_without_nan(a: Num, b: Num)
    requires
        !(a is NaN),
        !(b is NaN),
    ensures
        le_tot(a, b) == crate::num::spec_le(a, b),
{
}

/// Inserting into a list adds exactly one occurrence of the value.
pub proof fn lemma_insert_sorted_multiset(s: Seq<Num>, v: Num)
    ensures
        spec_insert_sorted(s, v).to_multiset() == s.to_multiset().insert(v),
    decreases s.len(),
{
    broadcast use vstd::seq_lib::group_to_multiset_ensures;
    broadcast use vstd::multiset::group_multiset_axioms;

    if s.len() == 0 {
        assert(seq![v] =~= Seq::<Num>::empty().push(v));
        assert(spec_insert_sorted(s, v).to_multiset() =~= s.to_multiset().insert(v));
    } else if le_tot(v, s[0]) {
        vstd::seq_lib::lemma_multiset_commutative(seq![v], s);
        assert(seq![v].to_multiset() =~= Multiset::<Num>::empty().insert(v)) by {
            assert(seq![v] =~= Seq::<Num>::empty().push(v));
        }
        assert((seq![v] + s).to_multiset() =~= s.to_multiset().insert(v));
    } else {
        lemma_insert_sorted_multiset(s.drop_first(), v);
        let head = seq![s[0]];
        let tail = spec_insert_sorted(s.drop_first(), v);
        vstd::seq_lib::lemma_multiset_commutative(head, tail);
        assert(head.to_multiset() =~= Multiset::<Num>::empty().insert(s[0])) by {
            assert(head =~= Seq::<Num>::empty().push(s[0]));
        }
        assert(s =~= head + s.drop_first());
        vstd::seq_lib::lemma_multiset_commutative(head, s.drop_first());
        assert((head + tail).to_multiset() =~= s.to_multiset().insert(v));
    }
}

/// Sorting keeps exactly the values of the list.
pub proof fn lemma_sort_multiset(s: Seq<Num>)
    ensures
        spec_sort(s).to_multiset() == s.to_multiset(),
    decreases s.len(),
{
    broadcast use vstd::seq_lib::group_to_multiset_ensures;

    if s.len() > 0 {
        lemma_sort_multiset(s.drop_last());
        lemma_insert_sorted_multiset(spec_sort(s.drop_last()), s.last());
        assert(s =~= s.drop_last().push(s.last()));
        assert(s.to_multiset() =~= s.drop_last().to_multiset().insert(s.last()));
    }
}

/// Inserting into an ascending list keeps it ascending.
pub proof fn lemma_insert_sorted_sorted(s: Seq<Num>, v: Num)
    requires
        vstd::relations::sorted_by(s, le_tot_fn()),
    ensures
        vstd::relations::sorted_by(spec_insert_sorted(s, v), le_tot_fn()),
    decreases s.len(),
{
    broadcast use vstd::seq_lib::group_to_multiset_ensures;
    broadcast use vstd::multiset::group_multiset_axioms;

    let leq = le_tot_fn();
    if s.len() == 0 {
        let r = seq![v];
        assert forall|i: int, j: int| 0 <= i < j < r.len() implies #[trigger] leq(r[i], r[j]) by {}
    } else if le_tot(v, s[0]) {
        let r = seq![v] + s;
        assert forall|i: int, j: int| 0 <= i < j < r.len() implies #[trigger] leq(r[i], r[j]) by {
            if i == 0 {
                if j > 1 {
                    assert(leq(s[0], s[j - 1]));
                }
                assert(le_tot(v, s[j - 1]));
            } else {
                assert(leq(s[i - 1], s[j - 1]));
            }
        }
    } else {
        let rest = s.drop_first();
        assert(vstd::relations::sorted_by(rest, leq)) by {
            assert forall|i: int, j: int| 0 <= i < j < rest.len() implies #[trigger] leq(
                rest[i],
                rest[j],
            ) by {
                assert(leq(s[i + 1], s[j + 1]));
            }
        }
        lemma_insert_sorted_sorted(rest, v);
        lemma_insert_sorted_multiset(rest, v);
        let ir = spec_insert_sorted(rest, v);
        let r = seq![s[0]] + ir;
        assert(le_tot(s[0], v));
        assert forall|j: int| 0 <= j < ir.len() implies le_tot(s[0], #[trigger] ir[j]) by {
            let x = ir[j];
            assert(ir.contains(x));
            assert(ir.to_multiset().count(x) > 0);
            if x == v {
            } else {
                assert(rest.to_multiset().count(x) > 0);
                assert(rest.contains(x));
                let k = choose|k: int| 0 <= k < rest.len() && rest[k] == x;
                assert(leq(s[0], s[k + 1]));
            }
        }
        assert forall|i: int, j: int| 0 <= i < j < r.len() implies #[trigger] leq(r[i], r[j]) by {
            if i == 0 {
                assert(le_tot(s[0], ir[j - 1]));
            } else {
                assert(leq(ir[i - 1], ir[j - 1]));
            }
        }
    }
}

/// The sort is ascending.
pub proof fn lemma_sort_sorted(s: Seq<Num>)
    ensures
        vstd::relations::sorted_by(spec_sort(s), le_tot_fn()),
    decreases s.len(),
{
    if s.len() > 0 {
        lemma_sort_sorted(s.drop_last());
        lemma_insert_sorted_sorted(spec_sort(s.drop_last()), s.last());
    }
}

/// Median of a sorted copy: the middle element, or the mean of the two
/// middle elements of an even-length list. The empty list is NaN.
pub open spec fn spec_median(s: Seq<Num>) -> Num {
    let a = spec_sort(s);
    let h = s.len() as int / 2;
    if s.len() == 0 {
        Num::NaN
    } else if s.len() % 2 == 0 {
        spec_div(spec_add(a[h], a[h - 1]), Num::Fin((2 * (SCALE as int)) as i128))
    } else {
        a[h]
    }
}

pub fn median(x: Vec<Num>) -> (r: Num)
    ensures
        r == spec_median(x@),
{
    let a = sort(&x);
    proof {
        lemma_sort_len(x@);
    }
    let ln = a.len();
    if ln == 0 {
        Num::NaN
    } else if ln % 2 == 0 {
        a[ln / 2].plus(&a[ln / 2 - 1]).divide(&Num::Fin(2 * SCALE))
    } else {
        a[ln / 2]
    }
}

} // verus!
