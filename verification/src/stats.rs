//! Reductions of a sequence of measurements: order statistics, extremes and
//! means.
//!
//! Percentiles are nearest-rank: the value at percent `p` of `n` values is
//! the one at index `p * n / 100` (rounded down, and no further than the last)
//! of the values in ascending order. Nothing is interpolated, so every
//! percentile is one of the values.

use vstd::prelude::*;
use vstd::relations::{sorted_by, total_ordering};
use vstd::seq_lib::lemma_sorted_unique;
use vstd::std_specs::convert::FromSpec;

verus! {

/// No value is followed by a smaller one.
pub open spec fn ascending(s: Seq<u128>) -> bool {
    forall|i: int, j: int| 0 <= i <= j < s.len() ==> s[i] <= s[j]
}

/// The order by which values are sorted.
pub open spec fn at_most() -> spec_fn(u128, u128) -> bool {
    |a: u128, b: u128| a <= b
}

/// The values of `s` in ascending order.
pub open spec fn sorted(s: Seq<u128>) -> Seq<u128> {
    s.sort_by(at_most())
}

/// The index, among `count` values in ascending order, of the value at
/// percent `p`.
pub open spec fn rank(p: nat, count: nat) -> nat
    recommends
        count > 0,
{
    let index = p * count / 100;
    if index < count {
        index
    } else {
        (count - 1) as nat
    }
}

/// The nearest-rank percentile `p` of `s`; zero where `s` is empty.
pub open spec fn percentile_of(s: Seq<u128>, p: nat) -> u128 {
    if s.len() == 0 {
        0
    } else {
        sorted(s)[rank(p, s.len()) as int]
    }
}

/// The sum of `s`.
pub open spec fn sum_of(s: Seq<u128>) -> nat
    decreases s.len(),
{
    if s.len() == 0 {
        0
    } else {
        sum_of(s.drop_last()) + s.last() as nat
    }
}

/// The mean of `s`, rounded down; zero where `s` is empty.
pub open spec fn mean_of(s: Seq<u128>) -> nat {
    if s.len() == 0 {
        0
    } else {
        sum_of(s) / s.len()
    }
}

/// The largest value of `s`; zero where `s` is empty.
pub open spec fn max_of(s: Seq<u128>) -> u128
    decreases s.len(),
{
    if s.len() == 0 {
        0
    } else {
        let rest = max_of(s.drop_last());
        if s.last() > rest {
            s.last()
        } else {
            rest
        }
    }
}

/// The smallest value of `s`; zero where `s` is empty.
pub open spec fn min_of(s: Seq<u128>) -> u128
    decreases s.len(),
{
    if s.len() == 0 {
        0
    } else if s.len() == 1 {
        s[0]
    } else {
        let rest = min_of(s.drop_last());
        if s.last() < rest {
            s.last()
        } else {
            rest
        }
    }
}

/// `a * scale / b`, rounded down; zero where `b` is zero.
pub open spec fn scaled_ratio(a: nat, scale: nat, b: nat) -> nat {
    if b == 0 {
        0
    } else {
        a * scale / b
    }
}

proof fn lemma_at_most_is_total()
    ensures
        total_ordering(at_most()),
{
}

/// Sorting rearranges: the result is ascending and holds each value as
/// often as the input does.
pub proof fn lemma_sorted_rearranges(s: Seq<u128>)
    ensures
        ascending(sorted(s)),
        sorted(s).to_multiset() == s.to_multiset(),
        sorted(s).len() == s.len(),
        forall|i: int| 0 <= i < s.len() ==> s.contains(#[trigger] sorted(s)[i]),
        forall|i: int| 0 <= i < s.len() ==> sorted(s).contains(#[trigger] s[i]),
{
    lemma_at_most_is_total();
    s.lemma_sort_by_ensures(at_most());
    let t = sorted(s);
    s.to_multiset_ensures();
    t.to_multiset_ensures();
    assert(t.len() == s.len());
    assert forall|i: int, j: int| 0 <= i <= j < t.len() implies t[i] <= t[j] by {
        if i < j {
            assert(at_most()(t[i], t[j]));
        }
    }
    assert forall|i: int| 0 <= i < s.len() implies s.contains(#[trigger] t[i]) by {
        assert(t.contains(t[i]));
        assert(t.to_multiset().count(t[i]) > 0);
    }
    assert forall|i: int| 0 <= i < s.len() implies t.contains(#[trigger] s[i]) by {
        assert(s.contains(s[i]));
        assert(s.to_multiset().count(s[i]) > 0);
    }
}

/// There is one ascending arrangement of a sequence.
pub proof fn lemma_ascending_arrangement_is_sorted(s: Seq<u128>, t: Seq<u128>)
    requires
        ascending(t),
        t.to_multiset() == s.to_multiset(),
    ensures
        t == sorted(s),
{
    lemma_at_most_is_total();
    lemma_sorted_rearranges(s);
    let u = sorted(s);
    assert(sorted_by(t, at_most())) by {
        assert forall|i: int, j: int| 0 <= i < j < t.len() implies #[trigger] at_most()(
            t[i],
            t[j],
        ) by {}
    }
    assert(sorted_by(u, at_most())) by {
        assert forall|i: int, j: int| 0 <= i < j < u.len() implies #[trigger] at_most()(
            u[i],
            u[j],
        ) by {}
    }
    lemma_sorted_unique(t, u, at_most());
}

/// The statistics of a sequence do not depend on the order of its values.
pub proof fn lemma_sorted_ignores_order(s: Seq<u128>, t: Seq<u128>)
    requires
        s.to_multiset() == t.to_multiset(),
    ensures
        sorted(s) == sorted(t),
{
    lemma_sorted_rearranges(t);
    lemma_ascending_arrangement_is_sorted(s, sorted(t));
}

/// The largest value is one of the values and none is larger.
pub proof fn lemma_max_of_bounds(s: Seq<u128>)
    ensures
        forall|i: int| 0 <= i < s.len() ==> #[trigger] s[i] <= max_of(s),
        s.len() > 0 ==> s.contains(max_of(s)),
    decreases s.len(),
{
    if s.len() > 0 {
        let rest = s.drop_last();
        lemma_max_of_bounds(rest);
        assert forall|i: int| 0 <= i < s.len() implies #[trigger] s[i] <= max_of(s) by {
            if i < rest.len() {
                assert(rest[i] == s[i]);
            }
        }
        if s.last() > max_of(rest) || rest.len() == 0 {
            assert(s[s.len() - 1] == max_of(s));
        } else {
            let i = choose|i: int| 0 <= i < rest.len() && rest[i] == max_of(rest);
            assert(s[i] == max_of(s));
        }
    }
}

/// The smallest value is one of the values and none is smaller.
pub proof fn lemma_min_of_bounds(s: Seq<u128>)
    ensures
        forall|i: int| 0 <= i < s.len() ==> min_of(s) <= #[trigger] s[i],
        s.len() > 0 ==> s.contains(min_of(s)),
    decreases s.len(),
{
    if s.len() == 1 {
        assert(s[0] == min_of(s));
    } else if s.len() > 1 {
        let rest = s.drop_last();
        lemma_min_of_bounds(rest);
        assert forall|i: int| 0 <= i < s.len() implies min_of(s) <= #[trigger] s[i] by {
            if i < rest.len() {
                assert(rest[i] == s[i]);
            }
        }
        if s.last() < min_of(rest) {
            assert(s[s.len() - 1] == min_of(s));
        } else {
            let i = choose|i: int| 0 <= i < rest.len() && rest[i] == min_of(rest);
            assert(s[i] == min_of(s));
        }
    }
}

/// The largest value is the last in ascending order, the smallest the
/// first.
pub proof fn lemma_extremes_are_ends_of_sorted(s: Seq<u128>)
    requires
        s.len() > 0,
    ensures
        max_of(s) == sorted(s).last(),
        min_of(s) == sorted(s).first(),
{
    lemma_sorted_rearranges(s);
    lemma_max_of_bounds(s);
    lemma_min_of_bounds(s);
    let t = sorted(s);
    let n = t.len() as int;
    assert(s.contains(t[n - 1]));
    assert(s.contains(t[0]));
    let hi = choose|i: int| 0 <= i < s.len() && s[i] == max_of(s);
    assert(t.contains(s[hi]));
    let lo = choose|i: int| 0 <= i < s.len() && s[i] == min_of(s);
    assert(t.contains(s[lo]));
}

/// The rank grows with the percent and stays among the values.
pub proof fn lemma_rank_monotonic(p: nat, q: nat, count: nat)
    requires
        p <= q,
        count > 0,
    ensures
        rank(p, count) <= rank(q, count) < count,
{
    assert(p * count <= q * count) by (nonlinear_arith)
        requires
            p <= q,
    ;
    assert(p * count / 100 <= q * count / 100);
}

/// Percent 100 and beyond reach the last value.
pub proof fn lemma_rank_full(p: nat, count: nat)
    requires
        p >= 100,
        count > 0,
    ensures
        rank(p, count) == count - 1,
{
    assert(p * count >= 100 * count) by (nonlinear_arith)
        requires
            p >= 100,
    ;
}

/// A percentile does not decrease as the percent grows.
pub proof fn lemma_percentile_monotonic(s: Seq<u128>, p: nat, q: nat)
    requires
        p <= q,
    ensures
        percentile_of(s, p) <= percentile_of(s, q),
{
    if s.len() > 0 {
        lemma_sorted_rearranges(s);
        lemma_rank_monotonic(p, q, s.len());
    }
}

/// The percentile at 100 is the largest value.
pub proof fn lemma_percentile_100_is_max(s: Seq<u128>)
    requires
        s.len() > 0,
    ensures
        percentile_of(s, 100) == max_of(s),
{
    lemma_rank_full(100, s.len());
    lemma_sorted_rearranges(s);
    lemma_extremes_are_ends_of_sorted(s);
}

/// The percentile at 0 is the smallest value.
pub proof fn lemma_percentile_0_is_min(s: Seq<u128>)
    requires
        s.len() > 0,
    ensures
        percentile_of(s, 0) == min_of(s),
{
    lemma_extremes_are_ends_of_sorted(s);
    assert(0nat * s.len() / 100 == 0) by (nonlinear_arith);
}

/// Every percentile lies between the smallest and the largest value.
pub proof fn lemma_percentile_within_extremes(s: Seq<u128>, p: nat)
    requires
        s.len() > 0,
    ensures
        min_of(s) <= percentile_of(s, p) <= max_of(s),
        s.contains(percentile_of(s, p)),
{
    lemma_sorted_rearranges(s);
    lemma_extremes_are_ends_of_sorted(s);
    lemma_rank_monotonic(p, p, s.len());
}

/// Of an empty sequence every statistic is zero.
pub proof fn lemma_empty_is_all_zero(s: Seq<u128>)
    requires
        s.len() == 0,
    ensures
        forall|p: nat| percentile_of(s, p) == 0,
        mean_of(s) == 0,
        min_of(s) == 0,
        max_of(s) == 0,
{
}

/// A sum is at most as many times a bound as there are values.
pub proof fn lemma_sum_of_bounded(s: Seq<u128>, bound: nat)
    requires
        forall|i: int| 0 <= i < s.len() ==> s[i] <= bound,
    ensures
        sum_of(s) <= s.len() * bound,
    decreases s.len(),
{
    if s.len() > 0 {
        let rest = s.drop_last();
        assert forall|i: int| 0 <= i < rest.len() implies rest[i] <= bound by {
            assert(rest[i] == s[i]);
        }
        lemma_sum_of_bounded(rest, bound);
        assert(s.last() == s[s.len() - 1]);
        assert(rest.len() * bound + bound == s.len() * bound) by (nonlinear_arith)
            requires
                rest.len() + 1 == s.len(),
        ;
    }
}

/// The mean lies between the smallest and the largest value.
pub proof fn lemma_mean_within_extremes(s: Seq<u128>)
    requires
        s.len() > 0,
    ensures
        min_of(s) <= mean_of(s) <= max_of(s),
{
    lemma_max_of_bounds(s);
    lemma_min_of_bounds(s);
    lemma_sum_of_bounded(s, max_of(s) as nat);
    lemma_sum_of_at_least(s, min_of(s) as nat);
    let n = s.len();
    let total = sum_of(s);
    let hi = max_of(s) as nat;
    let lo = min_of(s) as nat;
    assert(total / n <= hi) by (nonlinear_arith)
        requires
            total <= n * hi,
            n > 0,
    ;
    assert(lo <= total / n) by (nonlinear_arith)
        requires
            n * lo <= total,
            n > 0,
    ;
}

/// A sum is at least as many times a bound as there are values.
pub proof fn lemma_sum_of_at_least(s: Seq<u128>, bound: nat)
    requires
        forall|i: int| 0 <= i < s.len() ==> s[i] >= bound,
    ensures
        sum_of(s) >= s.len() * bound,
    decreases s.len(),
{
    if s.len() > 0 {
        let rest = s.drop_last();
        assert forall|i: int| 0 <= i < rest.len() implies rest[i] >= bound by {
            assert(rest[i] == s[i]);
        }
        lemma_sum_of_at_least(rest, bound);
        assert(s.last() == s[s.len() - 1]);
        assert(rest.len() * bound + bound == s.len() * bound) by (nonlinear_arith)
            requires
                rest.len() + 1 == s.len(),
        ;
    }
}

/// A sum is the sum without one of its values, and that value.
pub proof fn lemma_sum_of_remove(s: Seq<u128>, i: int)
    requires
        0 <= i < s.len(),
    ensures
        sum_of(s) == sum_of(s.remove(i)) + s[i],
    decreases s.len(),
{
    if i == s.len() - 1 {
        assert(s.remove(i) == s.drop_last());
    } else {
        lemma_sum_of_remove(s.drop_last(), i);
        assert(s.remove(i).drop_last() == s.drop_last().remove(i));
        assert(s.remove(i).last() == s.last());
    }
}

/// A sum does not depend on the order of its values.
pub proof fn lemma_sum_of_ignores_order(s: Seq<u128>, t: Seq<u128>)
    requires
        s.to_multiset() == t.to_multiset(),
    ensures
        sum_of(s) == sum_of(t),
    decreases s.len(),
{
    s.to_multiset_ensures();
    t.to_multiset_ensures();
    if s.len() > 0 {
        let last = s.len() - 1;
        let x = s[last];
        assert(s.contains(x));
        assert(t.to_multiset().count(x) > 0);
        let i = choose|i: int| 0 <= i < t.len() && t[i] == x;
        assert(s.remove(last) == s.drop_last());
        assert(s.remove(last).to_multiset() == s.to_multiset().remove(x));
        assert(t.remove(i).to_multiset() == t.to_multiset().remove(x));
        lemma_sum_of_ignores_order(s.drop_last(), t.remove(i));
        lemma_sum_of_remove(t, i);
    }
}

/// No statistic depends on the order of the values.
pub proof fn lemma_statistics_ignore_order(s: Seq<u128>, t: Seq<u128>)
    requires
        s.to_multiset() == t.to_multiset(),
    ensures
        s.len() == t.len(),
        forall|p: nat| percentile_of(s, p) == percentile_of(t, p),
        mean_of(s) == mean_of(t),
        min_of(s) == min_of(t),
        max_of(s) == max_of(t),
{
    s.to_multiset_ensures();
    t.to_multiset_ensures();
    lemma_sorted_ignores_order(s, t);
    lemma_sum_of_ignores_order(s, t);
    if s.len() > 0 {
        lemma_extremes_are_ends_of_sorted(s);
        lemma_extremes_are_ends_of_sorted(t);
    }
}

/// Where no value exceeds a bound, neither does an extreme or the mean.
pub proof fn lemma_statistics_within_bound(s: Seq<u128>, bound: u128)
    requires
        forall|i: int| 0 <= i < s.len() ==> s[i] <= bound,
    ensures
        min_of(s) <= bound,
        max_of(s) <= bound,
        mean_of(s) <= bound,
{
    if s.len() > 0 {
        lemma_max_of_bounds(s);
        lemma_mean_within_extremes(s);
        let at = choose|i: int| 0 <= i < s.len() && s[i] == max_of(s);
        assert(s[at] <= bound);
    }
}

/// `slice::sort` on the vector: afterwards it holds the same values, each
/// as often as before, in ascending order.
#[verifier::external_body]
fn sort_ascending(values: &mut Vec<u128>)
    ensures
        final(values)@.to_multiset() == old(values)@.to_multiset(),
        ascending(final(values)@),
{
    values.sort();
}

/// The nearest-rank percentile `p` of `values`; zero where there are none.
pub fn percentile(values: Vec<u128>, p: u32) -> (value: u128)
    ensures
        value == percentile_of(values@, p as nat),
{
    let mut values = values;
    let ghost given = values@;
    if values.len() == 0 {
        return 0;
    }
    sort_ascending(&mut values);
    proof {
        lemma_ascending_arrangement_is_sorted(given, values@);
        lemma_sorted_rearranges(given);
    }
    let count: u128 = values.len() as u128;
    assert(p as nat * count as nat <= u128::MAX) by (nonlinear_arith)
        requires
            p <= u32::MAX,
            count <= u64::MAX,
    ;
    let index: u128 = (p as u128 * count) / 100;
    if index < count {
        values[index as usize]
    } else {
        values[values.len() - 1]
    }
}

/// The largest of `values`; zero where there are none.
pub fn maximum(values: &Vec<u128>) -> (value: u128)
    ensures
        value == max_of(values@),
{
    let mut best: u128 = 0;
    let mut i: usize = 0;
    while i < values.len()
        invariant
            i <= values@.len(),
            best == max_of(values@.take(i as int)),
        decreases values@.len() - i,
    {
        assert(values@.take(i as int + 1).drop_last() == values@.take(i as int));
        if values[i] > best {
            best = values[i];
        }
        i = i + 1;
    }
    assert(values@.take(i as int) == values@);
    best
}

/// The smallest of `values`; zero where there are none.
pub fn minimum(values: &Vec<u128>) -> (value: u128)
    ensures
        value == min_of(values@),
{
    if values.len() == 0 {
        return 0;
    }
    let mut best: u128 = values[0];
    let mut i: usize = 1;
    assert(values@.take(1).len() == 1);
    while i < values.len()
        invariant
            1 <= i <= values@.len(),
            best == min_of(values@.take(i as int)),
        decreases values@.len() - i,
    {
        assert(values@.take(i as int + 1).drop_last() == values@.take(i as int));
        if values[i] < best {
            best = values[i];
        }
        i = i + 1;
    }
    assert(values@.take(i as int) == values@);
    best
}

/// The mean of `values`, rounded down; zero where there are none.
///
/// The sum is never formed: the mean is carried along as a quotient and a
/// remainder, so that no sequence of values overflows.
pub fn mean(values: &Vec<u128>) -> (value: u128)
    ensures
        value == mean_of(values@),
{
    let count: u128 = values.len() as u128;
    if count == 0 {
        return 0;
    }
    let mut quotient: u128 = 0;
    let mut remainder: u128 = 0;
    let mut i: usize = 0;
    while i < values.len()
        invariant
            i <= values@.len(),
            count == values@.len(),
            count > 0,
            remainder < count,
            quotient * count + remainder == sum_of(values@.take(i as int)),
        decreases values@.len() - i,
    {
        let x: u128 = values[i];
        let whole: u128 = x / count;
        let rest: u128 = x % count;
        let carried: u128 = remainder + rest;
        let ghost seen = values@.take(i as int + 1);
        proof {
            assert(seen.drop_last() == values@.take(i as int));
            assert(seen.last() == x);
            assert forall|k: int| 0 <= k < seen.len() implies seen[k] <= u128::MAX by {}
            lemma_sum_of_bounded(seen, u128::MAX as nat);
            let total = sum_of(seen);
            let step: nat = if carried >= count { 1 } else { 0 };
            let next = quotient as nat + whole as nat + step;
            assert(x == whole * count + rest) by (nonlinear_arith)
                requires
                    whole == x / count,
                    rest == x % count,
                    count > 0,
            ;
            assert(next * count + (carried - step * count) == total) by (nonlinear_arith)
                requires
                    next == quotient as nat + whole as nat + step,
                    quotient * count + remainder + x == total,
                    x == whole * count + rest,
                    carried == remainder + rest,
            ;
            assert(next <= u128::MAX) by (nonlinear_arith)
                requires
                    next * count + (carried - step * count) == total,
                    carried - step * count >= 0,
                    total <= seen.len() * (u128::MAX as nat),
                    seen.len() <= count,
                    count > 0,
            ;
        }
        if carried >= count {
            quotient = quotient + whole + 1;
            remainder = carried - count;
        } else {
            quotient = quotient + whole;
            remainder = carried;
        }
        i = i + 1;
    }
    proof {
        assert(values@.take(i as int) == values@);
        let total = sum_of(values@);
        assert(total / (count as nat) == quotient) by (nonlinear_arith)
            requires
                quotient * count + remainder == total,
                remainder < count,
                count > 0,
        ;
    }
    quotient
}

/// The values, each in 128 bits.
pub(crate) fn widen<T: Copy>(values: &Vec<T>) -> (wide: Vec<u128>) where u128: From<T>
    requires
        <u128 as FromSpec<T>>::obeys_from_spec(),
    ensures
        wide@ == values@.map_values(|x: T| <u128 as FromSpec<T>>::from_spec(x)),
{
    let mut wide: Vec<u128> = Vec::new();
    let mut i: usize = 0;
    while i < values.len()
        invariant
            i <= values@.len(),
            <u128 as FromSpec<T>>::obeys_from_spec(),
            wide@ == values@.take(i as int).map_values(
                |x: T| <u128 as FromSpec<T>>::from_spec(x),
            ),
        decreases values@.len() - i,
    {
        wide.push(u128::from(values[i]));
        i = i + 1;
    }
    assert(values@.take(i as int) == values@);
    wide
}

/// `a * scale / b`, rounded down; zero where `b` is zero.
pub fn ratio(a: usize, scale: u64, b: u128) -> (value: u128)
    ensures
        value == scaled_ratio(a as nat, scale as nat, b as nat),
{
    if b == 0 {
        return 0;
    }
    assert(a as u128 * scale as u128 <= u128::MAX) by (nonlinear_arith)
        requires
            a <= u64::MAX,
            scale <= u64::MAX,
    ;
    (a as u128 * scale as u128) / b
}

} // verus!
