//! The rating aggregate: a camp's mean review rating, kept exactly.
//!
//! The mean of the integer ratings is stored as the pair (sum, count)
//! rather than as a quotient, so no precision is lost and the stored value
//! can be compared exactly. A camp with no reviews has no aggregate at all
//! (`None` in the camp record): an empty review set never yields a number.

use vstd::prelude::*;

use crate::review::ReviewView;

verus! {

/// The exact arithmetic mean `sum / count` of the ratings of a non-empty
/// review set, kept as numerator and denominator.
#[derive(Clone, Copy, Debug, PartialEq, Eq, Structural)]
pub struct MeanRating {
    pub sum: i128,
    pub count: usize,
}

impl MeanRating {
    /// A valid aggregate covers at least one review, and its sum is what a
    /// `count`-element set of `i32` ratings can reach.
    pub open spec fn wf(self) -> bool {
        &&& self.count > 0
        &&& (self.count as int) * (i32::MIN as int) <= self.sum as int
        &&& self.sum as int <= (self.count as int) * (i32::MAX as int)
    }

    /// Whether the mean is exactly the whole number `value`, i.e. whether
    /// `sum / count == value` over the rationals.
    pub open spec fn spec_is_exactly(self, value: i64) -> bool {
        self.sum as int == (value as int) * (self.count as int)
    }

    /// Decide whether the mean is exactly the whole number `value`.
    pub fn is_exactly(&self, value: i64) -> (r: bool)
        requires
            self.wf(),
        ensures
            r == self.spec_is_exactly(value),
    {
        if value > i32::MAX as i64 {
            proof {
                lemma_off_scale_value(*self, value);
            }
            false
        } else if value < i32::MIN as i64 {
            proof {
                lemma_off_scale_value(*self, value);
            }
            false
        } else {
            proof {
                lemma_small_product(value as int, self.count as int);
            }
            let product: i128 = (value as i128) * (self.count as i128);
            self.sum == product
        }
    }
}

/// A whole number beyond the `i32` range can never be the mean of `i32`
/// ratings.
proof fn lemma_off_scale_value(m: MeanRating, value: i64)
    requires
        m.wf(),
        value > i32::MAX || value < i32::MIN,
    ensures
        !m.spec_is_exactly(value),
{
    let c = m.count as int;
    if value > i32::MAX {
        assert((value as int) * c > (i32::MAX as int) * c) by (nonlinear_arith)
            requires
                c > 0,
                value > i32::MAX,
        ;
        assert((i32::MAX as int) * c == c * (i32::MAX as int));
    } else {
        assert((value as int) * c < (i32::MIN as int) * c) by (nonlinear_arith)
            requires
                c > 0,
                value < i32::MIN,
        ;
        assert((i32::MIN as int) * c == c * (i32::MIN as int));
    }
}

/// A product of a rating-sized value and a count fits in `i128`.
proof fn lemma_small_product(value: int, count: int)
    requires
        i32::MIN <= value <= i32::MAX,
        0 <= count <= usize::MAX,
    ensures
        i128::MIN <= value * count <= i128::MAX,
{
    assert(value * count <= (i32::MAX as int) * count) by (nonlinear_arith)
        requires
            value <= i32::MAX,
            count >= 0,
    ;
    assert((i32::MIN as int) * count <= value * count) by (nonlinear_arith)
        requires
            i32::MIN <= value,
            count >= 0,
    ;
    assert((i32::MAX as int) * (usize::MAX as int) <= i128::MAX);
    assert((i32::MAX as int) * count <= (i32::MAX as int) * (usize::MAX as int))
        by (nonlinear_arith)
        requires
            0 <= count <= usize::MAX,
    ;
    assert((i32::MIN as int) * (usize::MAX as int) >= i128::MIN);
    assert((i32::MIN as int) * count >= (i32::MIN as int) * (usize::MAX as int))
        by (nonlinear_arith)
        requires
            0 <= count <= usize::MAX,
    ;
}

/// The sum of a list of ratings.
pub open spec fn sum_of(rs: Seq<i32>) -> int
    decreases rs.len(),
{
    if rs.len() == 0 {
        0
    } else {
        sum_of(rs.drop_last()) + rs.last() as int
    }
}

/// The sum of `n` ratings is bounded by what `n` values of type `i32`
/// can reach.
pub proof fn lemma_sum_of_bounds(rs: Seq<i32>)
    ensures
        rs.len() * (i32::MIN as int) <= sum_of(rs),
        sum_of(rs) <= rs.len() * (i32::MAX as int),
    decreases rs.len(),
{
    if rs.len() > 0 {
        lemma_sum_of_bounds(rs.drop_last());
        let n = rs.len() - 1;
        assert((n + 1) * (i32::MIN as int) == n * (i32::MIN as int) + i32::MIN);
        assert((n + 1) * (i32::MAX as int) == n * (i32::MAX as int) + i32::MAX);
    }
}

/// Aggregate a camp's review ratings, as fetched from storage, into the
/// value its rating column must hold: the exact mean for a non-empty
/// list, and no value at all — never a number — for an empty one.
pub fn aggregate_ratings(ratings: &Vec<i32>) -> (r: Option<MeanRating>)
    ensures
        ratings@.len() == 0 ==> r is None,
        ratings@.len() > 0 ==> (r matches Some(m) && m.sum == sum_of(ratings@) && m.count
            == ratings@.len() && m.wf()),
{
    let mut sum: i128 = 0;
    let mut i: usize = 0;
    while i < ratings.len()
        invariant
            i <= ratings@.len(),
            sum as int == sum_of(ratings@.take(i as int)),
        decreases ratings@.len() - i,
    {
        proof {
            assert(ratings@.take(i as int + 1) =~= ratings@.take(i as int).push(
                ratings@[i as int],
            ));
            assert(ratings@.take(i as int + 1).drop_last() =~= ratings@.take(i as int));
            lemma_sum_of_bounds(ratings@.take(i as int));
            assert((i as int) * (i32::MIN as int) >= (usize::MAX as int) * (i32::MIN as int))
                by (nonlinear_arith)
                requires
                    0 <= i as int <= usize::MAX,
            ;
            assert((i as int) * (i32::MAX as int) <= (usize::MAX as int) * (i32::MAX as int))
                by (nonlinear_arith)
                requires
                    0 <= i as int <= usize::MAX,
            ;
        }
        sum = sum + ratings[i] as i128;
        i += 1;
    }
    proof {
        assert(ratings@.take(ratings@.len() as int) =~= ratings@);
    }
    if ratings.len() == 0 {
        None
    } else {
        proof {
            lemma_sum_of_bounds(ratings@);
        }
        Some(MeanRating { sum, count: ratings.len() })
    }
}

/// The order the featured listing sorts by, largest first: a missing
/// rating sorts before every number (as the storage layer's descending
/// order with nulls first does), and two present ratings compare as exact
/// rationals, `a.sum / a.count >= b.sum / b.count` cleared of
/// denominators.
pub open spec fn rating_ge(a: Option<MeanRating>, b: Option<MeanRating>) -> bool {
    match (a, b) {
        (None, _) => true,
        (Some(_), None) => false,
        (Some(x), Some(y)) => (x.sum as int) * (y.count as int) >= (y.sum as int) * (x.count
            as int),
    }
}

/// A present, well-formed rating.
pub open spec fn opt_rating_wf(a: Option<MeanRating>) -> bool {
    a matches Some(m) ==> m.wf()
}

/// The featured order is total.
pub proof fn lemma_rating_ge_total(a: Option<MeanRating>, b: Option<MeanRating>)
    ensures
        rating_ge(a, b) || rating_ge(b, a),
{
}

/// The featured order is transitive.
pub proof fn lemma_rating_ge_trans(a: Option<MeanRating>, b: Option<MeanRating>, c: Option<
    MeanRating,
>)
    requires
        opt_rating_wf(a),
        opt_rating_wf(b),
        opt_rating_wf(c),
        rating_ge(a, b),
        rating_ge(b, c),
    ensures
        rating_ge(a, c),
{
    if a is Some && c is Some {
        let x = a.unwrap();
        let y = b.unwrap();
        let z = c.unwrap();
        let s1 = x.sum as int;
        let c1 = x.count as int;
        let s2 = y.sum as int;
        let c2 = y.count as int;
        let s3 = z.sum as int;
        let c3 = z.count as int;
        assert(s1 * c2 * c3 >= s2 * c1 * c3) by (nonlinear_arith)
            requires
                s1 * c2 >= s2 * c1,
                c3 > 0,
        ;
        assert(s2 * c3 * c1 >= s3 * c2 * c1) by (nonlinear_arith)
            requires
                s2 * c3 >= s3 * c2,
                c1 > 0,
        ;
        assert(s1 * c2 * c3 == s1 * c3 * c2 && s2 * c1 * c3 == s2 * c3 * c1 && s3 * c2 * c1 == s3
            * c1 * c2) by (nonlinear_arith);
        assert(s1 * c3 >= s3 * c1) by (nonlinear_arith)
            requires
                s1 * c3 * c2 >= s3 * c1 * c2,
                c2 > 0,
        ;
    }
}

/// Clearing denominators agrees with comparing (quotient, remainder)
/// pairs lexicographically.
proof fn lemma_rational_ge_by_divmod(
    s1: int,
    c1: int,
    q1: int,
    r1: int,
    s2: int,
    c2: int,
    q2: int,
    r2: int,
)
    requires
        c1 > 0,
        c2 > 0,
        s1 == q1 * c1 + r1,
        0 <= r1 < c1,
        s2 == q2 * c2 + r2,
        0 <= r2 < c2,
    ensures
        (s1 * c2 >= s2 * c1) == (q1 > q2 || (q1 == q2 && r1 * c2 >= r2 * c1)),
{
    let a = c1 * c2;
    assert(a > 0) by (nonlinear_arith)
        requires
            c1 > 0,
            c2 > 0,
            a == c1 * c2,
    ;
    assert(s1 * c2 - s2 * c1 == (q1 - q2) * a + (r1 * c2 - r2 * c1)) by (nonlinear_arith)
        requires
            s1 == q1 * c1 + r1,
            s2 == q2 * c2 + r2,
            a == c1 * c2,
    ;
    assert(r1 * c2 < a && r1 * c2 >= 0) by (nonlinear_arith)
        requires
            0 <= r1 < c1,
            c2 > 0,
            a == c1 * c2,
    ;
    assert(r2 * c1 < a && r2 * c1 >= 0) by (nonlinear_arith)
        requires
            0 <= r2 < c2,
            c1 > 0,
            a == c1 * c2,
    ;
    if q1 > q2 {
        assert((q1 - q2) * a >= a) by (nonlinear_arith)
            requires
                q1 - q2 >= 1,
                a > 0,
        ;
    } else if q1 < q2 {
        assert((q1 - q2) * a <= -a) by (nonlinear_arith)
            requires
                q1 - q2 <= -1,
                a > 0,
        ;
    } else {
        assert((q1 - q2) * a == 0) by (nonlinear_arith)
            requires
                q1 == q2,
        ;
    }
}

/// Floor division of a sum by a positive count: quotient and remainder
/// with `0 <= remainder < count`.
fn div_floor(sum: i128, count: usize) -> (r: (i128, u128))
    requires
        count > 0,
        i128::MIN < sum,
    ensures
        sum as int == r.0 * (count as int) + (r.1 as int),
        0 <= r.1 < count,
{
    let c = count as u128;
    if sum >= 0 {
        let s = sum as u128;
        let q = s / c;
        let r = s % c;
        proof {
            vstd::arithmetic::div_mod::lemma_fundamental_div_mod(s as int, c as int);
            vstd::arithmetic::div_mod::lemma_mod_division_less_than_divisor(s as int, c as int);
            vstd::arithmetic::div_mod::lemma_div_pos_is_pos(s as int, c as int);
            assert(q as int <= (c as int) * (q as int)) by (nonlinear_arith)
                requires
                    c as int >= 1,
                    q as int >= 0,
            ;
            assert((c as int) * (q as int) <= s as int);
            assert((q as int) * (count as int) == (c as int) * (q as int)) by (nonlinear_arith)
                requires
                    c as int == count as int,
            ;
        }
        (q as i128, r)
    } else {
        let m = (-sum) as u128;
        let q0 = m / c;
        let r0 = m % c;
        proof {
            vstd::arithmetic::div_mod::lemma_fundamental_div_mod(m as int, c as int);
            vstd::arithmetic::div_mod::lemma_mod_division_less_than_divisor(m as int, c as int);
            vstd::arithmetic::div_mod::lemma_div_pos_is_pos(m as int, c as int);
            assert(q0 as int <= (c as int) * (q0 as int)) by (nonlinear_arith)
                requires
                    c as int >= 1,
                    q0 as int >= 0,
            ;
            assert((c as int) * (q0 as int) <= m as int);
        }
        if r0 == 0 {
            proof {
                assert((-(q0 as int)) * (count as int) == -((c as int) * (q0 as int)))
                    by (nonlinear_arith)
                    requires
                        c as int == count as int,
                ;
            }
            (-(q0 as i128), 0)
        } else {
            proof {
                assert((-(q0 as int) - 1) * (count as int) == -((c as int) * (q0 as int)) - (c
                    as int)) by (nonlinear_arith)
                    requires
                        c as int == count as int,
                ;
            }
            (-(q0 as i128) - 1, c - r0)
        }
    }
}

/// Decide the featured order between two present ratings: exact rational
/// comparison, computed through floor division so that no intermediate
/// product can overflow.
pub fn rating_ge_exec(a: &MeanRating, b: &MeanRating) -> (res: bool)
    requires
        a.wf(),
        b.wf(),
    ensures
        res == ((a.sum as int) * (b.count as int) >= (b.sum as int) * (a.count as int)),
{
    proof {
        lemma_sum_above_i128_min(*a);
        lemma_sum_above_i128_min(*b);
    }
    let (q1, r1) = div_floor(a.sum, a.count);
    let (q2, r2) = div_floor(b.sum, b.count);
    proof {
        lemma_rational_ge_by_divmod(
            a.sum as int,
            a.count as int,
            q1 as int,
            r1 as int,
            b.sum as int,
            b.count as int,
            q2 as int,
            r2 as int,
        );
        assert((r1 as int) * (b.count as int) <= (usize::MAX as int) * (usize::MAX as int))
            by (nonlinear_arith)
            requires
                0 <= r1 as int <= usize::MAX as int,
                0 <= b.count as int <= usize::MAX as int,
        ;
        assert((r2 as int) * (a.count as int) <= (usize::MAX as int) * (usize::MAX as int))
            by (nonlinear_arith)
            requires
                0 <= r2 as int <= usize::MAX as int,
                0 <= a.count as int <= usize::MAX as int,
        ;
        assert((usize::MAX as int) * (usize::MAX as int) <= u128::MAX);
    }
    if q1 != q2 {
        q1 > q2
    } else {
        r1 * (b.count as u128) >= r2 * (a.count as u128)
    }
}

/// A well-formed rating's sum lies strictly above `i128::MIN`.
proof fn lemma_sum_above_i128_min(m: MeanRating)
    requires
        m.wf(),
    ensures
        i128::MIN < m.sum,
{
    let c = m.count as int;
    assert(c * (i32::MIN as int) >= (usize::MAX as int) * (i32::MIN as int)) by (nonlinear_arith)
        requires
            0 <= c <= usize::MAX,
    ;
    assert((usize::MAX as int) * (i32::MIN as int) > i128::MIN);
}

/// Decide the featured order between two optional ratings.
pub fn option_rating_ge(a: &Option<MeanRating>, b: &Option<MeanRating>) -> (res: bool)
    requires
        opt_rating_wf(*a),
        opt_rating_wf(*b),
    ensures
        res == rating_ge(*a, *b),
{
    match (a, b) {
        (None, _) => true,
        (Some(_), None) => false,
        (Some(x), Some(y)) => rating_ge_exec(x, y),
    }
}

/// How many of the reviews in `rs` belong to the camp with id `camp_id`.
pub open spec fn count_for(rs: Seq<ReviewView>, camp_id: i64) -> int
    decreases rs.len(),
{
    if rs.len() == 0 {
        0
    } else {
        count_for(rs.drop_last(), camp_id) + if rs.last().camp_id == camp_id {
            1int
        } else {
            0int
        }
    }
}

/// The sum of the ratings of the reviews in `rs` that belong to the camp
/// with id `camp_id`.
pub open spec fn sum_for(rs: Seq<ReviewView>, camp_id: i64) -> int
    decreases rs.len(),
{
    if rs.len() == 0 {
        0
    } else {
        sum_for(rs.drop_last(), camp_id) + if rs.last().camp_id == camp_id {
            rs.last().rating as int
        } else {
            0int
        }
    }
}

/// The aggregate a camp's rating column must hold once the aggregator has
/// settled: the exact mean over the camp's reviews in `rs`, or nothing at
/// all when the camp has none.
pub open spec fn mean_of(rs: Seq<ReviewView>, camp_id: i64) -> Option<MeanRating> {
    if count_for(rs, camp_id) == 0 {
        None
    } else {
        Some(
            MeanRating {
                sum: sum_for(rs, camp_id) as i128,
                count: count_for(rs, camp_id) as usize,
            },
        )
    }
}

/// The count is between zero and the number of reviews, and the sum is
/// bounded by what `count` ratings of type `i32` can reach.
pub proof fn lemma_count_sum_bounds(rs: Seq<ReviewView>, camp_id: i64)
    ensures
        0 <= count_for(rs, camp_id) <= rs.len(),
        count_for(rs, camp_id) * (i32::MIN as int) <= sum_for(rs, camp_id),
        sum_for(rs, camp_id) <= count_for(rs, camp_id) * (i32::MAX as int),
    decreases rs.len(),
{
    if rs.len() == 0 {
    } else {
        lemma_count_sum_bounds(rs.drop_last(), camp_id);
        let c = count_for(rs.drop_last(), camp_id);
        assert((c + 1) * (i32::MIN as int) == c * (i32::MIN as int) + i32::MIN);
        assert((c + 1) * (i32::MAX as int) == c * (i32::MAX as int) + i32::MAX);
    }
}

/// Absolute bounds on a camp's count and sum for review sets that fit in
/// a vector: whatever fits in memory has a sum far inside `i128`.
pub proof fn lemma_sum_for_range(rs: Seq<ReviewView>, camp_id: i64)
    requires
        rs.len() <= usize::MAX,
    ensures
        0 <= count_for(rs, camp_id) <= rs.len(),
        (usize::MAX as int) * (i32::MIN as int) <= sum_for(rs, camp_id),
        sum_for(rs, camp_id) <= (usize::MAX as int) * (i32::MAX as int),
{
    lemma_count_sum_bounds(rs, camp_id);
    let c = count_for(rs, camp_id);
    assert(c * (i32::MIN as int) >= (usize::MAX as int) * (i32::MIN as int)) by (nonlinear_arith)
        requires
            0 <= c <= usize::MAX,
    ;
    assert(c * (i32::MAX as int) <= (usize::MAX as int) * (i32::MAX as int)) by (nonlinear_arith)
        requires
            0 <= c <= usize::MAX,
    ;
}

/// The aggregate prescribed by [`mean_of`] is well formed whenever the
/// review set is small enough to sit in a vector.
pub proof fn lemma_mean_of_wf(rs: Seq<ReviewView>, camp_id: i64)
    requires
        rs.len() <= usize::MAX,
        mean_of(rs, camp_id) is Some,
    ensures
        mean_of(rs, camp_id).unwrap().wf(),
        mean_of(rs, camp_id).unwrap().sum == sum_for(rs, camp_id),
        mean_of(rs, camp_id).unwrap().count == count_for(rs, camp_id),
{
    lemma_count_sum_bounds(rs, camp_id);
    let c = count_for(rs, camp_id);
    assert(c * (i32::MIN as int) >= (usize::MAX as int) * (i32::MIN as int)) by (nonlinear_arith)
        requires
            0 <= c <= usize::MAX,
    ;
    assert(c * (i32::MAX as int) <= (usize::MAX as int) * (i32::MAX as int)) by (nonlinear_arith)
        requires
            0 <= c <= usize::MAX,
    ;
    assert((usize::MAX as int) * (i32::MIN as int) >= i128::MIN);
    assert((usize::MAX as int) * (i32::MAX as int) <= i128::MAX);
}

} // verus!
