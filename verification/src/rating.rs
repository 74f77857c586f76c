//! Average ratings, in the form in which the index stores them.
//!
//! An average lies between the least and the greatest value of a rating.
//! It is stored as a `u64`: the range of rating values is mapped linearly
//! onto the range of `u64`, and the result is rounded down.

use crate::entities::{Rating, RatingContext, RatingView, RATING_VALUE_MAX, RATING_VALUE_MIN};
use crate::index::IndexedRatings;
use vstd::prelude::*;

verus! {

/// The number that stands for a difference of 1 between two averages: a
/// third of `u64::MAX`, as the range of rating values has the width 3.
pub const AVERAGE_UNIT: u64 = 0x5555_5555_5555_5555;

/// Whether a rating counts for the average in a context: it is a rating in
/// that context, its value is legal, and it is not archived.
pub open spec fn counts(rating: RatingView, context: RatingContext) -> bool {
    rating.context == context && rating.value.valid() && rating.archived_at is None
}

/// The sum of the values of the ratings of a list that count in a context.
pub open spec fn value_sum(ratings: Seq<RatingView>, context: RatingContext) -> int
    decreases ratings.len(),
{
    if ratings.len() == 0 {
        0
    } else {
        value_sum(ratings.drop_last(), context) + if counts(ratings.last(), context) {
            ratings.last().value.value as int
        } else {
            0
        }
    }
}

/// How many ratings of a list count in a context.
pub open spec fn value_count(ratings: Seq<RatingView>, context: RatingContext) -> int
    decreases ratings.len(),
{
    if ratings.len() == 0 {
        0
    } else {
        value_count(ratings.drop_last(), context) + if counts(ratings.last(), context) {
            1int
        } else {
            0int
        }
    }
}

/// The number that stands for an average of `sum / count`: by how much the
/// average lies above the least value of a rating, in units of
/// `AVERAGE_UNIT`, rounded down. Where nothing was rated, the average is 0.
pub open spec fn stored_average(sum: int, count: int) -> int {
    if count <= 0 {
        AVERAGE_UNIT * (0 - RATING_VALUE_MIN)
    } else {
        (AVERAGE_UNIT * (sum - RATING_VALUE_MIN * count)) / count
    }
}

/// What the index stores of the ratings of a place: for each context the
/// average of the ratings, and in total the mean of these six, rounded
/// down.
pub open spec fn stored_ratings(ratings: Seq<RatingView>) -> IndexedRatings {
    let of = |context: RatingContext|
        stored_average(value_sum(ratings, context), value_count(ratings, context));
    IndexedRatings {
        total: ((of(RatingContext::Diversity) + of(RatingContext::Fairness) + of(
            RatingContext::Humanity,
        ) + of(RatingContext::Renewable) + of(RatingContext::Solidarity) + of(
            RatingContext::Transparency,
        )) / 6) as u64,
        diversity: of(RatingContext::Diversity) as u64,
        fairness: of(RatingContext::Fairness) as u64,
        humanity: of(RatingContext::Humanity) as u64,
        renewable: of(RatingContext::Renewable) as u64,
        solidarity: of(RatingContext::Solidarity) as u64,
        transparency: of(RatingContext::Transparency) as u64,
    }
}

/// A quotient with a remainder: `(a * c + b) / c` is `a + b / c`.
proof fn lemma_div_parts(a: int, b: int, c: int)
    requires
        c > 0,
        a >= 0,
        b >= 0,
    ensures
        (a * c + b) / c == a + b / c,
{
    vstd::arithmetic::div_mod::lemma_fundamental_div_mod(b, c);
    let q = b / c;
    let r = b % c;
    assert(a * c + b == c * (a + q) + r) by (nonlinear_arith)
        requires
            b == c * q + r,
    ;
    vstd::arithmetic::div_mod::lemma_fundamental_div_mod_converse(a * c + b, c, a + q, r);
}

/// A stored average lies in the range of `u64`: the least value of a
/// rating is stored as 0, and the greatest as `u64::MAX`.
pub proof fn lemma_stored_average_bounds(sum: int, count: int)
    requires
        count > 0 ==> RATING_VALUE_MIN * count <= sum <= RATING_VALUE_MAX * count,
    ensures
        0 <= stored_average(sum, count) <= u64::MAX,
        count > 0 && sum == RATING_VALUE_MIN * count ==> stored_average(sum, count) == 0,
        count > 0 && sum == RATING_VALUE_MAX * count ==> stored_average(sum, count) == u64::MAX,
{
    if count > 0 {
        let x = sum + count;
        let k = AVERAGE_UNIT as int;
        assert(0 <= x <= 3 * count);
        assert(0 <= k * x <= k * (3 * count)) by (nonlinear_arith)
            requires
                0 <= x <= 3 * count,
                k >= 0,
        ;
        assert(k * (3 * count) == (3 * k) * count + 0) by (nonlinear_arith);
        lemma_div_parts(3 * k, 0, count);
        vstd::arithmetic::div_mod::lemma_div_is_ordered(k * x, k * (3 * count), count);
        vstd::arithmetic::div_mod::lemma_div_pos_is_pos(k * x, count);
        if sum == RATING_VALUE_MIN * count {
            assert(k * x == 0) by (nonlinear_arith)
                requires
                    x == 0,
            ;
        }
    }
}

/// A better average is stored as a greater number, or the same: where
/// `s1 / c1` is not above `s2 / c2`, the number stored for the first is
/// not above the one stored for the second. So places ranked by the
/// numbers stored are ranked by their averages.
pub proof fn lemma_stored_average_monotone(s1: int, c1: int, s2: int, c2: int)
    requires
        c1 > 0,
        c2 > 0,
        s1 * c2 <= s2 * c1,
    ensures
        stored_average(s1, c1) <= stored_average(s2, c2),
{
    let k = AVERAGE_UNIT as int;
    let a1 = k * (s1 - RATING_VALUE_MIN * c1);
    let a2 = k * (s2 - RATING_VALUE_MIN * c2);
    let q1 = a1 / c1;
    let q2 = a2 / c2;
    vstd::arithmetic::div_mod::lemma_fundamental_div_mod(a1, c1);
    vstd::arithmetic::div_mod::lemma_fundamental_div_mod(a2, c2);
    vstd::arithmetic::div_mod::lemma_mod_bound(a1, c1);
    vstd::arithmetic::div_mod::lemma_mod_bound(a2, c2);
    assert(RATING_VALUE_MIN == -1);
    assert(RATING_VALUE_MIN * c1 == -c1 && RATING_VALUE_MIN * c2 == -c2) by (nonlinear_arith)
        requires
            RATING_VALUE_MIN == -1,
    ;
    assert((s1 + c1) * c2 <= (s2 + c2) * c1) by (nonlinear_arith)
        requires
            s1 * c2 <= s2 * c1,
    ;
    assert(a1 * c2 <= a2 * c1) by (nonlinear_arith)
        requires
            (s1 + c1) * c2 <= (s2 + c2) * c1,
            a1 == k * (s1 + c1),
            a2 == k * (s2 + c2),
            k >= 0,
    ;
    assert(q1 * c1 <= a1);
    assert(q1 * c2 <= a2) by (nonlinear_arith)
        requires
            q1 * c1 <= a1,
            a1 * c2 <= a2 * c1,
            c1 > 0,
            c2 > 0,
    ;
    assert(q1 <= q2) by (nonlinear_arith)
        requires
            q1 * c2 <= a2,
            a2 == c2 * q2 + a2 % c2,
            0 <= a2 % c2 < c2,
            c2 > 0,
    ;
}

/// The number that stands for the average of the ratings of a list in one
/// context.
pub fn average_of(ratings: &Vec<Rating>, context: RatingContext) -> (q: u64)
    ensures
        q == stored_average(
            value_sum(ratings.deep_view(), context),
            value_count(ratings.deep_view(), context),
        ),
{
    let ghost all = ratings.deep_view();
    let mut sum: i128 = 0;
    let mut count: i128 = 0;
    let mut i: usize = 0;
    proof {
        assert(all.take(0) == Seq::<RatingView>::empty());
    }
    while i < ratings.len()
        invariant
            i <= ratings.len(),
            all == ratings.deep_view(),
            sum == value_sum(all.take(i as int), context),
            count == value_count(all.take(i as int), context),
            0 <= count <= i,
            -count <= sum <= 2 * count,
        decreases ratings.len() - i,
    {
        proof {
            assert(all.take(i as int + 1).drop_last() == all.take(i as int));
            assert(all.take(i as int + 1).last() == all[i as int]);
            assert(all[i as int] == ratings[i as int]@);
        }
        let rating = &ratings[i];
        if rating.context == context && rating.value.is_valid() && rating.archived_at.is_none() {
            sum = sum + rating.value.value as i128;
            count = count + 1;
        }
        i += 1;
    }
    proof {
        assert(all.take(all.len() as int) == all);
    }
    if count == 0 {
        return AVERAGE_UNIT;
    }
    let shifted: u128 = (sum + count) as u128;
    let count: u128 = count as u128;
    let whole: u128 = shifted / count;
    let part: u128 = shifted % count;
    proof {
        let k = AVERAGE_UNIT as int;
        vstd::arithmetic::div_mod::lemma_fundamental_div_mod(shifted as int, count as int);
        vstd::arithmetic::div_mod::lemma_div_is_ordered(
            shifted as int,
            3 * (count as int),
            count as int,
        );
        lemma_div_parts(3, 0, count as int);
        assert(0 <= whole <= 3);
        assert(k * part <= k * count) by (nonlinear_arith)
            requires
                0 <= part <= count,
                k >= 0,
        ;
        assert(k * shifted == (k * whole) * count + k * part) by (nonlinear_arith)
            requires
                shifted == count * whole + part,
        ;
        assert(0 <= k * part) by (nonlinear_arith)
            requires
                part >= 0,
                k >= 0,
        ;
        lemma_div_parts(k * whole, k * part, count as int);
        lemma_stored_average_bounds(sum as int, count as int);
        assert(sum - (-1) * count == shifted);
    }
    let q: u128 = (AVERAGE_UNIT as u128) * whole + ((AVERAGE_UNIT as u128) * part) / count;
    q as u64
}

/// What the index stores of the ratings of a place.
pub fn avg_ratings(ratings: &Vec<Rating>) -> (r: IndexedRatings)
    ensures
        r == stored_ratings(ratings.deep_view()),
{
    let diversity = average_of(ratings, RatingContext::Diversity);
    let fairness = average_of(ratings, RatingContext::Fairness);
    let humanity = average_of(ratings, RatingContext::Humanity);
    let renewable = average_of(ratings, RatingContext::Renewable);
    let solidarity = average_of(ratings, RatingContext::Solidarity);
    let transparency = average_of(ratings, RatingContext::Transparency);
    let sum: u128 = diversity as u128 + fairness as u128 + humanity as u128 + renewable as u128
        + solidarity as u128 + transparency as u128;
    IndexedRatings {
        total: (sum / 6) as u64,
        diversity,
        fairness,
        humanity,
        renewable,
        solidarity,
        transparency,
    }
}

} // verus!
