//! The functional strategy: bucket boundaries worked out for each sample.
//!
//! With a growth factor `exponent`, bucket `i` spans from `exponent^i` up to
//! `exponent^(i + 1)`. A sample's bucket index is the whole part of the
//! logarithm of `sample + 1` to the base `exponent`, and the bucket's minimum
//! is the whole part of `exponent` raised to that index.
//!
//! The logarithm and the power are double-precision arithmetic, and a
//! strategy is given them as two functions over bit patterns:
//! `logarithm(base, argument)` and `power(base, index)`, each taking the
//! pattern of the base and an integer and giving the pattern of the result.
//! What is decided here is what each of them is asked, and which integer its
//! answer stands for.

use vstd::prelude::*;
use crate::binary64::{
    at_most, exceeds_one, is_above_one, is_below, truncate, truncation, truncation_is_monotonic,
    truncation_stays_below,
};
use crate::strategy::Bucketing;

verus! {

/// A functional bucketing algorithm.
///
/// Bucketing is performed by a function, rather than by precomputed buckets:
/// there are `n` buckets for each power of `base` in magnitude, and the
/// growth factor from one bucket to the next is `base^(1/n)`. The factor is
/// held as the bit pattern of a double, next to the two functions that take
/// logarithms and powers to that base.
pub struct Functional<L: Fn(u64, u128) -> u64, P: Fn(u64, u64) -> u64> {
    exponent: u64,
    logarithm: L,
    power: P,
}

impl<L: Fn(u64, u128) -> u64, P: Fn(u64, u64) -> u64> Functional<L, P> {
    /// The arithmetic can be asked for every logarithm and every power to
    /// the base of the growth factor.
    #[verifier::type_invariant]
    spec fn answers(self) -> bool {
        &&& forall|argument: u128| call_requires(self.logarithm, (self.exponent, argument))
        &&& forall|index: u64| call_requires(self.power, (self.exponent, index))
    }

    /// The bit pattern of the growth factor.
    pub closed spec fn pattern(&self) -> u64 {
        self.exponent
    }

    /// The function that takes the logarithms.
    pub closed spec fn logarithm(&self) -> L {
        self.logarithm
    }

    /// The function that takes the powers.
    pub closed spec fn power(&self) -> P {
        self.power
    }

    /// The growth factor is larger than one, so that the boundaries grow
    /// with the index.
    pub open spec fn grows(&self) -> bool {
        exceeds_one(self.pattern())
    }

    /// `index` is a bucket index of `sample`: the whole part of something
    /// that the logarithm may answer when asked for `sample + 1`.
    pub open spec fn indexes(&self, sample: u64, index: u64) -> bool {
        exists|answer: u64|
            #[trigger] call_ensures(
                self.logarithm(),
                (self.pattern(), (sample + 1) as u128),
                answer,
            ) && index == truncation(answer)
    }

    /// `minimum` is a minimum of the bucket at `index`: the whole part of
    /// something that the power may answer when asked for `index`.
    pub open spec fn starts(&self, index: u64, minimum: u64) -> bool {
        exists|answer: u64|
            #[trigger] call_ensures(self.power(), (self.pattern(), index), answer) && minimum
                == truncation(answer)
    }

    /// `minimum` is a minimum of the bucket that `sample` falls into.
    ///
    /// Zero is in the bucket that starts at zero, with no arithmetic done.
    /// Any other sample is given its index, and the index its minimum.
    pub open spec fn maps(&self, sample: u64, minimum: u64) -> bool {
        if sample == 0 {
            minimum == 0
        } else {
            exists|index: u64| #[trigger]
                self.indexes(sample, index) && self.starts(index, minimum)
        }
    }

    /// A functional bucketing with the given growth factor, which takes its
    /// logarithms and powers with the given functions.
    pub fn with_arithmetic(exponent: u64, logarithm: L, power: P) -> (bucketing: Self)
        requires
            forall|argument: u128| call_requires(logarithm, (exponent, argument)),
            forall|index: u64| call_requires(power, (exponent, index)),
        ensures
            bucketing.pattern() == exponent,
            bucketing.logarithm() == logarithm,
            bucketing.power() == power,
    {
        Functional { exponent, logarithm, power }
    }

    /// The bit pattern of the growth factor.
    pub fn exponent_bits(&self) -> (exponent: u64)
        ensures
            exponent == self.pattern(),
    {
        self.exponent
    }

    /// Whether the growth factor is larger than one. With any other factor
    /// the buckets are of no use.
    pub fn is_growing(&self) -> (growing: bool)
        ensures
            growing == self.grows(),
    {
        is_above_one(self.exponent)
    }

    /// Maps a sample to a "bucket index" that it belongs in.
    /// A "bucket index" is the consecutive integer index of each bucket, useful as a
    /// mathematical concept, even though the internal representation is stored and
    /// sent using the minimum value in each bucket.
    pub fn sample_to_bucket_index(&self, sample: u64) -> (index: u64)
        ensures
            self.indexes(sample, index),
    {
        proof {
            use_type_invariant(self);
        }
        let argument: u128 = sample as u128 + 1;
        let answer: u64 = (self.logarithm)(self.exponent, argument);
        assert(call_ensures(self.logarithm(), (self.pattern(), (sample + 1) as u128), answer));
        truncate(answer)
    }

    /// Determines the minimum value of a bucket, given a bucket index.
    pub fn bucket_index_to_bucket_minimum(&self, index: u64) -> (minimum: u64)
        ensures
            self.starts(index, minimum),
    {
        proof {
            use_type_invariant(self);
        }
        let answer: u64 = (self.power)(self.exponent, index);
        assert(call_ensures(self.power(), (self.pattern(), index), answer));
        truncate(answer)
    }
}

impl<L: Fn(u64, u128) -> u64, P: Fn(u64, u64) -> u64> Bucketing for Functional<L, P> {
    /// Get the bucket's minimum value the sample falls into.
    fn sample_to_bucket_minimum(&self, sample: u64) -> (minimum: u64)
        ensures
            self.maps(sample, minimum),
    {
        if sample == 0 {
            return 0;
        }
        let index: u64 = self.sample_to_bucket_index(sample);
        self.bucket_index_to_bucket_minimum(index)
    }

    /// Bucket ranges for functional bucketing are not precomputed: there is
    /// no table to hand out, and no call of this can be in order.
    fn ranges(&self) -> (table: &[u64]) {
        vstd::pervasive::unreached()
    }
}

/// Zero maps to zero, whatever the growth factor and whatever the
/// arithmetic.
pub proof fn zero_maps_to_zero<L: Fn(u64, u128) -> u64, P: Fn(u64, u64) -> u64>(
    bucketing: Functional<L, P>,
    minimum: u64,
)
    requires
        bucketing.maps(0, minimum),
    ensures
        minimum == 0,
{
}

/// Where the logarithm and the power keep the order of what they are asked
/// for, a larger sample never falls into a bucket with a smaller minimum.
pub proof fn minimum_is_monotonic<L: Fn(u64, u128) -> u64, P: Fn(u64, u64) -> u64>(
    bucketing: Functional<L, P>,
    smaller: u64,
    larger: u64,
    low: u64,
    high: u64,
)
    requires
        smaller <= larger,
        bucketing.maps(smaller, low),
        bucketing.maps(larger, high),
        forall|x: u128, y: u128, a: u64, b: u64|
            0 < x <= y && #[trigger] call_ensures(
                bucketing.logarithm(),
                (bucketing.pattern(), x),
                a,
            ) && #[trigger] call_ensures(bucketing.logarithm(), (bucketing.pattern(), y), b)
                ==> at_most(a, b),
        forall|i: u64, j: u64, a: u64, b: u64|
            i <= j && #[trigger] call_ensures(bucketing.power(), (bucketing.pattern(), i), a)
                && #[trigger] call_ensures(bucketing.power(), (bucketing.pattern(), j), b)
                ==> at_most(a, b),
    ensures
        low <= high,
{
    if smaller != 0 {
        let base = bucketing.pattern();
        let first = choose|index: u64| #[trigger]
            bucketing.indexes(smaller, index) && bucketing.starts(index, low);
        let second = choose|index: u64| #[trigger]
            bucketing.indexes(larger, index) && bucketing.starts(index, high);
        let first_answer = choose|answer: u64|
            #[trigger] call_ensures(
                bucketing.logarithm(),
                (base, (smaller + 1) as u128),
                answer,
            ) && first == truncation(answer);
        let second_answer = choose|answer: u64|
            #[trigger] call_ensures(bucketing.logarithm(), (base, (larger + 1) as u128), answer)
                && second == truncation(answer);
        truncation_is_monotonic(first_answer, second_answer);
        let low_answer = choose|answer: u64|
            #[trigger] call_ensures(bucketing.power(), (base, first), answer) && low
                == truncation(answer);
        let high_answer = choose|answer: u64|
            #[trigger] call_ensures(bucketing.power(), (base, second), answer) && high
                == truncation(answer);
        truncation_is_monotonic(low_answer, high_answer);
    }
}

/// Where every power that may be answered for the index of a sample is a
/// number below `sample + 1`, the minimum is no larger than the sample.
pub proof fn minimum_is_at_most_the_sample<L: Fn(u64, u128) -> u64, P: Fn(u64, u64) -> u64>(
    bucketing: Functional<L, P>,
    sample: u64,
    minimum: u64,
)
    requires
        bucketing.maps(sample, minimum),
        forall|index: u64, answer: u64|
            bucketing.indexes(sample, index) && #[trigger] call_ensures(
                bucketing.power(),
                (bucketing.pattern(), index),
                answer,
            ) ==> is_below(answer, (sample + 1) as nat),
    ensures
        minimum <= sample,
{
    if sample != 0 {
        let index = choose|index: u64| #[trigger]
            bucketing.indexes(sample, index) && bucketing.starts(index, minimum);
        let answer = choose|answer: u64|
            #[trigger] call_ensures(bucketing.power(), (bucketing.pattern(), index), answer)
                && minimum == truncation(answer);
        truncation_stays_below(answer, (sample + 1) as nat);
    }
}

/// Where the arithmetic has one answer to each question, a minimum that has
/// the bucket index of its sample maps to itself.
pub proof fn minimum_maps_to_itself<L: Fn(u64, u128) -> u64, P: Fn(u64, u64) -> u64>(
    bucketing: Functional<L, P>,
    sample: u64,
    index: u64,
    minimum: u64,
    again: u64,
)
    requires
        bucketing.indexes(sample, index),
        bucketing.starts(index, minimum),
        bucketing.indexes(minimum, index),
        bucketing.maps(minimum, again),
        forall|x: u128, a: u64, b: u64|
            #[trigger] call_ensures(bucketing.logarithm(), (bucketing.pattern(), x), a)
                && #[trigger] call_ensures(bucketing.logarithm(), (bucketing.pattern(), x), b)
                ==> a == b,
        forall|i: u64, a: u64, b: u64|
            #[trigger] call_ensures(bucketing.power(), (bucketing.pattern(), i), a)
                && #[trigger] call_ensures(bucketing.power(), (bucketing.pattern(), i), b) ==> a
                == b,
    ensures
        again == minimum,
{
    if minimum != 0 {
        let base = bucketing.pattern();
        let second = choose|second: u64| #[trigger]
            bucketing.indexes(minimum, second) && bucketing.starts(second, again);
        let asked = choose|answer: u64|
            #[trigger] call_ensures(bucketing.logarithm(), (base, (minimum + 1) as u128), answer)
                && index == truncation(answer);
        let asked_again = choose|answer: u64|
            #[trigger] call_ensures(bucketing.logarithm(), (base, (minimum + 1) as u128), answer)
                && second == truncation(answer);
        assert(asked == asked_again);
        let raised = choose|answer: u64|
            #[trigger] call_ensures(bucketing.power(), (base, index), answer) && minimum
                == truncation(answer);
        let raised_again = choose|answer: u64|
            #[trigger] call_ensures(bucketing.power(), (base, second), answer) && again
                == truncation(answer);
        assert(raised == raised_again);
    }
}

} // verus!
