//! Ranges of distances along a ray.
//!
//! A distance enters this library as a key: an `i64` that is smaller exactly
//! when the distance is (see [`crate::key`] for the keys of doubles). Nothing
//! here depends on how far apart two keys lie, only on their order.

use vstd::prelude::*;

verus! {

/// The keys from `min` to `max`. With `min > max` it holds none.
#[derive(Clone, Copy, Debug, PartialEq, Eq, Structural)]
pub struct Interval {
    min: i64,
    max: i64,
}

impl Interval {
    pub closed spec fn spec_min(&self) -> i64 {
        self.min
    }

    pub closed spec fn spec_max(&self) -> i64 {
        self.max
    }

    /// Whether `value` lies in the interval, the two bounds counted in.
    pub open spec fn spec_contains(&self, value: i64) -> bool {
        self.min() <= value <= self.max()
    }

    /// Whether `value` lies strictly between the two bounds.
    pub open spec fn spec_surrounds(&self, value: i64) -> bool {
        self.min() < value < self.max()
    }

    /// The bound that is nearest to `value`, or `value` itself where it lies inside.
    pub open spec fn spec_clamp(&self, value: i64) -> i64 {
        if value < self.min() {
            self.min()
        } else if value > self.max() {
            self.max()
        } else {
            value
        }
    }

    pub fn new(min: i64, max: i64) -> (interval: Self)
        ensures
            interval.min() == min,
            interval.max() == max,
    {
        Self { min, max }
    }

    /// An interval that holds no key at all.
    pub fn empty() -> (interval: Self)
        ensures
            interval.min() == i64::MAX,
            interval.max() == i64::MIN,
            forall|value: i64| !interval.contains(value),
    {
        Self::new(i64::MAX, i64::MIN)
    }

    #[verifier::when_used_as_spec(spec_contains)]
    pub fn contains(&self, value: i64) -> (inside: bool)
        ensures
            inside == self.contains(value),
    {
        self.min <= value && value <= self.max
    }

    #[verifier::when_used_as_spec(spec_surrounds)]
    pub fn surrounds(&self, value: i64) -> (inside: bool)
        ensures
            inside == self.surrounds(value),
    {
        self.min < value && value < self.max
    }

    #[verifier::when_used_as_spec(spec_clamp)]
    pub fn clamp(&self, value: i64) -> (clamped: i64)
        ensures
            clamped == self.clamp(value),
    {
        if value < self.min {
            self.min
        } else if value > self.max {
            self.max
        } else {
            value
        }
    }

    #[verifier::when_used_as_spec(spec_min)]
    pub fn min(&self) -> (min: i64)
        ensures
            min == self.min(),
    {
        self.min
    }

    #[verifier::when_used_as_spec(spec_max)]
    pub fn max(&self) -> (max: i64)
        ensures
            max == self.max(),
    {
        self.max
    }
}

impl Default for Interval {
    /// The empty interval.
    fn default() -> (interval: Self)
        ensures
            interval.min() == i64::MAX,
            interval.max() == i64::MIN,
    {
        Self::empty()
    }
}

/// What lies strictly inside an interval lies inside it, and is its own clamp.
pub proof fn lemma_surrounded_is_contained(interval: Interval, value: i64)
    requires
        interval.surrounds(value),
    ensures
        interval.contains(value),
        interval.clamp(value) == value,
{
}

/// Where the bounds are in order, a clamped key lies inside the interval, and
/// clamping it once more changes nothing.
pub proof fn lemma_clamp_is_contained(interval: Interval, value: i64)
    requires
        interval.min() <= interval.max(),
    ensures
        interval.contains(interval.clamp(value)),
        interval.clamp(interval.clamp(value)) == interval.clamp(value),
{
}

} // verus!
