//! A validated inclusive interval.
use vstd::prelude::*;

verus! {

/// An inclusive interval `[min, max]` with `min <= max`.
#[derive(Debug, Copy, Clone, Eq, PartialEq, Hash)]
pub struct Range<T> {
    min: T,
    max: T,
}

/// The bounds handed to `Range::new` when `min > max`.
#[derive(Debug, Copy, Clone, Eq, PartialEq)]
pub struct RangeError<T> {
    provided_min: T,
    provided_max: T,
}

impl<T> Range<T> {
    pub closed spec fn lo(&self) -> T {
        self.min
    }

    pub closed spec fn hi(&self) -> T {
        self.max
    }

    /// The lower bound.
    pub fn min(&self) -> (r: &T)
        ensures
            *r == self.lo(),
    {
        &self.min
    }

    /// The upper bound.
    pub fn max(&self) -> (r: &T)
        ensures
            *r == self.hi(),
    {
        &self.max
    }
}

impl Range<char> {
    /// Builds the character interval `[min, max]`; fails, handing both
    /// bounds back, when `min > max`.
    pub fn new(min: char, max: char) -> (r: Result<Self, RangeError<char>>)
        ensures
            r is Ok <==> min <= max,
            r matches Ok(g) ==> g.lo() == min && g.hi() == max,
            r matches Err(e) ==> e.min_given() == min && e.max_given() == max,
    {
        if min <= max {
            Ok(Range { min, max })
        } else {
            Err(RangeError { provided_min: min, provided_max: max })
        }
    }
}

impl Range<usize> {
    /// Builds the count interval `[min, max]`; fails, handing both bounds
    /// back, when `min > max`.
    pub fn new(min: usize, max: usize) -> (r: Result<Self, RangeError<usize>>)
        ensures
            r is Ok <==> min <= max,
            r matches Ok(g) ==> g.lo() == min && g.hi() == max,
            r matches Err(e) ==> e.min_given() == min && e.max_given() == max,
    {
        if min <= max {
            Ok(Range { min, max })
        } else {
            Err(RangeError { provided_min: min, provided_max: max })
        }
    }
}

impl<T> RangeError<T> {
    pub closed spec fn min_given(&self) -> T {
        self.provided_min
    }

    pub closed spec fn max_given(&self) -> T {
        self.provided_max
    }

    /// The lower bound that was refused.
    pub fn provided_min(&self) -> (r: &T)
        ensures
            *r == self.min_given(),
    {
        &self.provided_min
    }

    /// The upper bound that was refused.
    pub fn provided_max(&self) -> (r: &T)
        ensures
            *r == self.max_given(),
    {
        &self.provided_max
    }
}

} // verus!
