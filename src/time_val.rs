//! A compact field value: one specific value of a unit, or every value.

use vstd::prelude::*;

verus! {

/// One value of a unit whose values run from 0 to `N - 1`.
#[derive(Clone, Copy, PartialEq, Eq, Debug)]
pub struct SpecificTime<const N: u8>(u8);

impl<const N: u8> View for SpecificTime<N> {
    type V = int;

    closed spec fn view(&self) -> int {
        self.0 as int
    }
}

impl<const N: u8> SpecificTime<N> {
    #[verifier::type_invariant]
    closed spec fn inv(self) -> bool {
        self.0 < N
    }

    /// The value `n`, taken modulo `N`.
    pub fn new(n: u8) -> (r: Self)
        requires
            N > 0,
        ensures
            r@ == n as int % N as int,
    {
        SpecificTime(n % N)
    }

    /// The value.
    pub fn get(self) -> (r: u8)
        ensures
            r as int == self@,
            r < N,
    {
        proof {
            use_type_invariant(&self);
        }
        self.0
    }
}

/// One specific value of a unit, or every value.
#[derive(Clone, Copy, PartialEq, Eq, Debug)]
pub enum TimeVal<const N: u8> {
    At(SpecificTime<N>),
    Every,
}

impl<const N: u8> Default for TimeVal<N> {
    fn default() -> (r: Self)
        ensures
            r is Every,
    {
        TimeVal::Every
    }
}

impl<const N: u8> TimeVal<N> {
    /// The value `n`, taken modulo `N`.
    pub fn at(n: u8) -> (r: Self)
        requires
            N > 0,
        ensures
            r is At,
            r->At_0@ == n as int % N as int,
    {
        TimeVal::At(SpecificTime::new(n))
    }

    /// Every value.
    pub fn every() -> (r: Self)
        ensures
            r is Every,
    {
        TimeVal::Every
    }

    /// The smallest value that satisfies this field value.
    pub open spec fn least(self) -> int {
        match self {
            TimeVal::At(t) => t@,
            TimeVal::Every => 0,
        }
    }

    /// Returns the smallest unit of time which satisfies this `TimeVal`.
    pub fn min_valid(self) -> (r: u8)
        ensures
            r as int == self.least(),
    {
        match self {
            TimeVal::At(t) => t.get(),
            TimeVal::Every => 0,
        }
    }
}

} // verus!
