//! A stepped, inclusive range of values of one calendar unit.

use vstd::arithmetic::div_mod::{lemma_fundamental_div_mod, lemma_mod_multiples_basic};
use vstd::arithmetic::mul::lemma_mul_inequality;
use vstd::prelude::*;

verus! {

/// The set of values `{start, start + step, start + 2 * step, ...}` up to `end`.
pub ghost struct FieldView {
    pub start: int,
    pub end: int,
    pub step: int,
}

impl FieldView {
    pub open spec fn contains(self, v: int) -> bool {
        self.start <= v <= self.end && (v - self.start) % self.step == 0
    }

    /// A valid field over the domain `0..=max`.
    pub open spec fn valid(self, max: int) -> bool {
        0 <= self.start <= self.end <= max && self.step >= 1
    }

    /// The least value of the field.
    pub open spec fn least(self) -> int {
        self.start
    }

    /// The field of one value.
    pub open spec fn exact(v: int) -> FieldView {
        FieldView { start: v, end: v, step: 1 }
    }

    /// Every `step`-th value from `start` up to `end`.
    pub open spec fn stepped(start: int, end: int, step: int) -> FieldView {
        FieldView { start, end, step }
    }
}

/// A stepped range of values of a calendar unit whose values run from 0 to `N`.
#[derive(Clone, Copy, Debug)]
pub struct Component<const N: u8> {
    start: u8,
    end: u8,
    step: u8,
}

/// Error of a range that is empty, reaches past its domain, or has a zero step.
#[derive(Debug)]
pub struct Error;

impl<const N: u8> View for Component<N> {
    type V = FieldView;

    closed spec fn view(&self) -> FieldView {
        FieldView { start: self.start as int, end: self.end as int, step: self.step as int }
    }
}

impl<const N: u8> Component<N> {
    #[verifier::type_invariant]
    closed spec fn inv(self) -> bool {
        self.start <= self.end <= N && self.step >= 1
    }

    /// The field `start, start + step, ...` up to `end`; an error unless
    /// `start <= end <= N` and `step >= 1`.
    pub fn new(start: u8, end: u8, step: u8) -> (r: Result<Self, Error>)
        ensures
            r is Ok <==> (start <= end && end <= N && step >= 1),
            r is Ok ==> r->Ok_0@ == (FieldView {
                start: start as int,
                end: end as int,
                step: step as int,
            }),
    {
        if start <= end && end <= N && step >= 1 {
            Ok(Component { start, end, step })
        } else {
            Err(Error)
        }
    }

    /// The field holding 0 alone.
    pub fn exactly_zero() -> (r: Self)
        ensures
            r@ == (FieldView { start: 0, end: 0, step: 1 }),
    {
        Component { start: 0, end: 0, step: 1 }
    }

    /// The field holding `val` alone; an error if `val > N`.
    pub fn exactly(val: u8) -> (r: Result<Self, Error>)
        ensures
            r is Ok <==> val <= N,
            r is Ok ==> r->Ok_0@ == (FieldView { start: val as int, end: val as int, step: 1 }),
    {
        Self::new(val, val, 1)
    }

    /// Every value from `start` to `end`; an error unless `start <= end <= N`.
    pub fn between(start: u8, end: u8) -> (r: Result<Self, Error>)
        ensures
            r is Ok <==> (start <= end && end <= N),
            r is Ok ==> r->Ok_0@ == (FieldView {
                start: start as int,
                end: end as int,
                step: 1,
            }),
    {
        Self::new(start, end, 1)
    }

    /// Every value of the domain.
    pub fn every() -> (r: Self)
        ensures
            r@ == (FieldView { start: 0, end: N as int, step: 1 }),
    {
        Component { start: 0, end: N, step: 1 }
    }

    /// Every `step`-th value of the domain, from 0.
    pub fn every_step(step: u8) -> (r: Self)
        requires
            step >= 1,
        ensures
            r@ == (FieldView { start: 0, end: N as int, step: step as int }),
    {
        Component { start: 0, end: N, step }
    }

    /// The smallest value of the field.
    pub fn min_value(self) -> (r: u8)
        ensures
            r as int == self@.least(),
            self@.contains(r as int),
            forall|v: int| #[trigger] self@.contains(v) ==> r <= v,
            r <= N,
            self@.valid(N as int),
    {
        proof {
            use_type_invariant(&self);
            assert(0int % (self.step as int) == 0);
        }
        self.start
    }

    /// The smallest value of the field that is at least `lower_bound`, or `None` where every
    /// value of the field lies below it.
    pub fn min_value_bounded(self, lower_bound: u8) -> (r: Option<u8>)
        ensures
            match r {
                Some(v) => {
                    &&& self@.contains(v as int)
                    &&& lower_bound <= v <= N
                    &&& forall|w: int| #[trigger]
                        self@.contains(w) && lower_bound <= w ==> v <= w
                },
                None => forall|w: int| #[trigger] self@.contains(w) ==> w < lower_bound,
            },
            self@.valid(N as int),
    {
        proof {
            use_type_invariant(&self);
        }
        let start = self.start;
        let step = self.step;
        if lower_bound <= start {
            proof {
                assert(0int % (step as int) == 0);
            }
            return Some(start);
        }
        let bound_offset = lower_bound - start;
        let num_steps = div_ceil(bound_offset, step);
        proof {
            lemma_steps_reach(bound_offset as int, step as int, num_steps as int);
        }
        let min_value_offset = match num_steps.checked_mul(step) {
            Some(p) => p,
            None => {
                proof {
                    lemma_all_below(self@, bound_offset as int, num_steps as int, lower_bound as int);
                }
                return None;
            },
        };
        let min_value = match start.checked_add(min_value_offset) {
            Some(v) => v,
            None => {
                proof {
                    lemma_all_below(self@, bound_offset as int, num_steps as int, lower_bound as int);
                }
                return None;
            },
        };
        if min_value <= self.end {
            proof {
                lemma_mod_multiples_basic(num_steps as int, step as int);
                lemma_least_reaching(self@, bound_offset as int, num_steps as int, lower_bound as int);
            }
            Some(min_value)
        } else {
            proof {
                lemma_all_below(self@, bound_offset as int, num_steps as int, lower_bound as int);
            }
            None
        }
    }
}

impl<const N: u8> Default for Component<N> {
    /// Every value of the domain.
    fn default() -> (r: Self)
        ensures
            r@ == (FieldView { start: 0, end: N as int, step: 1 }),
    {
        Self::every()
    }
}

/// `lhs / rhs`, rounded up.
fn div_ceil(lhs: u8, rhs: u8) -> (r: u8)
    requires
        rhs >= 1,
    ensures
        r as int == lhs as int / rhs as int + if lhs as int % rhs as int != 0 {
            1int
        } else {
            0
        },
{
    proof {
        let q = lhs as int / rhs as int;
        let rm = lhs as int % rhs as int;
        lemma_fundamental_div_mod(lhs as int, rhs as int);
        assert(rm != 0 ==> q < 255) by (nonlinear_arith)
            requires
                lhs as int == rhs as int * q + rm,
                0 <= rm < rhs,
                lhs <= 255,
        ;
    }
    (lhs / rhs) + if lhs % rhs != 0 {
        1
    } else {
        0
    }
}

/// The rounded-up quotient `n` is the least number of steps that reaches `offset`.
proof fn lemma_steps_reach(offset: int, step: int, n: int)
    requires
        offset >= 1,
        step >= 1,
        n == offset / step + if offset % step != 0 {
            1int
        } else {
            0
        },
    ensures
        n >= 1,
        n * step >= offset,
        forall|j: int| 0 <= j < n ==> #[trigger] (j * step) < offset,
{
    lemma_fundamental_div_mod(offset, step);
    let q = offset / step;
    let rm = offset % step;
    assert(offset == step * q + rm);
    assert(0 <= rm < step);
    assert(q >= 0) by (nonlinear_arith)
        requires
            offset == step * q + rm,
            0 <= rm < step,
            offset >= 1,
            step >= 1,
    ;
    if q == 0 {
        assert(rm == offset) by (nonlinear_arith)
            requires
                offset == step * q + rm,
                q == 0,
        ;
    }
    assert(n >= 1);
    assert(n * step >= offset) by (nonlinear_arith)
        requires
            offset == step * q + rm,
            0 <= rm < step,
            n == q + if rm != 0 {
                1int
            } else {
                0
            },
    ;
    assert forall|j: int| 0 <= j < n implies #[trigger] (j * step) < offset by {
        lemma_mul_inequality(j, n - 1, step);
        assert((n - 1) * step < offset) by (nonlinear_arith)
            requires
                offset == step * q + rm,
                0 <= rm < step,
                offset >= 1,
                n == q + if rm != 0 {
                    1int
                } else {
                    0
                },
        ;
    }
}

/// Every value of the field at or above `start + offset` is reached in `n` steps or more.
proof fn lemma_steps_of(f: FieldView, offset: int, n: int, w: int)
    requires
        f.step >= 1,
        f.contains(w),
        w - f.start >= offset,
        forall|j: int| 0 <= j < n ==> #[trigger] (j * f.step) < offset,
    ensures
        w >= f.start + n * f.step,
{
    let k = (w - f.start) / f.step;
    lemma_fundamental_div_mod(w - f.start, f.step);
    assert(w - f.start == f.step * k);
    assert(k >= 0) by (nonlinear_arith)
        requires
            w - f.start == f.step * k,
            w - f.start >= 0,
            f.step >= 1,
    ;
    if k < n {
        assert(k * f.step < offset);
        assert(k * f.step == f.step * k) by (nonlinear_arith);
    }
    lemma_mul_inequality(n, k, f.step);
}

/// Where `start + n * step` lies beyond the field, no value of the field reaches the bound.
proof fn lemma_all_below(f: FieldView, offset: int, n: int, lower_bound: int)
    requires
        f.step >= 1,
        0 <= f.start <= f.end <= 255,
        offset == lower_bound - f.start,
        f.start + n * f.step > f.end,
        forall|j: int| 0 <= j < n ==> #[trigger] (j * f.step) < offset,
    ensures
        forall|w: int| #[trigger] f.contains(w) ==> w < lower_bound,
{
    assert forall|w: int| #[trigger] f.contains(w) implies w < lower_bound by {
        if w >= lower_bound {
            lemma_steps_of(f, offset, n, w);
        }
    }
}

/// `start + n * step` is the least value of the field at or above the bound.
proof fn lemma_least_reaching(f: FieldView, offset: int, n: int, lower_bound: int)
    requires
        f.step >= 1,
        offset == lower_bound - f.start,
        forall|j: int| 0 <= j < n ==> #[trigger] (j * f.step) < offset,
    ensures
        forall|w: int| #[trigger]
            f.contains(w) && lower_bound <= w ==> f.start + n * f.step <= w,
{
    assert forall|w: int| #[trigger] f.contains(w) && lower_bound <= w implies f.start + n
        * f.step <= w by {
        lemma_steps_of(f, offset, n, w);
    }
}

} // verus!
