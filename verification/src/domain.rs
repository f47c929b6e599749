//! Validated numeric domain types.
//!
//! Each wrapper is constructed through a validating factory and carries its
//! range as a type invariant, so an out-of-domain probability, variance,
//! mean or count can never reach a computation.

use vstd::prelude::*;

use crate::fixed::{COUNT_MAX, SCALE, VAL_MAX};

verus! {

/// The invariant that a validating constructor found violated.
#[derive(Clone, Copy, Debug, PartialEq, Eq)]
pub enum DomainError {
    /// A value that must be zero or above was below zero.
    NegativeValue,
    /// A probability or proportion was above one.
    AboveUnit,
    /// A magnitude too large for the fixed-point range, found either at
    /// construction or as the result of an arithmetic step.
    MagnitudeTooLarge,
    /// A count that must be at least one was zero.
    ZeroCount,
    /// A count beyond the supported range.
    CountTooLarge,
    /// A sample failed the normal-approximation adequacy condition.
    NormalApproximation,
    /// A chi-square cell's expected count was below five.
    ExpectedCountTooSmall,
    /// Degrees of freedom beyond the chi-square table.
    DegreesOfFreedomTooLarge,
    /// Fewer categories, groups, rows or columns than the test needs.
    TooFewGroups,
    /// A scale factor that must be positive (a standard error, a mean
    /// square, a rejection region, a quadrature total) was not.
    DegenerateScale,
}

/// A finite real number, stored in nanounits.
#[derive(Clone, Copy, Debug)]
pub struct FiniteReal {
    nanos: i64,
}

impl View for FiniteReal {
    type V = int;

    closed spec fn view(&self) -> int {
        self.nanos as int
    }
}

impl FiniteReal {
    #[verifier::type_invariant]
    spec fn inv(self) -> bool {
        -VAL_MAX <= self.nanos <= VAL_MAX
    }

    /// Validating factory: accepts exactly the representable magnitudes.
    pub fn from_nanos(nanos: i64) -> (r: Result<FiniteReal, DomainError>)
        ensures
            r is Ok <==> -VAL_MAX <= nanos <= VAL_MAX,
            r matches Ok(v) ==> v@ == nanos,
            !(-VAL_MAX <= nanos <= VAL_MAX) ==> r == Err::<FiniteReal, DomainError>(
                DomainError::MagnitudeTooLarge,
            ),
    {
        if -VAL_MAX <= nanos && nanos <= VAL_MAX {
            Ok(FiniteReal { nanos })
        } else {
            Err(DomainError::MagnitudeTooLarge)
        }
    }

    /// In-crate constructor for values already proved to be in range.
    pub(crate) fn new(nanos: i64) -> (r: FiniteReal)
        requires
            -VAL_MAX <= nanos <= VAL_MAX,
        ensures
            r@ == nanos,
    {
        FiniteReal { nanos }
    }

    /// The value in nanounits.
    pub fn nanos(&self) -> (r: i64)
        ensures
            r == self@,
            -VAL_MAX <= r <= VAL_MAX,
    {
        proof {
            use_type_invariant(&*self);
        }
        self.nanos
    }
}

/// A finite real number at or above zero, stored in nanounits.
#[derive(Clone, Copy, Debug)]
pub struct NonNegativeReal {
    nanos: i64,
}

impl View for NonNegativeReal {
    type V = int;

    closed spec fn view(&self) -> int {
        self.nanos as int
    }
}

impl NonNegativeReal {
    #[verifier::type_invariant]
    spec fn inv(self) -> bool {
        0 <= self.nanos <= VAL_MAX
    }

    /// Validating factory: accepts exactly the range from zero to the
    /// largest representable magnitude.
    pub fn from_nanos(nanos: i64) -> (r: Result<NonNegativeReal, DomainError>)
        ensures
            r is Ok <==> 0 <= nanos <= VAL_MAX,
            r matches Ok(v) ==> v@ == nanos,
            nanos < 0 ==> r == Err::<NonNegativeReal, DomainError>(DomainError::NegativeValue),
            nanos > VAL_MAX ==> r == Err::<NonNegativeReal, DomainError>(
                DomainError::MagnitudeTooLarge,
            ),
    {
        if nanos < 0 {
            Err(DomainError::NegativeValue)
        } else if nanos > VAL_MAX {
            Err(DomainError::MagnitudeTooLarge)
        } else {
            Ok(NonNegativeReal { nanos })
        }
    }

    /// In-crate constructor for values already proved to be in range.
    pub(crate) fn new(nanos: i64) -> (r: NonNegativeReal)
        requires
            0 <= nanos <= VAL_MAX,
        ensures
            r@ == nanos,
    {
        NonNegativeReal { nanos }
    }

    /// The value in nanounits.
    pub fn nanos(&self) -> (r: i64)
        ensures
            r == self@,
            0 <= r <= VAL_MAX,
    {
        proof {
            use_type_invariant(&*self);
        }
        self.nanos
    }
}

/// A real number in the closed unit interval, stored in nanounits;
/// the carrier of probabilities, proportions and p-values.
#[derive(Clone, Copy, Debug)]
pub struct UnitReal {
    nanos: i64,
}

impl View for UnitReal {
    type V = int;

    closed spec fn view(&self) -> int {
        self.nanos as int
    }
}

impl UnitReal {
    #[verifier::type_invariant]
    spec fn inv(self) -> bool {
        0 <= self.nanos <= SCALE
    }

    /// Validating factory: accepts exactly the range from zero to one.
    pub fn from_nanos(nanos: i64) -> (r: Result<UnitReal, DomainError>)
        ensures
            r is Ok <==> 0 <= nanos <= SCALE,
            r matches Ok(v) ==> v@ == nanos,
            nanos < 0 ==> r == Err::<UnitReal, DomainError>(DomainError::NegativeValue),
            nanos > SCALE ==> r == Err::<UnitReal, DomainError>(DomainError::AboveUnit),
    {
        if nanos < 0 {
            Err(DomainError::NegativeValue)
        } else if nanos > SCALE {
            Err(DomainError::AboveUnit)
        } else {
            Ok(UnitReal { nanos })
        }
    }

    /// In-crate constructor for values already proved to be in range.
    pub(crate) fn new(nanos: i64) -> (r: UnitReal)
        requires
            0 <= nanos <= SCALE,
        ensures
            r@ == nanos,
    {
        UnitReal { nanos }
    }

    /// The value in nanounits.
    pub fn nanos(&self) -> (r: i64)
        ensures
            r == self@,
            0 <= r <= SCALE,
    {
        proof {
            use_type_invariant(&*self);
        }
        self.nanos
    }
}

/// An integer count of at least one: sample sizes and degrees of freedom.
#[derive(Clone, Copy, Debug)]
pub struct PositiveCount {
    value: u64,
}

impl View for PositiveCount {
    type V = int;

    closed spec fn view(&self) -> int {
        self.value as int
    }
}

impl PositiveCount {
    #[verifier::type_invariant]
    spec fn inv(self) -> bool {
        1 <= self.value <= COUNT_MAX
    }

    /// Validating factory: accepts exactly the counts from one to the
    /// supported maximum.
    pub fn new(value: u64) -> (r: Result<PositiveCount, DomainError>)
        ensures
            r is Ok <==> 1 <= value <= COUNT_MAX,
            r matches Ok(v) ==> v@ == value,
            value == 0 ==> r == Err::<PositiveCount, DomainError>(DomainError::ZeroCount),
            value > COUNT_MAX ==> r == Err::<PositiveCount, DomainError>(
                DomainError::CountTooLarge,
            ),
    {
        if value == 0 {
            Err(DomainError::ZeroCount)
        } else if value > COUNT_MAX {
            Err(DomainError::CountTooLarge)
        } else {
            Ok(PositiveCount { value })
        }
    }

    /// In-crate constructor for counts already proved to be in range.
    pub(crate) fn new_checked(value: u64) -> (r: PositiveCount)
        requires
            1 <= value <= COUNT_MAX,
        ensures
            r@ == value,
    {
        PositiveCount { value }
    }

    /// The view of any count value is non-negative, whatever its
    /// provenance: the representation is an unsigned machine integer.
    pub proof fn lemma_view_nonneg(self)
        ensures
            self@ >= 0,
    {
    }

    /// The count itself.
    pub fn get(&self) -> (r: u64)
        ensures
            r == self@,
            1 <= r <= COUNT_MAX,
    {
        proof {
            use_type_invariant(&*self);
        }
        self.value
    }
}

} // verus!
