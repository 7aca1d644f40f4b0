use vstd::prelude::*;

verus! {

/// A pending signed change to an amount of micro-CCD, kept apart from the
/// persisted value that it will later be applied to.
#[derive(Clone, Copy, Debug, PartialEq, Eq, Structural)]
pub enum AmountDelta {
    Positive(u64),
    Negative(u64),
}

/// Why a delta could not be formed or applied.
#[derive(Clone, Copy, Debug, PartialEq, Eq, Structural)]
pub enum AmountDeltaError {
    /// The result is above the largest amount.
    Overflow,
    /// The result is below zero.
    Underflow,
}

/// Whether an integer is a representable amount.
pub open spec fn is_amount(x: int) -> bool {
    0 <= x <= u64::MAX
}

/// Whether an integer can be held as a delta: its magnitude fits an amount.
pub open spec fn is_delta(x: int) -> bool {
    -(u64::MAX as int) <= x <= u64::MAX
}

impl AmountDelta {
    /// The signed change as an integer.
    pub open spec fn value(self) -> int {
        match self {
            AmountDelta::Positive(a) => a as int,
            AmountDelta::Negative(a) => -(a as int),
        }
    }

    /// The delta that changes nothing.
    pub fn new() -> (r: AmountDelta)
        ensures
            r.value() == 0,
    {
        AmountDelta::Positive(0)
    }

    /// The delta of the given signed value.
    fn of_value(v: i128) -> (r: AmountDelta)
        requires
            is_delta(v as int),
        ensures
            r == AmountDelta::of_spec(v as int),
            r.value() == v as int,
    {
        if v >= 0 {
            AmountDelta::Positive(v as u64)
        } else {
            AmountDelta::Negative((-v) as u64)
        }
    }

    /// The signed value as a machine integer.
    fn to_i128(self) -> (r: i128)
        ensures
            r as int == self.value(),
    {
        match self {
            AmountDelta::Positive(a) => a as i128,
            AmountDelta::Negative(a) => -(a as i128),
        }
    }

    /// Adds an amount to the delta.
    pub fn add_amount(self, amount: u64) -> (r: Result<AmountDelta, AmountDeltaError>)
        ensures
            is_delta(self.value() + amount) ==> r == Ok::<AmountDelta, AmountDeltaError>(
                AmountDelta::of_spec(self.value() + amount),
            ),
            !is_delta(self.value() + amount) ==> r == Err::<AmountDelta, AmountDeltaError>(
                AmountDeltaError::Overflow,
            ),
            r is Ok ==> r->Ok_0.value() == self.value() + amount,
    {
        let v = self.to_i128() + amount as i128;
        if v > u64::MAX as i128 {
            Err(AmountDeltaError::Overflow)
        } else {
            Ok(AmountDelta::of_value(v))
        }
    }

    /// Subtracts an amount from the delta.
    pub fn subtract_amount(self, amount: u64) -> (r: Result<AmountDelta, AmountDeltaError>)
        ensures
            is_delta(self.value() - amount) ==> r == Ok::<AmountDelta, AmountDeltaError>(
                AmountDelta::of_spec(self.value() - amount),
            ),
            !is_delta(self.value() - amount) ==> r == Err::<AmountDelta, AmountDeltaError>(
                AmountDeltaError::Underflow,
            ),
            r is Ok ==> r->Ok_0.value() == self.value() - amount,
    {
        let v = self.to_i128() - amount as i128;
        if v < -(u64::MAX as i128) {
            Err(AmountDeltaError::Underflow)
        } else {
            Ok(AmountDelta::of_value(v))
        }
    }

    /// Adds another delta to this one.
    pub fn add_delta(self, other: AmountDelta) -> (r: Result<AmountDelta, AmountDeltaError>)
        ensures
            is_delta(self.value() + other.value()) <==> r is Ok,
            r is Ok ==> r->Ok_0 == AmountDelta::of_spec(self.value() + other.value()),
    {
        match other {
            AmountDelta::Positive(d) => self.add_amount(d),
            AmountDelta::Negative(d) => self.subtract_amount(d),
        }
    }

    /// The canonical delta of a signed value: non-negative values are positive.
    pub open spec fn of_spec(v: int) -> AmountDelta {
        if v >= 0 {
            AmountDelta::Positive(v as u64)
        } else {
            AmountDelta::Negative((-v) as u64)
        }
    }

    /// Applies the delta to a balance.
    pub fn apply_to_balance(self, balance: u64) -> (r: Result<u64, AmountDeltaError>)
        ensures
            is_amount(balance + self.value()) <==> r is Ok,
            r is Ok ==> r->Ok_0 == balance + self.value(),
            balance + self.value() < 0 ==> r == Err::<u64, AmountDeltaError>(
                AmountDeltaError::Underflow,
            ),
            balance + self.value() > u64::MAX ==> r == Err::<u64, AmountDeltaError>(
                AmountDeltaError::Overflow,
            ),
    {
        match self {
            AmountDelta::Positive(d) => match balance.checked_add(d) {
                Some(b) => Ok(b),
                None => Err(AmountDeltaError::Overflow),
            },
            AmountDelta::Negative(d) => match balance.checked_sub(d) {
                Some(b) => Ok(b),
                None => Err(AmountDeltaError::Underflow),
            },
        }
    }
}

} // verus!
