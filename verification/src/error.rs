use vstd::prelude::*;

verus! {

/// Why a value handed to the library was rejected as malformed.
#[derive(Clone, Copy, Debug, PartialEq, Eq, Structural)]
pub enum ValidationFault {
    /// A coordinate axis lies outside `[0, 9999.999]`, or a draw outside the
    /// range of draws.
    OutOfRange,
    /// A coordinate axis carries more than three fractional digits.
    PrecisionError,
    /// An amount, price or counter is negative, zero where at least one is
    /// needed, or too large to be stored.
    BadAmount,
    /// Rows that belong together contradict each other.
    Inconsistent,
}

/// The domain-level error kinds. All are recoverable; none is retried here.
#[derive(Clone, Copy, Debug, PartialEq, Eq, Structural)]
pub enum GameError {
    ValidationError(ValidationFault),
    NotFound,
    NotAvailable,
    AlreadyAccepted,
    AlreadyCleared,
    ObjectiveMismatch,
    InsufficientFunds,
    InsufficientQuantity,
    SlotsExhausted,
    Undiscardable,
    InstanceLocked,
}

impl GameError {
    /// The stable caller-facing code of an error kind.
    pub open spec fn spec_code(self) -> int {
        match self {
            GameError::ValidationError(_) => 1,
            GameError::NotFound => 2,
            GameError::NotAvailable => 3,
            GameError::AlreadyAccepted => 4,
            GameError::AlreadyCleared => 5,
            GameError::ObjectiveMismatch => 6,
            GameError::InsufficientFunds => 7,
            GameError::InsufficientQuantity => 8,
            GameError::SlotsExhausted => 9,
            GameError::Undiscardable => 10,
            GameError::InstanceLocked => 11,
        }
    }

    /// Two errors are of the same kind when they are the same variant,
    /// whatever a validation error says about the fault.
    pub open spec fn same_kind(self, other: GameError) -> bool {
        match (self, other) {
            (GameError::ValidationError(_), GameError::ValidationError(_)) => true,
            _ => self == other,
        }
    }

    pub fn code(&self) -> (c: u16)
        ensures
            c == self.spec_code(),
    {
        match self {
            GameError::ValidationError(_) => 1,
            GameError::NotFound => 2,
            GameError::NotAvailable => 3,
            GameError::AlreadyAccepted => 4,
            GameError::AlreadyCleared => 5,
            GameError::ObjectiveMismatch => 6,
            GameError::InsufficientFunds => 7,
            GameError::InsufficientQuantity => 8,
            GameError::SlotsExhausted => 9,
            GameError::Undiscardable => 10,
            GameError::InstanceLocked => 11,
        }
    }

    /// Distinct error kinds never share a code.
    pub proof fn codes_are_distinct(a: GameError, b: GameError)
        ensures
            a.spec_code() == b.spec_code() <==> a.same_kind(b),
    {
    }
}

} // verus!
