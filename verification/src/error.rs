use vstd::prelude::*;

verus! {

/// Every way an operation of the engine can be refused. A refused operation
/// leaves all state as it was.
#[derive(Clone, Copy, Debug, PartialEq, Eq, Structural)]
pub enum LendingError {
    InvalidParameters,
    AlreadyExists,
    InvalidAmount,
    InsufficientBalance,
    InsufficientLiquidity,
    WouldBreachHealth,
    NoDebtToRepay,
    OverRepayment,
    NotLiquidatable,
    StalePrice,
    UnknownAsset,
}

impl LendingError {
    /// The error's name as text.
    pub open spec fn name_text(self) -> Seq<char> {
        match self {
            LendingError::InvalidParameters => "InvalidParameters"@,
            LendingError::AlreadyExists => "AlreadyExists"@,
            LendingError::InvalidAmount => "InvalidAmount"@,
            LendingError::InsufficientBalance => "InsufficientBalance"@,
            LendingError::InsufficientLiquidity => "InsufficientLiquidity"@,
            LendingError::WouldBreachHealth => "WouldBreachHealth"@,
            LendingError::NoDebtToRepay => "NoDebtToRepay"@,
            LendingError::OverRepayment => "OverRepayment"@,
            LendingError::NotLiquidatable => "NotLiquidatable"@,
            LendingError::StalePrice => "StalePrice"@,
            LendingError::UnknownAsset => "UnknownAsset"@,
        }
    }

    /// The error's name, for messages.
    pub fn name(&self) -> (r: &'static str)
        ensures
            r@ == self.name_text(),
    {
        match self {
            LendingError::InvalidParameters => "InvalidParameters",
            LendingError::AlreadyExists => "AlreadyExists",
            LendingError::InvalidAmount => "InvalidAmount",
            LendingError::InsufficientBalance => "InsufficientBalance",
            LendingError::InsufficientLiquidity => "InsufficientLiquidity",
            LendingError::WouldBreachHealth => "WouldBreachHealth",
            LendingError::NoDebtToRepay => "NoDebtToRepay",
            LendingError::OverRepayment => "OverRepayment",
            LendingError::NotLiquidatable => "NotLiquidatable",
            LendingError::StalePrice => "StalePrice",
            LendingError::UnknownAsset => "UnknownAsset",
        }
    }
}

} // verus!
