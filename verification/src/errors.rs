use vstd::prelude::*;

verus! {

/// Every way a vault operation can fail.  All validation failures are
/// detected before any state is mutated, so an `Err` always leaves the
/// vault exactly as it was.
#[derive(Clone, Copy, Debug, PartialEq, Eq, Structural)]
pub enum VaultError {
    /// The caller is not the vault owner.
    Unauthorized,
    /// The caller is not an authorized borrower.
    NotAuthorizedBorrower,
    /// The caller is neither an authorized issuer nor the owner.
    NotAuthorizedIssuer,
    /// The pool's idle liquidity cannot cover the request.
    InsufficientLiquidity,
    /// The caller's redeemable balance cannot cover the request.
    InsufficientBalance,
    /// The borrower already has an active loan.
    LoanAlreadyActive,
    /// The borrower has no active loan.
    NoActiveLoan,
    /// A zero amount, or claim pricing is undefined for the deposit.
    InvalidAmount,
    /// A null identifier where a real one is required.
    InvalidIdentifier,
    /// A malformed argument, such as mismatched batch lists or an
    /// out-of-range fee.
    InvalidParameter,
    /// The external asset movement reported failure.  The verified state
    /// machine never raises this itself; the embedding host uses it when
    /// the asset ledger declines a transfer.
    TransferFailed,
    /// The vault owner has already been set.
    AlreadyInitialized,
}

/// Failures of the risk oracle.
#[derive(Clone, Copy, Debug, PartialEq, Eq, Structural)]
pub enum OracleError {
    /// The caller is not the oracle owner.
    NotOwner,
    /// A member list must not be empty.
    EmptyMemberList,
}

/// Failures of the cohort outcome simulator.
#[derive(Clone, Copy, Debug, PartialEq, Eq, Structural)]
pub enum SimulatorError {
    /// The owner has already been set.
    AlreadyInitialized,
    /// The member count must be between 1 and 100.
    InvalidMemberCount,
    /// The simulation count must be between 1 and 10000.
    InvalidSimulationCount,
}

} // verus!
