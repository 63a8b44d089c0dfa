//! Error taxonomy of the token protocol: payload parse failures and
//! interpreter validation failures. Both kinds drop the offending action
//! and are never fatal.

use vstd::prelude::*;

verus! {

/// Why a token action was rejected by the interpreter.
#[derive(Clone, Copy, PartialEq, Eq, Structural, Debug)]
pub enum Brc4ActionErr {
    NotDeployed,
    AlreadyDeployed,
    ReachDecBound,
    ReachLimBound,
    SupplyMinted,
    InsufficientBalance,
    Transferred,
}

/// Why an envelope payload failed to decode.
#[derive(Clone, Copy, PartialEq, Eq, Structural, Debug)]
pub enum Brc4ParseErr {
    WrongContentType,
    WrongProtocol,
    DecimalEmpty,
    DecimalOverflow,
    DecimalPlusMinus,
    DecimalDotStartEnd,
    DecimalSpaces,
    InvalidDigit,
    InvalidUtf8,
    Unknown,
}

/// A payload error of either kind.
#[derive(Clone, Copy, PartialEq, Eq, Structural, Debug)]
pub enum Brc4Error {
    Action(Brc4ActionErr),
    Parse(Brc4ParseErr),
}

} // verus!
