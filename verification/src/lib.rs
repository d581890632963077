//! A verified dispatch bridge between a sandboxed caller and a token ledger.
//!
//! A caller sandbox emits opaque call records: a numeric selector together
//! with a raw byte payload. This crate routes the selector to a handler,
//! decodes the payload into a typed parameter record, charges a metering
//! cost, invokes exactly one ledger operation, and encodes the outcome back
//! into bytes. Every step carries a contract: the wire format is pinned down
//! byte for byte, unknown selectors and short payloads are rejected without
//! touching any state, and metering is charged strictly before any ledger
//! mutation.

use vstd::prelude::*;

pub mod account;
pub mod codec;
pub mod erc1155;
pub mod erc20;
pub mod metering;
pub mod payload;

verus! {

/// Failure of a backing ledger operation.
#[derive(Clone, Copy, PartialEq, Eq, Structural, Debug)]
pub enum LedgerError {
    /// A debit was larger than the balance it draws from.
    InsufficientBalance,
    /// A transfer drew more than the approved allowance.
    InsufficientAllowance,
    /// A credit would push a balance past the largest representable value.
    BalanceOverflow,
    /// A token query named an id the ledger has never seen.
    UnknownToken,
    /// The thing to create (a token, a registered id) already exists.
    AlreadyCreated,
    /// A batch operation was given id and amount sequences of unequal length.
    LengthMismatch,
}

/// The one marker that crosses the trust boundary on failure.
pub open spec fn spec_wire_marker() -> Seq<char> {
    "unavailable operation"@
}

impl CallError {
    /// Collapses every failure into the one opaque marker the sandbox
    /// sees: the wire response does not reveal which category failed.
    pub fn wire_marker(&self) -> (r: &'static str)
        ensures
            r@ == spec_wire_marker(),
    {
        "unavailable operation"
    }
}

/// The status code that tells the sandbox no special follow-up is needed.
pub const CONVERGING: u32 = 0;

/// The outcome of a successfully dispatched call: the bytes written back
/// to the sandbox, and the converging status code.
#[derive(Debug)]
pub struct CallOutput {
    pub data: Vec<u8>,
    pub status: u32,
}

/// Failure of one dispatched call, kept distinguishable internally even
/// though the wire protocol collapses all of them into one opaque signal.
#[derive(Clone, Copy, PartialEq, Eq, Structural, Debug)]
pub enum CallError {
    /// The selector is not present in the dispatch table.
    UnknownSelector,
    /// The payload is not the exact encoding of the selector's record.
    DecodeError,
    /// The metering guard could not charge the selector's cost.
    BudgetExceeded,
    /// The invoked ledger operation failed; the cause is forwarded verbatim.
    Ledger(LedgerError),
}

} // verus!
