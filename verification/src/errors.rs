use vstd::prelude::*;

verus! {

/// The failures the ledger can surface to a caller.
///
/// `Storage` and `Encoding` are reserved for the persistence layer around the
/// library: opening, reading or writing a keyed store, and malformed stored
/// bytes. The library itself reports `NotFound` for a missing block, wallet or
/// transaction, `InsufficientFunds` (carrying the spendable total that was
/// available) when a transfer asks for more than the sender owns, `Clock` when
/// the system time cannot be read while stamping a block, and `NonceExhausted`
/// in the (practically unreachable) case that no nonce in the search space
/// seals a block at the requested difficulty.
#[derive(Debug, PartialEq, Eq, Structural)]
pub enum LedgerError {
    Storage,
    Encoding,
    NotFound,
    InsufficientFunds(u128),
    Clock,
    NonceExhausted,
}

} // verus!
