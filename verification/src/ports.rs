//! What the venue asks of the outside besides a ledger: the time, and how contracts resolve.
use vstd::prelude::*;
use crate::domain::ids::ContractId;
use crate::domain::state::OracleOutcome;
use crate::time::Timestamp;

verus! {

/// Where a contract's outcome comes from. `None` is "not yet".
pub trait Oracle {
    fn outcome(&self, contract: &ContractId) -> Option<OracleOutcome>;
}

/// Where the time comes from.
pub trait Clock {
    fn now(&self) -> Timestamp;
}

} // verus!
