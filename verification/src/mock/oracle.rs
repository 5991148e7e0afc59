//! An oracle that says what it was told to.
use vstd::prelude::*;
use vstd::hash_map::StringHashMap;
use vstd::string::*;
use crate::domain::ids::ContractId;
use crate::domain::state::OracleOutcome;
use crate::ports::Oracle;

verus! {

/// A contract without an entry has no outcome yet.
pub struct MockOracle {
    outcomes: StringHashMap<OracleOutcome>,
}

impl View for MockOracle {
    type V = Map<Seq<char>, OracleOutcome>;

    /// The outcome of each contract that has one.
    closed spec fn view(&self) -> Map<Seq<char>, OracleOutcome> {
        self.outcomes@
    }
}

impl MockOracle {
    pub fn new() -> (oracle: MockOracle)
        ensures
            oracle@ == Map::<Seq<char>, OracleOutcome>::empty(),
    {
        MockOracle { outcomes: StringHashMap::new() }
    }

    pub fn set(&mut self, contract: ContractId, outcome: OracleOutcome)
        ensures
            final(self)@ == old(self)@.insert(contract@, outcome),
    {
        self.outcomes.insert(contract.as_str().to_owned(), outcome);
    }

    /// Takes the outcome of `contract` back.
    pub fn clear(&mut self, contract: &ContractId)
        ensures
            final(self)@ == old(self)@.remove(contract@),
    {
        self.outcomes.remove(contract.as_str());
    }
}

impl Oracle for MockOracle {
    fn outcome(&self, contract: &ContractId) -> (outcome: Option<OracleOutcome>)
        ensures
            outcome == if self@.contains_key(contract@) {
                Some(self@[contract@])
            } else {
                None
            },
    {
        match self.outcomes.get(contract.as_str()) {
            Some(outcome) => Some(*outcome),
            None => None,
        }
    }
}

} // verus!
