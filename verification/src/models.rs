//! Plain data carried through the vault: addresses and strategy records.

use vstd::prelude::*;

verus! {

/// An external account or contract identity, reduced to the plain identifier
/// the vault's bookkeeping needs.  The host environment that talks to the
/// real ledger keeps the mapping between these identifiers and its own opaque
/// address values.
#[derive(Clone, Copy, Debug, PartialEq, Eq, Hash, Structural)]
pub struct Address {
    pub id: u64,
}

impl Address {
    pub fn new(id: u64) -> (r: Address)
        ensures
            r.id == id,
    {
        Address { id }
    }
}

/// One registered yield destination: a human-readable name and the address
/// of the external strategy contract.
#[derive(Debug)]
pub struct StrategyParams {
    pub name: String,
    pub address: Address,
}

impl StrategyParams {
    pub fn new(name: String, address: Address) -> (r: StrategyParams)
        ensures
            r.name == name,
            r.address == address,
    {
        StrategyParams { name, address }
    }
}

impl Clone for StrategyParams {
    fn clone(&self) -> (r: Self)
        ensures
            r == *self,
    {
        StrategyParams { name: self.name.clone(), address: self.address }
    }
}

impl PartialEq for StrategyParams {
    fn eq(&self, other: &Self) -> (r: bool)
        ensures
            r == (self.name@ == other.name@ && self.address == other.address),
    {
        self.name == other.name && self.address == other.address
    }
}

impl vstd::std_specs::cmp::PartialEqSpecImpl for StrategyParams {
    open spec fn obeys_eq_spec() -> bool {
        true
    }

    open spec fn eq_spec(&self, other: &Self) -> bool {
        self.name@ == other.name@ && self.address == other.address
    }
}

} // verus!
