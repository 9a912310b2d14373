//! The administrative role store: getter/setter pairs for the manager,
//! emergency manager and fee receiver.
//!
//! Every setter verifies that the caller is the current holder of the very
//! role being reassigned before writing; getters fail with `NotInitialized`
//! until `initialize` has established the role.

use vstd::prelude::*;
use crate::errors::ContractError;
use crate::models::Address;
use crate::storage::Vault;

verus! {

impl Vault {
    /// Reassign the fee receiver; only the current fee receiver may do so.
    pub fn set_fee_receiver(&mut self, caller: Address, fee_receiver: Address) -> (r: Result<
        (),
        ContractError,
    >)
        ensures
            match old(self).fee_receiver {
                None => r == Err::<(), ContractError>(ContractError::NotInitialized) && *final(self)
                    == *old(self),
                Some(current) => {
                    if caller == current {
                        r is Ok && (*final(self) == Vault {
                            fee_receiver: Some(fee_receiver),
                            ..*old(self)
                        })
                    } else {
                        r == Err::<(), ContractError>(ContractError::Unauthorized) && *final(self)
                            == *old(self)
                    }
                },
            },
    {
        let current = match self.fee_receiver {
            None => {
                return Err(ContractError::NotInitialized);
            },
            Some(c) => c,
        };
        if caller.id != current.id {
            return Err(ContractError::Unauthorized);
        }
        self.fee_receiver = Some(fee_receiver);
        Ok(())
    }

    /// The fee receiver; `NotInitialized` before `initialize` runs.
    pub fn get_fee_receiver(&self) -> (r: Result<Address, ContractError>)
        ensures
            match self.fee_receiver {
                Some(a) => r == Ok::<Address, ContractError>(a),
                None => r == Err::<Address, ContractError>(ContractError::NotInitialized),
            },
    {
        match self.fee_receiver {
            Some(a) => Ok(a),
            None => Err(ContractError::NotInitialized),
        }
    }

    /// Reassign the manager; only the current manager may do so.
    pub fn set_manager(&mut self, caller: Address, manager: Address) -> (r: Result<
        (),
        ContractError,
    >)
        ensures
            match old(self).manager {
                None => r == Err::<(), ContractError>(ContractError::NotInitialized) && *final(self)
                    == *old(self),
                Some(current) => {
                    if caller == current {
                        r is Ok && (*final(self) == Vault { manager: Some(manager), ..*old(self) })
                    } else {
                        r == Err::<(), ContractError>(ContractError::Unauthorized) && *final(self)
                            == *old(self)
                    }
                },
            },
    {
        let current = match self.manager {
            None => {
                return Err(ContractError::NotInitialized);
            },
            Some(c) => c,
        };
        if caller.id != current.id {
            return Err(ContractError::Unauthorized);
        }
        self.manager = Some(manager);
        Ok(())
    }

    /// The manager; `NotInitialized` before `initialize` runs.
    pub fn get_manager(&self) -> (r: Result<Address, ContractError>)
        ensures
            match self.manager {
                Some(a) => r == Ok::<Address, ContractError>(a),
                None => r == Err::<Address, ContractError>(ContractError::NotInitialized),
            },
    {
        match self.manager {
            Some(a) => Ok(a),
            None => Err(ContractError::NotInitialized),
        }
    }

    /// Reassign the emergency manager; only the current emergency manager
    /// may do so.
    pub fn set_emergency_manager(&mut self, caller: Address, emergency_manager: Address) -> (r:
        Result<(), ContractError>)
        ensures
            match old(self).emergency_manager {
                None => r == Err::<(), ContractError>(ContractError::NotInitialized) && *final(self)
                    == *old(self),
                Some(current) => {
                    if caller == current {
                        r is Ok && (*final(self) == Vault {
                            emergency_manager: Some(emergency_manager),
                            ..*old(self)
                        })
                    } else {
                        r == Err::<(), ContractError>(ContractError::Unauthorized) && *final(self)
                            == *old(self)
                    }
                },
            },
    {
        let current = match self.emergency_manager {
            None => {
                return Err(ContractError::NotInitialized);
            },
            Some(c) => c,
        };
        if caller.id != current.id {
            return Err(ContractError::Unauthorized);
        }
        self.emergency_manager = Some(emergency_manager);
        Ok(())
    }

    /// The emergency manager; `NotInitialized` before `initialize` runs.
    pub fn get_emergency_manager(&self) -> (r: Result<Address, ContractError>)
        ensures
            match self.emergency_manager {
                Some(a) => r == Ok::<Address, ContractError>(a),
                None => r == Err::<Address, ContractError>(ContractError::NotInitialized),
            },
    {
        match self.emergency_manager {
            Some(a) => Ok(a),
            None => Err(ContractError::NotInitialized),
        }
    }
}

} // verus!
