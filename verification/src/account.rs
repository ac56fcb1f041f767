//! The validator's own account: its private key and the address that the key
//! gives.

use crate::crypto::{address_of_seed, seed_address};
use crate::types::{Address, Field};
use vstd::prelude::*;

verus! {

/// The account that the coordinator signs with.
#[derive(Clone, Copy)]
pub struct Account {
    seed: Field,
    address: Address,
}

impl Account {
    /// The seed of the private key.
    pub closed spec fn spec_seed(&self) -> Field {
        self.seed
    }

    /// The address of the account.
    pub closed spec fn spec_address(&self) -> Address {
        self.address
    }

    /// The address is the one that the private key gives.
    pub open spec fn wf(&self) -> bool {
        address_of_seed(self.spec_seed()) == Some(self.spec_address())
    }

    /// The account of the private key that grows from `seed`. `None` where
    /// the seed gives no key or the key no address.
    pub fn new(seed: Field) -> (account: Option<Account>)
        ensures
            account is Some <==> address_of_seed(seed) is Some,
            account is Some ==> account->0.wf() && account->0.spec_seed() == seed,
    {
        match seed_address(&seed) {
            Some(address) => Some(Account { seed, address }),
            None => None,
        }
    }

    /// The address of the account.
    pub fn address(&self) -> (address: Address)
        ensures
            address == self.spec_address(),
    {
        self.address
    }

    /// The seed of the private key.
    pub fn seed(&self) -> (seed: Field)
        ensures
            seed == self.spec_seed(),
    {
        self.seed
    }
}

} // verus!
