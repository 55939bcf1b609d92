use vstd::prelude::*;

verus! {

/// Where contracts would run. It has no instruction set and holds nothing.
pub struct VirtualMachine;

/// A contract account: an owner and the balance paid into it.
pub struct SmartContract {
    pub owner: String,
    pub balance: u64,
}

impl SmartContract {
    /// A contract of `owner` with nothing in it.
    pub fn new(owner: String) -> (contract: SmartContract)
        ensures
            contract.owner@ == owner@,
            contract.balance == 0,
    {
        SmartContract { owner, balance: 0 }
    }

    /// Pays `amount` into the contract. The balance must have room for it.
    pub fn deposit(&mut self, amount: u64)
        requires
            old(self).balance + amount <= u64::MAX,
        ensures
            final(self).balance == old(self).balance + amount,
            final(self).owner@ == old(self).owner@,
    {
        self.balance = self.balance + amount;
    }

    /// The balance of the contract.
    pub fn get_balance(&self) -> (balance: u64)
        ensures
            balance == self.balance,
    {
        self.balance
    }
}

} // verus!
