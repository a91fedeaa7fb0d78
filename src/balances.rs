use std::collections::BTreeMap;
use vstd::prelude::*;

use crate::types::{AccountId, Balance, CurrencyError};

verus! {

/// The balance that `balances` gives `who`: an account that it does not
/// list holds nothing.
pub open spec fn spec_balance_of(balances: Map<AccountId, Balance>, who: AccountId) -> Balance {
    if balances.contains_key(who) {
        balances[who]
    } else {
        0
    }
}

/// A ledger of fungible balances with a minimum balance that a keep-alive
/// transfer may not take an account below.
pub struct Balances {
    accounts: BTreeMap<AccountId, Balance>,
    minimum: Balance,
}

impl View for Balances {
    type V = Map<AccountId, Balance>;

    closed spec fn view(&self) -> Map<AccountId, Balance> {
        self.accounts@
    }
}

impl Balances {
    /// The minimum balance that the ledger was made with.
    pub closed spec fn spec_minimum_balance(&self) -> Balance {
        self.minimum
    }

    /// Whether a transfer is accepted, and if not, why.
    pub open spec fn transfer_outcome(
        &self,
        from: AccountId,
        to: AccountId,
        amount: Balance,
        keep_alive: bool,
    ) -> Result<(), CurrencyError> {
        let have = spec_balance_of(self@, from);
        if have < amount {
            Err(CurrencyError::InsufficientBalance)
        } else if keep_alive && have - amount < self.spec_minimum_balance() {
            Err(CurrencyError::WouldDie)
        } else if from != to && spec_balance_of(self@, to) + amount > Balance::MAX {
            Err(CurrencyError::Overflow)
        } else {
            Ok(())
        }
    }

    /// The balances after an accepted transfer.
    pub open spec fn transferred(
        balances: Map<AccountId, Balance>,
        from: AccountId,
        to: AccountId,
        amount: Balance,
    ) -> Map<AccountId, Balance> {
        if from == to {
            balances
        } else {
            let taken = balances.insert(from, (spec_balance_of(balances, from) - amount) as Balance);
            taken.insert(to, (spec_balance_of(balances, to) + amount) as Balance)
        }
    }

    /// An empty ledger with the given minimum balance.
    pub fn new(minimum_balance: Balance) -> (r: Self)
        ensures
            r@ == Map::<AccountId, Balance>::empty(),
            r.spec_minimum_balance() == minimum_balance,
    {
        Balances { accounts: BTreeMap::new(), minimum: minimum_balance }
    }

    /// The smallest balance that a keep-alive transfer leaves a sender with.
    pub fn minimum_balance(&self) -> (r: Balance)
        ensures
            r == self.spec_minimum_balance(),
    {
        self.minimum
    }

    /// What `who` holds.
    pub fn free_balance(&self, who: AccountId) -> (r: Balance)
        ensures
            r == spec_balance_of(self@, who),
    {
        match self.accounts.get(&who) {
            Some(b) => *b,
            None => 0,
        }
    }

    /// Sets what `who` holds, as when an account is endowed.
    pub fn set_balance(&mut self, who: AccountId, amount: Balance)
        ensures
            final(self)@ == old(self)@.insert(who, amount),
            final(self).spec_minimum_balance() == old(self).spec_minimum_balance(),
    {
        self.accounts.insert(who, amount);
    }

    /// Moves `amount` from `from` to `to`, all or nothing. With `keep_alive`
    /// the sender must keep at least the minimum balance.
    pub fn transfer(&mut self, from: AccountId, to: AccountId, amount: Balance, keep_alive: bool) -> (r:
        Result<(), CurrencyError>)
        ensures
            r == old(self).transfer_outcome(from, to, amount, keep_alive),
            r is Ok ==> final(self)@ == Self::transferred(old(self)@, from, to, amount),
            r is Err ==> final(self)@ == old(self)@,
            final(self).spec_minimum_balance() == old(self).spec_minimum_balance(),
    {
        let have = self.free_balance(from);
        if have < amount {
            return Err(CurrencyError::InsufficientBalance);
        }
        if keep_alive && have - amount < self.minimum {
            return Err(CurrencyError::WouldDie);
        }
        if from == to {
            return Ok(());
        }
        let theirs = self.free_balance(to);
        if theirs > Balance::MAX - amount {
            return Err(CurrencyError::Overflow);
        }
        self.accounts.insert(from, have - amount);
        self.accounts.insert(to, theirs + amount);
        Ok(())
    }
}

} // verus!
