//! The token ledger: free balances, allowances, and the deposits locked
//! against listings.

use vstd::prelude::*;
use crate::error::Error;
use crate::hashing::ListingHash;
use crate::table::Table;

verus! {

/// Who holds tokens.
pub type AccountId = u64;

/// An amount of tokens.
pub type TokenBalance = u64;

/// What the ledger starts from.
pub struct GenesisConfig {
    /// The supply that `init` mints.
    pub total_supply: TokenBalance,
}

/// What the ledger reports of a successful call.
#[derive(Clone, Copy, Debug, PartialEq, Eq, Structural)]
pub enum Event {
    /// Tokens moved: from, to, amount.
    Transfer(AccountId, AccountId, TokenBalance),
    /// An allowance was granted or drawn on: owner, spender, amount.
    Approval(AccountId, AccountId, TokenBalance),
}

/// The ledger as a mathematical value.
pub struct Ledger {
    /// Whether the supply has been minted.
    pub init: bool,
    /// The supply that `init` mints.
    pub total_supply: TokenBalance,
    /// The free balance of each account that has an entry.
    pub balance_of: Map<AccountId, TokenBalance>,
    /// What each owner lets each spender move.
    pub allowance: Map<(AccountId, AccountId), TokenBalance>,
    /// What is held in escrow against each listing hash.
    pub locked_deposits: Map<ListingHash, TokenBalance>,
}

impl Ledger {
    /// The ledger before anything happened.
    pub open spec fn genesis(total_supply: TokenBalance) -> Ledger {
        Ledger {
            init: false,
            total_supply,
            balance_of: Map::empty(),
            allowance: Map::empty(),
            locked_deposits: Map::empty(),
        }
    }

    /// The free balance of `who`; nothing where there is no entry.
    pub open spec fn balance(self, who: AccountId) -> TokenBalance {
        if self.balance_of.contains_key(who) {
            self.balance_of[who]
        } else {
            0
        }
    }

    /// What `owner` lets `spender` move; nothing where there is no entry.
    pub open spec fn allowed(self, owner: AccountId, spender: AccountId) -> TokenBalance {
        if self.allowance.contains_key((owner, spender)) {
            self.allowance[(owner, spender)]
        } else {
            0
        }
    }

    /// What is locked against `listing_hash`; nothing where there is no entry.
    pub open spec fn locked(self, listing_hash: ListingHash) -> TokenBalance {
        if self.locked_deposits.contains_key(listing_hash) {
            self.locked_deposits[listing_hash]
        } else {
            0
        }
    }

    /// Mints the whole supply to `holder`, once.
    pub open spec fn init(self, holder: AccountId) -> Result<Ledger, Error> {
        if self.init {
            Err(Error::AlreadyInitialized)
        } else {
            Ok(Ledger { init: true, balance_of: self.balance_of.insert(holder, self.total_supply), ..self })
        }
    }

    /// Moves `value` from `from` to `to`. A transfer to oneself that the
    /// balance covers moves nothing.
    pub open spec fn transfer(self, from: AccountId, to: AccountId, value: TokenBalance) -> Result<
        Ledger,
        Error,
    > {
        if !self.balance_of.contains_key(from) {
            Err(Error::UnknownAccount)
        } else if self.balance_of[from] < value {
            Err(Error::InsufficientBalance)
        } else if from == to {
            Ok(self)
        } else if self.balance(to) + value > u64::MAX {
            Err(Error::ArithmeticOverflow)
        } else {
            Ok(
                Ledger {
                    balance_of: self.balance_of.insert(
                        from,
                        (self.balance_of[from] - value) as u64,
                    ).insert(to, (self.balance(to) + value) as u64),
                    ..self
                },
            )
        }
    }

    /// Raises by `value` what `owner` lets `spender` move.
    pub open spec fn approve(self, owner: AccountId, spender: AccountId, value: TokenBalance) -> Result<
        Ledger,
        Error,
    > {
        if !self.balance_of.contains_key(owner) {
            Err(Error::UnknownAccount)
        } else if self.allowed(owner, spender) + value > u64::MAX {
            Err(Error::ArithmeticOverflow)
        } else {
            Ok(
                Ledger {
                    allowance: self.allowance.insert(
                        (owner, spender),
                        (self.allowed(owner, spender) + value) as u64,
                    ),
                    ..self
                },
            )
        }
    }

    /// `spender` draws `value` on what `from` lets it move, and the amount
    /// is transferred from `from` to `to`.
    pub open spec fn transfer_from(
        self,
        spender: AccountId,
        from: AccountId,
        to: AccountId,
        value: TokenBalance,
    ) -> Result<Ledger, Error> {
        if !self.allowance.contains_key((from, spender)) {
            Err(Error::InsufficientAllowance)
        } else if self.allowance[(from, spender)] < value {
            Err(Error::InsufficientAllowance)
        } else {
            match self.transfer(from, to, value) {
                Err(e) => Err(e),
                Ok(moved) => Ok(
                    Ledger {
                        allowance: self.allowance.insert(
                            (from, spender),
                            (self.allowance[(from, spender)] - value) as u64,
                        ),
                        ..moved
                    },
                ),
            }
        }
    }

    /// Moves `value` from the free balance of `from` into the escrow of
    /// `listing_hash`. The balance must exceed `value`: something stays free.
    pub open spec fn lock(self, from: AccountId, value: TokenBalance, listing_hash: ListingHash) -> Result<
        Ledger,
        Error,
    > {
        if !self.balance_of.contains_key(from) {
            Err(Error::UnknownAccount)
        } else if self.balance_of[from] <= value {
            Err(Error::InsufficientBalance)
        } else if self.locked(listing_hash) + value > u64::MAX {
            Err(Error::ArithmeticOverflow)
        } else {
            Ok(
                Ledger {
                    balance_of: self.balance_of.insert(from, (self.balance_of[from] - value) as u64),
                    locked_deposits: self.locked_deposits.insert(
                        listing_hash,
                        (self.locked(listing_hash) + value) as u64,
                    ),
                    ..self
                },
            )
        }
    }

    /// Moves `value` from the escrow of `listing_hash` to the free balance
    /// of `to`.
    pub open spec fn unlock(self, to: AccountId, value: TokenBalance, listing_hash: ListingHash) -> Result<
        Ledger,
        Error,
    > {
        if self.balance(to) + value > u64::MAX {
            Err(Error::ArithmeticOverflow)
        } else if self.locked(listing_hash) < value {
            Err(Error::ArithmeticUnderflow)
        } else {
            Ok(
                Ledger {
                    balance_of: self.balance_of.insert(to, (self.balance(to) + value) as u64),
                    locked_deposits: self.locked_deposits.insert(
                        listing_hash,
                        (self.locked(listing_hash) - value) as u64,
                    ),
                    ..self
                },
            )
        }
    }
}

/// The ledger.
pub struct Module {
    init: bool,
    total_supply: TokenBalance,
    balance_of: Table<AccountId, TokenBalance>,
    allowance: Table<(AccountId, AccountId), TokenBalance>,
    locked_deposits: Table<ListingHash, TokenBalance>,
}

impl View for Module {
    type V = Ledger;

    closed spec fn view(&self) -> Ledger {
        Ledger {
            init: self.init,
            total_supply: self.total_supply,
            balance_of: self.balance_of@,
            allowance: self.allowance@,
            locked_deposits: self.locked_deposits@,
        }
    }
}

impl Module {
    /// A ledger that holds nothing yet.
    pub fn new(config: GenesisConfig) -> (ledger: Self)
        ensures
            ledger@ == Ledger::genesis(config.total_supply),
    {
        Module {
            init: false,
            total_supply: config.total_supply,
            balance_of: Table::new(),
            allowance: Table::new(),
            locked_deposits: Table::new(),
        }
    }

    /// Whether the supply has been minted.
    pub fn is_init(&self) -> (r: bool)
        ensures
            r == self@.init,
    {
        self.init
    }

    /// The supply that `init` mints.
    pub fn total_supply(&self) -> (r: TokenBalance)
        ensures
            r == self@.total_supply,
    {
        self.total_supply
    }

    /// The free balance of `who`.
    pub fn balance_of(&self, who: AccountId) -> (r: TokenBalance)
        ensures
            r == self@.balance(who),
    {
        match self.balance_of.get(&who) {
            Some(b) => *b,
            None => 0,
        }
    }

    /// What `owner` lets `spender` move.
    pub fn allowance(&self, owner: AccountId, spender: AccountId) -> (r: TokenBalance)
        ensures
            r == self@.allowed(owner, spender),
    {
        match self.allowance.get(&(owner, spender)) {
            Some(a) => *a,
            None => 0,
        }
    }

    /// What is locked against `listing_hash`.
    pub fn locked_deposits(&self, listing_hash: ListingHash) -> (r: TokenBalance)
        ensures
            r == self@.locked(listing_hash),
    {
        match self.locked_deposits.get(&listing_hash) {
            Some(d) => *d,
            None => 0,
        }
    }

    /// Mints the whole supply to `sender`. Refused with
    /// `AlreadyInitialized` from the second call on.
    pub fn init(&mut self, sender: AccountId) -> (r: Result<(), Error>)
        ensures
            match r {
                Ok(_) => old(self)@.init(sender) == Ok::<Ledger, Error>(final(self)@),
                Err(e) => old(self)@.init(sender) == Err::<Ledger, Error>(e) && final(self)@ == old(
                    self,
                )@,
            },
    {
        if self.init {
            return Err(Error::AlreadyInitialized);
        }
        let supply = self.total_supply;
        self.balance_of.insert(sender, supply);
        self.init = true;
        Ok(())
    }

    /// Whether `transfer` would go through, and why not.
    pub fn check_transfer(&self, from: AccountId, to: AccountId, value: TokenBalance) -> (r: Result<
        (),
        Error,
    >)
        ensures
            match r {
                Ok(_) => self@.transfer(from, to, value) is Ok,
                Err(e) => self@.transfer(from, to, value) == Err::<Ledger, Error>(e),
            },
    {
        let sender_balance = match self.balance_of.get(&from) {
            Some(b) => *b,
            None => { return Err(Error::UnknownAccount); },
        };
        if sender_balance < value {
            return Err(Error::InsufficientBalance);
        }
        if from == to {
            return Ok(());
        }
        let receiver_balance = self.balance_of(to);
        if receiver_balance.checked_add(value).is_none() {
            return Err(Error::ArithmeticOverflow);
        }
        Ok(())
    }

    /// Moves `value` from `sender` to `to`, and reports the transfer. Where
    /// `to` is `sender` nothing moves.
    ///
    /// Refused with `UnknownAccount` where `sender` has no balance entry,
    /// `InsufficientBalance` where the balance is below `value`, and
    /// `ArithmeticOverflow` where the balance of another receiver would not
    /// fit.
    pub fn transfer(&mut self, sender: AccountId, to: AccountId, value: TokenBalance) -> (r: Result<
        Vec<Event>,
        Error,
    >)
        ensures
            match r {
                Ok(events) => old(self)@.transfer(sender, to, value) == Ok::<Ledger, Error>(
                    final(self)@,
                ) && events@ == seq![Event::Transfer(sender, to, value)],
                Err(e) => old(self)@.transfer(sender, to, value) == Err::<Ledger, Error>(e)
                    && final(self)@ == old(self)@,
            },
            sender == to ==> final(self)@ == old(self)@,
    {
        match self.check_transfer(sender, to, value) {
            Err(e) => { return Err(e); },
            Ok(_) => {},
        }
        self.move_balance(sender, to, value);
        let mut events: Vec<Event> = Vec::new();
        events.push(Event::Transfer(sender, to, value));
        Ok(events)
    }

    /// Writes the two balances of a transfer that `check_transfer` let through.
    fn move_balance(&mut self, from: AccountId, to: AccountId, value: TokenBalance)
        requires
            old(self)@.transfer(from, to, value) is Ok,
        ensures
            old(self)@.transfer(from, to, value) == Ok::<Ledger, Error>(final(self)@),
    {
        if from != to {
            let sender_balance = self.balance_of(from);
            let receiver_balance = self.balance_of(to);
            self.balance_of.insert(from, sender_balance - value);
            self.balance_of.insert(to, receiver_balance + value);
        }
    }

    /// Raises by `value` what `sender` lets `spender` move, and reports the
    /// approval.
    ///
    /// Refused with `UnknownAccount` where `sender` has no balance entry and
    /// `ArithmeticOverflow` where the allowance would not fit.
    pub fn approve(&mut self, sender: AccountId, spender: AccountId, value: TokenBalance) -> (r:
        Result<Vec<Event>, Error>)
        ensures
            match r {
                Ok(events) => old(self)@.approve(sender, spender, value) == Ok::<Ledger, Error>(
                    final(self)@,
                ) && events@ == seq![Event::Approval(sender, spender, value)],
                Err(e) => old(self)@.approve(sender, spender, value) == Err::<Ledger, Error>(e)
                    && final(self)@ == old(self)@,
            },
    {
        if !self.balance_of.contains_key(&sender) {
            return Err(Error::UnknownAccount);
        }
        let allowance = self.allowance(sender, spender);
        let updated_allowance = match allowance.checked_add(value) {
            Some(a) => a,
            None => { return Err(Error::ArithmeticOverflow); },
        };
        self.allowance.insert((sender, spender), updated_allowance);
        let mut events: Vec<Event> = Vec::new();
        events.push(Event::Approval(sender, spender, value));
        Ok(events)
    }

    /// `spender` draws `value` on what `from` lets it move, and the amount
    /// is transferred from `from` to `to`; reports the approval drawn on,
    /// then the transfer.
    ///
    /// Refused with `InsufficientAllowance` where `from` granted `spender` no
    /// allowance or less than `value`, and else for the reasons of
    /// `transfer`.
    pub fn transfer_from(
        &mut self,
        spender: AccountId,
        from: AccountId,
        to: AccountId,
        value: TokenBalance,
    ) -> (r: Result<Vec<Event>, Error>)
        ensures
            match r {
                Ok(events) => old(self)@.transfer_from(spender, from, to, value) == Ok::<
                    Ledger,
                    Error,
                >(final(self)@) && events@ == seq![
                    Event::Approval(from, spender, value),
                    Event::Transfer(from, to, value),
                ],
                Err(e) => old(self)@.transfer_from(spender, from, to, value) == Err::<
                    Ledger,
                    Error,
                >(e) && final(self)@ == old(self)@,
            },
            old(self)@.allowance.contains_key((from, spender)) && old(self)@.allowance[(
                from,
                spender,
            )] >= value && old(self)@.transfer(from, to, value) is Err ==> r == Err::<
                Vec<Event>,
                Error,
            >(old(self)@.transfer(from, to, value)->Err_0),
    {
        let allowance = match self.allowance.get(&(from, spender)) {
            Some(a) => *a,
            None => { return Err(Error::InsufficientAllowance); },
        };
        if allowance < value {
            return Err(Error::InsufficientAllowance);
        }
        match self.check_transfer(from, to, value) {
            Err(e) => { return Err(e); },
            Ok(_) => {},
        }
        self.allowance.insert((from, spender), allowance - value);
        self.move_balance(from, to, value);
        let mut events: Vec<Event> = Vec::new();
        events.push(Event::Approval(from, spender, value));
        events.push(Event::Transfer(from, to, value));
        Ok(events)
    }

    /// Whether `lock` would go through, and why not.
    pub fn check_lock(&self, from: AccountId, value: TokenBalance, listing_hash: ListingHash) -> (r: Result<
        (),
        Error,
    >)
        ensures
            match r {
                Ok(_) => self@.lock(from, value, listing_hash) is Ok,
                Err(e) => self@.lock(from, value, listing_hash) == Err::<Ledger, Error>(e),
            },
    {
        let sender_balance = match self.balance_of.get(&from) {
            Some(b) => *b,
            None => { return Err(Error::UnknownAccount); },
        };
        if sender_balance <= value {
            return Err(Error::InsufficientBalance);
        }
        let deposit = self.locked_deposits(listing_hash);
        if deposit.checked_add(value).is_none() {
            return Err(Error::ArithmeticOverflow);
        }
        Ok(())
    }

    /// Moves `value` from the free balance of `from` into the escrow of
    /// `listing_hash`.
    ///
    /// Refused with `UnknownAccount` where `from` has no balance entry,
    /// `InsufficientBalance` unless the balance exceeds `value`, and
    /// `ArithmeticOverflow` where the escrow would not fit.
    pub fn lock(&mut self, from: AccountId, value: TokenBalance, listing_hash: ListingHash) -> (r: Result<
        (),
        Error,
    >)
        ensures
            match r {
                Ok(_) => old(self)@.lock(from, value, listing_hash) == Ok::<Ledger, Error>(
                    final(self)@,
                ),
                Err(e) => old(self)@.lock(from, value, listing_hash) == Err::<Ledger, Error>(e)
                    && final(self)@ == old(self)@,
            },
    {
        match self.check_lock(from, value, listing_hash) {
            Err(e) => { return Err(e); },
            Ok(_) => {},
        }
        let sender_balance = self.balance_of(from);
        let deposit = self.locked_deposits(listing_hash);
        self.balance_of.insert(from, sender_balance - value);
        self.locked_deposits.insert(listing_hash, deposit + value);
        Ok(())
    }

    /// Whether `unlock` would go through, and why not.
    pub fn check_unlock(&self, to: AccountId, value: TokenBalance, listing_hash: ListingHash) -> (r: Result<
        (),
        Error,
    >)
        ensures
            match r {
                Ok(_) => self@.unlock(to, value, listing_hash) is Ok,
                Err(e) => self@.unlock(to, value, listing_hash) == Err::<Ledger, Error>(e),
            },
    {
        let to_balance = self.balance_of(to);
        if to_balance.checked_add(value).is_none() {
            return Err(Error::ArithmeticOverflow);
        }
        let deposit = self.locked_deposits(listing_hash);
        if deposit < value {
            return Err(Error::ArithmeticUnderflow);
        }
        Ok(())
    }

    /// Moves `value` from the escrow of `listing_hash` to the free balance
    /// of `to`.
    ///
    /// Refused with `ArithmeticOverflow` where the balance would not fit and
    /// `ArithmeticUnderflow` where the escrow holds less than `value`.
    pub fn unlock(&mut self, to: AccountId, value: TokenBalance, listing_hash: ListingHash) -> (r: Result<
        (),
        Error,
    >)
        ensures
            match r {
                Ok(_) => old(self)@.unlock(to, value, listing_hash) == Ok::<Ledger, Error>(
                    final(self)@,
                ),
                Err(e) => old(self)@.unlock(to, value, listing_hash) == Err::<Ledger, Error>(e)
                    && final(self)@ == old(self)@,
            },
    {
        match self.check_unlock(to, value, listing_hash) {
            Err(e) => { return Err(e); },
            Ok(_) => {},
        }
        let to_balance = self.balance_of(to);
        let deposit = self.locked_deposits(listing_hash);
        self.balance_of.insert(to, to_balance + value);
        self.locked_deposits.insert(listing_hash, deposit - value);
        Ok(())
    }
}

} // verus!
