//! The ledger that distribution nodes move value on.
//!
//! A node does not keep balances itself: it asks a ledger to move value and to
//! report what an address holds. [`Ledger`] is that collaborator held in
//! memory, and [`LedgerView`] says what each of its operations means.

use vstd::prelude::*;
use crate::address::{same_key, Address};

verus! {

/// Why a ledger refuses to move value.
#[derive(Clone, Copy, Debug, PartialEq, Eq)]
pub enum LedgerError {
    /// The paying address holds less than the amount.
    InsufficientBalance,
    /// The owner has not approved the spender for the amount.
    InsufficientAllowance,
    /// The receiving address would hold more than a balance can express.
    BalanceOverflow,
}

/// What a ledger holds: for each currency and address a balance, and for each
/// currency, owner and spender what the owner lets the spender move.
///
/// A currency is named by the 32 bytes of its ledger reference. Both maps are
/// total; an address that was never paid holds zero.
pub struct LedgerView {
    pub balances: Map<([u8; 32], Address), nat>,
    pub allowances: Map<([u8; 32], Address, Address), nat>,
}

impl LedgerView {
    /// The ledger on which nobody holds anything.
    pub open spec fn empty() -> LedgerView {
        LedgerView {
            balances: Map::total(|key: ([u8; 32], Address)| 0nat),
            allowances: Map::total(|key: ([u8; 32], Address, Address)| 0nat),
        }
    }

    /// What `holder` holds of `currency`.
    pub open spec fn balance(self, currency: [u8; 32], holder: Address) -> nat {
        self.balances[(currency, holder)]
    }

    /// What `owner` lets `spender` move of `currency`.
    pub open spec fn allowance(self, currency: [u8; 32], owner: Address, spender: Address) -> nat {
        self.allowances[(currency, owner, spender)]
    }

    /// This ledger with the balance of `holder` set to `amount`.
    pub open spec fn with_balance(self, currency: [u8; 32], holder: Address, amount: nat)
        -> LedgerView {
        LedgerView { balances: self.balances.insert((currency, holder), amount), ..self }
    }

    /// This ledger with what `owner` lets `spender` move set to `amount`.
    pub open spec fn with_allowance(
        self,
        currency: [u8; 32],
        owner: Address,
        spender: Address,
        amount: nat,
    ) -> LedgerView {
        LedgerView { allowances: self.allowances.insert((currency, owner, spender), amount), ..self }
    }

    /// Issues `amount` to `to`.
    pub open spec fn mint(self, currency: [u8; 32], to: Address, amount: nat) -> Result<
        LedgerView,
        LedgerError,
    > {
        if self.balance(currency, to) + amount > u128::MAX {
            Err(LedgerError::BalanceOverflow)
        } else {
            Ok(self.with_balance(currency, to, self.balance(currency, to) + amount))
        }
    }

    /// Moves `amount` from `from` to `to`.
    pub open spec fn transfer(self, currency: [u8; 32], from: Address, to: Address, amount: nat)
        -> Result<LedgerView, LedgerError> {
        if self.balance(currency, from) < amount {
            Err(LedgerError::InsufficientBalance)
        } else {
            let paid = self.with_balance(
                currency,
                from,
                (self.balance(currency, from) - amount) as nat,
            );
            paid.mint(currency, to, amount)
        }
    }

    /// Moves `amount` from `from` to `to` on behalf of `spender`, out of what
    /// `from` lets `spender` move.
    pub open spec fn transfer_from(
        self,
        currency: [u8; 32],
        spender: Address,
        from: Address,
        to: Address,
        amount: nat,
    ) -> Result<LedgerView, LedgerError> {
        if self.allowance(currency, from, spender) < amount {
            Err(LedgerError::InsufficientAllowance)
        } else {
            match self.transfer(currency, from, to, amount) {
                Err(error) => Err(error),
                Ok(moved) => Ok(
                    moved.with_allowance(
                        currency,
                        from,
                        spender,
                        (self.allowance(currency, from, spender) - amount) as nat,
                    ),
                ),
            }
        }
    }
}

#[derive(Clone, Copy, Debug, PartialEq, Eq)]
struct Entry {
    currency: [u8; 32],
    owner: Address,
    party: Address,
    amount: u128,
}

impl Entry {
    spec fn is_for(self, currency: [u8; 32], owner: Address, party: Address) -> bool {
        self.currency == currency && self.owner == owner && self.party == party
    }

    fn stands_for(&self, currency: &[u8; 32], owner: &Address, party: &Address) -> (found: bool)
        ensures
            found == self.is_for(*currency, *owner, *party),
    {
        same_key(&self.currency, currency) && self.owner.same(owner) && self.party.same(party)
    }
}

/// Whether `i` is the first place in `entries` that stands for the key.
spec fn first_at(
    entries: Seq<Entry>,
    currency: [u8; 32],
    owner: Address,
    party: Address,
    i: int,
) -> bool {
    &&& 0 <= i < entries.len()
    &&& entries[i].is_for(currency, owner, party)
    &&& forall|j: int| 0 <= j < i ==> !(#[trigger] entries[j]).is_for(currency, owner, party)
}

/// The amount that `entries` record for the key: that of the first entry that
/// stands for it, and zero where none does.
spec fn recorded(entries: Seq<Entry>, currency: [u8; 32], owner: Address, party: Address) -> nat {
    if exists|i: int| first_at(entries, currency, owner, party, i) {
        entries[choose|i: int| first_at(entries, currency, owner, party, i)].amount as nat
    } else {
        0
    }
}

proof fn lemma_recorded_at(
    entries: Seq<Entry>,
    currency: [u8; 32],
    owner: Address,
    party: Address,
    i: int,
)
    requires
        first_at(entries, currency, owner, party, i),
    ensures
        recorded(entries, currency, owner, party) == entries[i].amount,
{
    let chosen = choose|k: int| first_at(entries, currency, owner, party, k);
    assert(first_at(entries, currency, owner, party, chosen));
    if chosen < i {
        assert(!entries[chosen].is_for(currency, owner, party));
    }
    if i < chosen {
        assert(!entries[i].is_for(currency, owner, party));
    }
}

/// A table of amounts, each under a currency, an owner and a second party.
#[derive(Debug)]
struct Book {
    entries: Vec<Entry>,
}

impl Book {
    spec fn amounts(&self) -> Map<([u8; 32], Address, Address), nat> {
        Map::total(|key: ([u8; 32], Address, Address)| recorded(self.entries@, key.0, key.1, key.2))
    }

    fn new() -> (book: Book)
        ensures
            book.amounts() == Map::total(|key: ([u8; 32], Address, Address)| 0nat),
    {
        let book = Book { entries: Vec::new() };
        assert(book.amounts() =~= Map::total(|key: ([u8; 32], Address, Address)| 0nat));
        book
    }

    fn copy(&self) -> (book: Book)
        ensures
            book.amounts() == self.amounts(),
    {
        let book = Book { entries: self.entries.clone() };
        assert(book.entries@ == self.entries@);
        book
    }

    fn find(&self, currency: &[u8; 32], owner: &Address, party: &Address) -> (place: Option<usize>)
        ensures
            match place {
                Some(i) => first_at(self.entries@, *currency, *owner, *party, i as int),
                None => forall|j: int|
                    0 <= j < self.entries@.len() ==> !(#[trigger] self.entries@[j]).is_for(
                        *currency,
                        *owner,
                        *party,
                    ),
            },
    {
        let mut i: usize = 0;
        while i < self.entries.len()
            invariant
                i <= self.entries.len(),
                forall|j: int|
                    0 <= j < i ==> !(#[trigger] self.entries@[j]).is_for(*currency, *owner, *party),
            decreases self.entries.len() - i,
        {
            if self.entries[i].stands_for(currency, owner, party) {
                return Some(i);
            }
            i += 1;
        }
        None
    }

    fn get(&self, currency: &[u8; 32], owner: &Address, party: &Address) -> (amount: u128)
        ensures
            amount == self.amounts()[(*currency, *owner, *party)],
    {
        match self.find(currency, owner, party) {
            Some(i) => {
                proof {
                    lemma_recorded_at(self.entries@, *currency, *owner, *party, i as int);
                }
                self.entries[i].amount
            },
            None => 0,
        }
    }

    fn set(&mut self, currency: &[u8; 32], owner: &Address, party: &Address, amount: u128)
        ensures
            final(self).amounts() == old(self).amounts().insert(
                (*currency, *owner, *party),
                amount as nat,
            ),
    {
        let entry = Entry { currency: *currency, owner: *owner, party: *party, amount };
        let ghost before = self.entries@;
        let place = self.find(currency, owner, party);
        match place {
            Some(i) => {
                self.entries.set(i, entry);
            },
            None => {
                self.entries.push(entry);
            },
        }
        proof {
            let after = self.entries@;
            let at: int = match place {
                Some(i) => i as int,
                None => before.len() as int,
            };
            assert(first_at(after, *currency, *owner, *party, at));
            lemma_recorded_at(after, *currency, *owner, *party, at);
            assert forall|key: ([u8; 32], Address, Address)|
                key != (*currency, *owner, *party) implies recorded(after, key.0, key.1, key.2)
                == recorded(before, key.0, key.1, key.2) by {
                lemma_recorded_elsewhere(before, after, at, key.0, key.1, key.2);
            }
            assert(self.amounts() =~= old(self).amounts().insert(
                (*currency, *owner, *party),
                amount as nat,
            ));
        }
    }
}

/// Writing an entry at `at`, over one that stands for the same key or behind
/// the last, leaves what is recorded for every other key as it was.
proof fn lemma_recorded_elsewhere(
    before: Seq<Entry>,
    after: Seq<Entry>,
    at: int,
    currency: [u8; 32],
    owner: Address,
    party: Address,
)
    requires
        0 <= at < after.len(),
        !after[at].is_for(currency, owner, party),
        after.len() == before.len() || (after.len() == before.len() + 1 && at == before.len()),
        forall|j: int| 0 <= j < before.len() && j != at ==> after[j] == before[j],
        at < before.len() ==> !before[at].is_for(currency, owner, party),
    ensures
        recorded(after, currency, owner, party) == recorded(before, currency, owner, party),
{
    assert forall|i: int|
        first_at(before, currency, owner, party, i) implies first_at(
        after,
        currency,
        owner,
        party,
        i,
    ) by {
        assert forall|j: int| 0 <= j < i implies !(#[trigger] after[j]).is_for(
            currency,
            owner,
            party,
        ) by {
            if j != at {
                assert(!before[j].is_for(currency, owner, party));
            }
        }
    }
    assert forall|i: int|
        first_at(after, currency, owner, party, i) implies first_at(
        before,
        currency,
        owner,
        party,
        i,
    ) by {
        assert forall|j: int| 0 <= j < i implies !(#[trigger] before[j]).is_for(
            currency,
            owner,
            party,
        ) by {
            if j != at {
                assert(!after[j].is_for(currency, owner, party));
            }
        }
    }
    if exists|i: int| first_at(before, currency, owner, party, i) {
        let i = choose|i: int| first_at(before, currency, owner, party, i);
        lemma_recorded_at(before, currency, owner, party, i);
        lemma_recorded_at(after, currency, owner, party, i);
    }
}

/// A ledger held in memory.
///
/// It moves value as [`LedgerView`] says, and a move that it refuses leaves it
/// as it was.
#[derive(Debug)]
pub struct Ledger {
    balances: Book,
    allowances: Book,
}

impl View for Ledger {
    type V = LedgerView;

    closed spec fn view(&self) -> LedgerView {
        LedgerView {
            balances: Map::total(
                |key: ([u8; 32], Address)| self.balances.amounts()[(key.0, key.1, key.1)],
            ),
            allowances: self.allowances.amounts(),
        }
    }
}

impl Clone for Ledger {
    fn clone(&self) -> (copy: Self)
        ensures
            copy@ == self@,
    {
        Ledger { balances: self.balances.copy(), allowances: self.allowances.copy() }
    }
}

impl Ledger {
    /// The ledger on which nobody holds anything.
    pub fn new() -> (ledger: Ledger)
        ensures
            ledger@ == LedgerView::empty(),
    {
        let ledger = Ledger { balances: Book::new(), allowances: Book::new() };
        assert(ledger@.balances =~= LedgerView::empty().balances);
        ledger
    }

    /// What `holder` holds of `currency`.
    pub fn balance(&self, currency: &[u8; 32], holder: &Address) -> (amount: u128)
        ensures
            amount == self@.balance(*currency, *holder),
    {
        self.balances.get(currency, holder, holder)
    }

    /// What `owner` lets `spender` move of `currency`.
    pub fn allowance(&self, currency: &[u8; 32], owner: &Address, spender: &Address) -> (amount:
        u128)
        ensures
            amount == self@.allowance(*currency, *owner, *spender),
    {
        self.allowances.get(currency, owner, spender)
    }

    fn set_balance(&mut self, currency: &[u8; 32], holder: &Address, amount: u128)
        ensures
            final(self)@ == old(self)@.with_balance(*currency, *holder, amount as nat),
    {
        self.balances.set(currency, holder, holder, amount);
        assert(self@.balances =~= old(self)@.with_balance(
            *currency,
            *holder,
            amount as nat,
        ).balances);
    }

    /// Lets `spender` move up to `amount` of what `owner` holds of `currency`,
    /// in place of whatever `owner` allowed before.
    pub fn approve(&mut self, currency: &[u8; 32], owner: &Address, spender: &Address, amount: u128)
        ensures
            final(self)@ == old(self)@.with_allowance(*currency, *owner, *spender, amount as nat),
    {
        self.allowances.set(currency, owner, spender, amount);
    }

    /// Issues `amount` of `currency` to `to`.
    pub fn mint(&mut self, currency: &[u8; 32], to: &Address, amount: u128) -> (done: Result<
        (),
        LedgerError,
    >)
        ensures
            match old(self)@.mint(*currency, *to, amount as nat) {
                Ok(after) => done is Ok && final(self)@ == after,
                Err(error) => done == Err::<(), LedgerError>(error) && final(self)@ == old(self)@,
            },
    {
        let held = self.balance(currency, to);
        if held > u128::MAX - amount {
            return Err(LedgerError::BalanceOverflow);
        }
        self.set_balance(currency, to, held + amount);
        Ok(())
    }

    /// Moves `amount` of `currency` from `from` to `to`.
    pub fn transfer(&mut self, currency: &[u8; 32], from: &Address, to: &Address, amount: u128)
        -> (done: Result<(), LedgerError>)
        ensures
            match old(self)@.transfer(*currency, *from, *to, amount as nat) {
                Ok(after) => done is Ok && final(self)@ == after,
                Err(error) => done == Err::<(), LedgerError>(error) && final(self)@ == old(self)@,
            },
    {
        let available = self.balance(currency, from);
        if available < amount {
            return Err(LedgerError::InsufficientBalance);
        }
        let held = if from.same(to) {
            available - amount
        } else {
            self.balance(currency, to)
        };
        if held > u128::MAX - amount {
            return Err(LedgerError::BalanceOverflow);
        }
        self.set_balance(currency, from, available - amount);
        self.set_balance(currency, to, held + amount);
        Ok(())
    }

    /// Moves `amount` of `currency` from `from` to `to` on behalf of
    /// `spender`, and takes it off what `from` lets `spender` move.
    pub fn transfer_from(
        &mut self,
        currency: &[u8; 32],
        spender: &Address,
        from: &Address,
        to: &Address,
        amount: u128,
    ) -> (done: Result<(), LedgerError>)
        ensures
            match old(self)@.transfer_from(*currency, *spender, *from, *to, amount as nat) {
                Ok(after) => done is Ok && final(self)@ == after,
                Err(error) => done == Err::<(), LedgerError>(error) && final(self)@ == old(self)@,
            },
    {
        let allowed = self.allowance(currency, from, spender);
        if allowed < amount {
            return Err(LedgerError::InsufficientAllowance);
        }
        match self.transfer(currency, from, to, amount) {
            Err(error) => Err(error),
            Ok(()) => {
                self.approve(currency, from, spender, allowed - amount);
                Ok(())
            },
        }
    }
}

} // verus!
