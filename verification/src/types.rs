//! The data of the ledger: transactions, accounts, deposit records and the
//! failures of a transaction.

use crate::money::Money;
use vstd::prelude::*;

verus! {

/// Identifies an account holder.
pub type ClientId = u16;

/// Identifies a deposit. Disputes, resolutions and chargebacks name the
/// deposit they are about by it; the ids of withdrawals are not kept.
pub type TransactionId = u32;

/// One request to the ledger.
#[derive(Clone, Copy, Debug, PartialEq, Eq, Structural)]
pub enum Transaction {
    Deposit { id: TransactionId, client: ClientId, amount: Money },
    Withdrawal { id: TransactionId, client: ClientId, amount: Money },
    Dispute { client: ClientId, deposit: TransactionId },
    Resolve { client: ClientId, deposit: TransactionId },
    Chargeback { client: ClientId, deposit: TransactionId },
}

/// Where a deposit stands in its dispute: `Deposited`, then `Disputed`, then
/// either `Resolved` or `ChargedBack`, and no other way.
#[derive(Clone, Copy, Debug, PartialEq, Eq, Structural)]
pub enum DisputeState {
    Deposited,
    Disputed,
    Resolved,
    ChargedBack,
}

/// Why a transaction was turned down.
#[derive(Clone, Copy, Debug, PartialEq, Eq, Structural)]
pub enum EngineError {
    /// A deposit with this id was made before.
    DuplicateTransaction,
    /// The account is locked.
    LockedAccount,
    /// The withdrawal asks for more than is available.
    InsufficientFunds,
    /// No deposit has this id.
    DepositNotFound,
    /// The deposit belongs to another client.
    ClientMismatch,
    /// The deposit is not in the state that the transaction asks for.
    InvalidState,
    /// The client has no account.
    AccountNotFound,
    /// A balance would leave the range that an amount can hold.
    Overflow,
}

/// What a client has.
#[derive(Clone, Copy, Debug, PartialEq, Eq, Structural)]
pub struct Account {
    pub client: ClientId,
    /// What the client can withdraw, or have disputed.
    pub available: Money,
    /// What is frozen by disputes.
    pub held: Money,
    /// Set by a chargeback, for good.
    pub locked: bool,
}

/// An account as contracts speak of it, with its amounts in ten-thousandths.
pub struct AccountView {
    pub client: ClientId,
    pub available: int,
    pub held: int,
    pub locked: bool,
}

impl AccountView {
    /// The account that a client starts with.
    pub open spec fn fresh(client: ClientId) -> AccountView {
        AccountView { client, available: 0, held: 0, locked: false }
    }

    /// Available and held together.
    pub open spec fn total(self) -> int {
        self.available + self.held
    }

    /// Whether the balances, and their total, are amounts that can be held.
    pub open spec fn representable(self) -> bool {
        &&& Money::fits(self.available)
        &&& Money::fits(self.held)
        &&& Money::fits(self.total())
    }
}

impl View for Account {
    type V = AccountView;

    open spec fn view(&self) -> AccountView {
        AccountView {
            client: self.client,
            available: self.available@,
            held: self.held@,
            locked: self.locked,
        }
    }
}

impl Account {
    /// A fresh account: nothing available, nothing held, not locked.
    pub fn new(client: ClientId) -> (r: Account)
        ensures
            r@ == AccountView::fresh(client),
    {
        Account { client, available: Money::zero(), held: Money::zero(), locked: false }
    }

    /// Available and held together.
    pub fn total(&self) -> (r: Money)
        requires
            Money::fits(self@.total()),
        ensures
            r@ == self@.total(),
            r@ == self.available@ + self.held@,
    {
        self.available.add(self.held)
    }
}

/// What is kept of a deposit, for the disputes that may follow it.
#[derive(Clone, Copy, Debug, PartialEq, Eq, Structural)]
pub struct DepositRecord {
    pub client: ClientId,
    pub amount: Money,
    pub state: DisputeState,
}

/// A deposit record as contracts speak of it.
pub struct DepositView {
    pub client: ClientId,
    pub amount: int,
    pub state: DisputeState,
}

impl View for DepositRecord {
    type V = DepositView;

    open spec fn view(&self) -> DepositView {
        DepositView { client: self.client, amount: self.amount@, state: self.state }
    }
}

} // verus!
