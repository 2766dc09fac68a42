//! The ledger as contracts speak of it: accounts and deposit records as maps,
//! and what each transaction makes of them.

use crate::money::{lemma_money_fits, Money};
use crate::types::{
    AccountView, ClientId, DepositView, DisputeState, EngineError, Transaction, TransactionId,
};
use vstd::prelude::*;

verus! {

/// The accounts by client and the deposit records by deposit id.
pub struct Ledger {
    pub accounts: Map<ClientId, AccountView>,
    pub deposits: Map<TransactionId, DepositView>,
}

/// What a transaction leaves: the ledger after it, and whether it was taken.
pub struct Step {
    pub ledger: Ledger,
    pub result: Result<(), EngineError>,
}

impl Ledger {
    /// The ledger without accounts and deposits.
    pub open spec fn empty() -> Ledger {
        Ledger { accounts: Map::empty(), deposits: Map::empty() }
    }

    /// What holds of every ledger that transactions have built: an account is
    /// filed under its own client, its balances and their total are amounts
    /// that can be held, and every deposit record belongs to a client with an
    /// account.
    pub open spec fn wf(self) -> bool {
        &&& forall|client: ClientId| #[trigger]
            self.accounts.contains_key(client) ==> {
                &&& self.accounts[client].client == client
                &&& self.accounts[client].representable()
            }
        &&& forall|id: TransactionId| #[trigger]
            self.deposits.contains_key(id) ==> {
                &&& self.accounts.contains_key(self.deposits[id].client)
                &&& Money::fits(self.deposits[id].amount)
            }
    }

    /// Whether `listing` holds the account of every client once, in any
    /// order.
    pub open spec fn lists(self, listing: Seq<AccountView>) -> bool {
        exists|clients: Seq<ClientId>|
            {
                &&& clients.no_duplicates()
                &&& clients.to_set() == self.accounts.dom()
                &&& #[trigger] clients.len() == listing.len()
                &&& forall|i: int|
                    0 <= i < clients.len() ==> listing[i] == self.accounts[#[trigger] clients[i]]
            }
    }

    /// Every account that a listing of a well-formed ledger holds is the
    /// account of its own client, with balances and a total that can be held.
    pub proof fn lemma_listed_accounts(self, listing: Seq<AccountView>)
        requires
            self.lists(listing),
            self.wf(),
        ensures
            forall|i: int|
                0 <= i < listing.len() ==> {
                    &&& self.accounts.contains_key((#[trigger] listing[i]).client)
                    &&& self.accounts[listing[i].client] == listing[i]
                    &&& listing[i].representable()
                },
    {
        let clients = choose|clients: Seq<ClientId>|
            {
                &&& clients.no_duplicates()
                &&& clients.to_set() == self.accounts.dom()
                &&& #[trigger] clients.len() == listing.len()
                &&& forall|i: int|
                    0 <= i < clients.len() ==> listing[i] == self.accounts[#[trigger] clients[i]]
            };
        assert forall|i: int| 0 <= i < listing.len() implies self.accounts.contains_key(
            clients[i],
        ) && self.accounts[clients[i]] == #[trigger] listing[i] by {
            assert(clients.to_set().contains(clients[i]));
        }
    }

    /// The ledger once `client` has an account: a first deposit or withdrawal
    /// opens one, with nothing in it.
    pub open spec fn opened(self, client: ClientId) -> Ledger {
        if self.accounts.contains_key(client) {
            self
        } else {
            Ledger { accounts: self.accounts.insert(client, AccountView::fresh(client)), ..self }
        }
    }

    /// The ledger with the account of `client` set to `account`.
    pub open spec fn with_account(self, client: ClientId, account: AccountView) -> Ledger {
        Ledger { accounts: self.accounts.insert(client, account), ..self }
    }

    /// The ledger with the deposit `id` brought to `state`.
    pub open spec fn with_state(self, id: TransactionId, state: DisputeState) -> Ledger {
        Ledger {
            deposits: self.deposits.insert(id, DepositView { state, ..self.deposits[id] }),
            ..self
        }
    }

    /// The transaction is turned down and the ledger stays as it is.
    pub open spec fn rejected(self, error: EngineError) -> Step {
        Step { ledger: self, result: Err(error) }
    }

    /// The transaction is taken and leaves `self`.
    pub open spec fn accepted(self) -> Step {
        Step { ledger: self, result: Ok(()) }
    }

    /// A deposit of `amount` ten-thousandths for `client`, under `id`.
    pub open spec fn deposit(self, id: TransactionId, client: ClientId, amount: int) -> Step {
        if self.deposits.contains_key(id) {
            self.rejected(EngineError::DuplicateTransaction)
        } else {
            let opened = self.opened(client);
            let account = opened.accounts[client];
            let credited = AccountView { available: account.available + amount, ..account };
            if account.locked {
                opened.rejected(EngineError::LockedAccount)
            } else if !credited.representable() {
                opened.rejected(EngineError::Overflow)
            } else {
                Ledger {
                    accounts: opened.accounts.insert(client, credited),
                    deposits: self.deposits.insert(
                        id,
                        DepositView { client, amount, state: DisputeState::Deposited },
                    ),
                }.accepted()
            }
        }
    }

    /// A withdrawal of `amount` ten-thousandths by `client`.
    pub open spec fn withdraw(self, client: ClientId, amount: int) -> Step {
        let opened = self.opened(client);
        let account = opened.accounts[client];
        let debited = AccountView { available: account.available - amount, ..account };
        if account.locked {
            opened.rejected(EngineError::LockedAccount)
        } else if amount > account.available {
            opened.rejected(EngineError::InsufficientFunds)
        } else if !debited.representable() {
            opened.rejected(EngineError::Overflow)
        } else {
            opened.with_account(client, debited).accepted()
        }
    }

    /// Whether `client` may move the deposit `id` out of the state `required`:
    /// the deposit exists, is the client's own and stands in that state, and
    /// the client's account exists and is not locked. The checks are made in
    /// this order, and the first that fails names the error.
    pub open spec fn claim(
        self,
        client: ClientId,
        id: TransactionId,
        required: DisputeState,
    ) -> Result<(), EngineError> {
        if !self.deposits.contains_key(id) {
            Err(EngineError::DepositNotFound)
        } else if self.deposits[id].client != client {
            Err(EngineError::ClientMismatch)
        } else if self.deposits[id].state != required {
            Err(EngineError::InvalidState)
        } else if !self.accounts.contains_key(client) {
            Err(EngineError::AccountNotFound)
        } else if self.accounts[client].locked {
            Err(EngineError::LockedAccount)
        } else {
            Ok(())
        }
    }

    /// The account of `client` is set to `account` and the deposit `id` is
    /// brought to `state`, where the new balances can be held.
    pub open spec fn settle(
        self,
        client: ClientId,
        id: TransactionId,
        account: AccountView,
        state: DisputeState,
    ) -> Step {
        if !account.representable() {
            self.rejected(EngineError::Overflow)
        } else {
            self.with_account(client, account).with_state(id, state).accepted()
        }
    }

    /// A dispute of the deposit `id`: its amount moves from available to held.
    pub open spec fn dispute(self, client: ClientId, id: TransactionId) -> Step {
        match self.claim(client, id, DisputeState::Deposited) {
            Err(error) => self.rejected(error),
            Ok(_) => {
                let account = self.accounts[client];
                let amount = self.deposits[id].amount;
                self.settle(
                    client,
                    id,
                    AccountView {
                        available: account.available - amount,
                        held: account.held + amount,
                        ..account
                    },
                    DisputeState::Disputed,
                )
            },
        }
    }

    /// The resolution of a dispute: the amount moves back from held to
    /// available.
    pub open spec fn resolve(self, client: ClientId, id: TransactionId) -> Step {
        match self.claim(client, id, DisputeState::Disputed) {
            Err(error) => self.rejected(error),
            Ok(_) => {
                let account = self.accounts[client];
                let amount = self.deposits[id].amount;
                self.settle(
                    client,
                    id,
                    AccountView {
                        available: account.available + amount,
                        held: account.held - amount,
                        ..account
                    },
                    DisputeState::Resolved,
                )
            },
        }
    }

    /// A chargeback: the held amount leaves the account, which is locked.
    pub open spec fn chargeback(self, client: ClientId, id: TransactionId) -> Step {
        match self.claim(client, id, DisputeState::Disputed) {
            Err(error) => self.rejected(error),
            Ok(_) => {
                let account = self.accounts[client];
                let amount = self.deposits[id].amount;
                self.settle(
                    client,
                    id,
                    AccountView { held: account.held - amount, locked: true, ..account },
                    DisputeState::ChargedBack,
                )
            },
        }
    }

    /// What `transaction` makes of the ledger.
    pub open spec fn apply(self, transaction: Transaction) -> Step {
        match transaction {
            Transaction::Deposit { id, client, amount } => self.deposit(id, client, amount@),
            Transaction::Withdrawal { client, amount, .. } => self.withdraw(client, amount@),
            Transaction::Dispute { client, deposit } => self.dispute(client, deposit),
            Transaction::Resolve { client, deposit } => self.resolve(client, deposit),
            Transaction::Chargeback { client, deposit } => self.chargeback(client, deposit),
        }
    }

    /// The ledger after `transactions`, applied in their order.
    pub open spec fn replay(self, transactions: Seq<Transaction>) -> Ledger
        decreases transactions.len(),
    {
        if transactions.len() == 0 {
            self
        } else {
            self.replay(transactions.drop_last()).apply(transactions.last()).ledger
        }
    }

    /// What became of each transaction of `transactions`, applied in their
    /// order.
    pub open spec fn outcomes(self, transactions: Seq<Transaction>) -> Seq<
        Result<(), EngineError>,
    > {
        Seq::new(
            transactions.len(),
            |i: int| self.replay(transactions.take(i)).apply(transactions[i]).result,
        )
    }
}

/// Whether `transaction` is a dispute, a resolution or a chargeback of the
/// deposit `id` in the name of `client`, and which state it asks of the deposit.
pub open spec fn refers_to(
    transaction: Transaction,
    client: ClientId,
    id: TransactionId,
    required: DisputeState,
) -> bool {
    ||| transaction == (Transaction::Dispute { client, deposit: id }) && required
        == DisputeState::Deposited
    ||| transaction == (Transaction::Resolve { client, deposit: id }) && required
        == DisputeState::Disputed
    ||| transaction == (Transaction::Chargeback { client, deposit: id }) && required
        == DisputeState::Disputed
}

/// Whether a deposit may go from the state `from` to the state `to`: from
/// deposited to disputed, and from disputed to resolved or charged back.
pub open spec fn may_follow(from: DisputeState, to: DisputeState) -> bool {
    ||| from == DisputeState::Deposited && to == DisputeState::Disputed
    ||| from == DisputeState::Disputed && to == DisputeState::Resolved
    ||| from == DisputeState::Disputed && to == DisputeState::ChargedBack
}

/// A transaction leaves a well-formed ledger well-formed. In particular the
/// total of every account, available and held together, stays an amount that
/// can be held.
pub proof fn lemma_apply_preserves_wf(ledger: Ledger, transaction: Transaction)
    requires
        ledger.wf(),
    ensures
        ledger.apply(transaction).ledger.wf(),
{
    match transaction {
        Transaction::Deposit { amount, .. } => {
            lemma_money_fits(amount);
        },
        _ => {},
    }
}

/// Every ledger that transactions have built from the empty one is well-formed.
pub proof fn lemma_replay_preserves_wf(ledger: Ledger, transactions: Seq<Transaction>)
    requires
        ledger.wf(),
    ensures
        ledger.replay(transactions).wf(),
    decreases transactions.len(),
{
    if transactions.len() > 0 {
        lemma_replay_preserves_wf(ledger, transactions.drop_last());
        lemma_apply_preserves_wf(ledger.replay(transactions.drop_last()), transactions.last());
    }
}

/// A transaction that is turned down changes nothing, but for the empty
/// account that a withdrawal opens for a client who had none.
pub proof fn lemma_rejection_changes_nothing(ledger: Ledger, transaction: Transaction)
    requires
        ledger.apply(transaction).result is Err,
    ensures
        ledger.apply(transaction).ledger == (match transaction {
            Transaction::Withdrawal { client, .. } => ledger.opened(client),
            _ => ledger,
        }),
{
    match transaction {
        Transaction::Deposit { amount, .. } => {
            lemma_money_fits(amount);
        },
        _ => {},
    }
}

/// A transaction changes the total of an account, available and held
/// together, by what it brings or takes: a deposit adds its amount, a
/// withdrawal and a chargeback take theirs, a dispute and a resolution leave
/// the total as it was. A chargeback takes from what is held and leaves what
/// is available. No transaction touches the account of another client.
pub proof fn lemma_total_after(ledger: Ledger, transaction: Transaction, other: ClientId)
    requires
        ledger.apply(transaction).result is Ok,
    ensures
        ({
            let after = ledger.apply(transaction).ledger;
            match transaction {
                Transaction::Deposit { client, amount, .. } => after.accounts[client].total()
                    == ledger.opened(client).accounts[client].total() + amount@,
                Transaction::Withdrawal { client, amount, .. } => after.accounts[client].total()
                    == ledger.opened(client).accounts[client].total() - amount@,
                Transaction::Dispute { client, .. } => after.accounts[client].total()
                    == ledger.accounts[client].total(),
                Transaction::Resolve { client, .. } => after.accounts[client].total()
                    == ledger.accounts[client].total(),
                Transaction::Chargeback { client, deposit } => {
                    &&& after.accounts[client].total() == ledger.accounts[client].total()
                        - ledger.deposits[deposit].amount
                    &&& after.accounts[client].available == ledger.accounts[client].available
                },
            }
        }),
        ({
            let after = ledger.apply(transaction).ledger;
            let client = match transaction {
                Transaction::Deposit { client, .. } => client,
                Transaction::Withdrawal { client, .. } => client,
                Transaction::Dispute { client, .. } => client,
                Transaction::Resolve { client, .. } => client,
                Transaction::Chargeback { client, .. } => client,
            };
            other != client ==> after.accounts.contains_key(other) == ledger.accounts.contains_key(
                other,
            ) && after.accounts[other] == ledger.accounts[other]
        }),
{
}

/// Once an account is locked, a deposit or a withdrawal for its client is
/// turned down and changes nothing.
pub proof fn lemma_locked_account_takes_nothing(
    ledger: Ledger,
    client: ClientId,
    id: TransactionId,
    amount: int,
)
    requires
        ledger.accounts.contains_key(client),
        ledger.accounts[client].locked,
    ensures
        ledger.deposit(id, client, amount).result is Err,
        ledger.deposit(id, client, amount).ledger == ledger,
        ledger.withdraw(client, amount) == ledger.rejected(EngineError::LockedAccount),
{
}

/// Once an account is locked, no transaction of any kind changes it, and it
/// stays locked.
pub proof fn lemma_locked_account_is_frozen(
    ledger: Ledger,
    transaction: Transaction,
    client: ClientId,
)
    requires
        ledger.accounts.contains_key(client),
        ledger.accounts[client].locked,
    ensures
        ledger.apply(transaction).ledger.accounts.contains_key(client),
        ledger.apply(transaction).ledger.accounts[client] == ledger.accounts[client],
{
}

/// Once an account is locked, it is the same after any run of transactions.
pub proof fn lemma_locked_account_stays_frozen(
    ledger: Ledger,
    transactions: Seq<Transaction>,
    client: ClientId,
)
    requires
        ledger.accounts.contains_key(client),
        ledger.accounts[client].locked,
    ensures
        ledger.replay(transactions).accounts.contains_key(client),
        ledger.replay(transactions).accounts[client] == ledger.accounts[client],
    decreases transactions.len(),
{
    if transactions.len() > 0 {
        lemma_locked_account_stays_frozen(ledger, transactions.drop_last(), client);
        lemma_locked_account_is_frozen(
            ledger.replay(transactions.drop_last()),
            transactions.last(),
            client,
        );
    }
}

/// A deposit under an id that a deposit was made under before is turned down:
/// nothing changes, and the record of the first deposit stays as it is.
pub proof fn lemma_duplicate_deposit_is_rejected(
    ledger: Ledger,
    id: TransactionId,
    client: ClientId,
    amount: int,
)
    requires
        ledger.deposits.contains_key(id),
    ensures
        ledger.deposit(id, client, amount) == ledger.rejected(EngineError::DuplicateTransaction),
{
}

/// A dispute, resolution or chargeback that names no deposit, the deposit of
/// another client, or a deposit that is not in the state it asks for, is
/// turned down and changes nothing.
pub proof fn lemma_invalid_reference_is_rejected(
    ledger: Ledger,
    transaction: Transaction,
    client: ClientId,
    id: TransactionId,
    required: DisputeState,
)
    requires
        refers_to(transaction, client, id, required),
        !ledger.deposits.contains_key(id) || ledger.deposits[id].client != client
            || ledger.deposits[id].state != required,
    ensures
        ledger.apply(transaction).ledger == ledger,
        ledger.apply(transaction).result == Err::<(), EngineError>(
            if !ledger.deposits.contains_key(id) {
                EngineError::DepositNotFound
            } else if ledger.deposits[id].client != client {
                EngineError::ClientMismatch
            } else {
                EngineError::InvalidState
            },
        ),
{
}

/// In a well-formed ledger the client of a deposit has an account: a dispute,
/// resolution or chargeback is never turned down for want of one.
pub proof fn lemma_deposit_has_an_account(
    ledger: Ledger,
    transaction: Transaction,
    client: ClientId,
    id: TransactionId,
    required: DisputeState,
)
    requires
        ledger.wf(),
        refers_to(transaction, client, id, required),
    ensures
        ledger.apply(transaction).result != Err::<(), EngineError>(EngineError::AccountNotFound),
{
}

/// A dispute that is then resolved leaves every account as it was before the
/// dispute, available and held alike; of the deposits only the disputed one
/// has changed, and that only in its state.
pub proof fn lemma_dispute_then_resolve_restores(
    ledger: Ledger,
    client: ClientId,
    id: TransactionId,
)
    requires
        ledger.wf(),
        ledger.dispute(client, id).result is Ok,
    ensures
        ({
            let disputed = ledger.dispute(client, id).ledger;
            let resolved = disputed.resolve(client, id);
            &&& resolved.result is Ok
            &&& resolved.ledger.accounts == ledger.accounts
            &&& resolved.ledger.deposits == ledger.deposits.insert(
                id,
                DepositView { state: DisputeState::Resolved, ..ledger.deposits[id] },
            )
        }),
{
    let disputed = ledger.dispute(client, id).ledger;
    let resolved = disputed.resolve(client, id);
    assert(resolved.ledger.deposits =~= ledger.deposits.insert(
        id,
        DepositView { state: DisputeState::Resolved, ..ledger.deposits[id] },
    ));
}

/// No transaction removes an account or a deposit record, or changes the
/// client or the amount of a record; the state of a record stays or moves one
/// step along deposited, disputed, resolved or charged back.
pub proof fn lemma_records_are_kept(
    ledger: Ledger,
    transaction: Transaction,
    client: ClientId,
    id: TransactionId,
)
    ensures
        ledger.accounts.contains_key(client) ==> ledger.apply(
            transaction,
        ).ledger.accounts.contains_key(client),
        ledger.deposits.contains_key(id) ==> ({
            let before = ledger.deposits[id];
            let after = ledger.apply(transaction).ledger.deposits[id];
            &&& ledger.apply(transaction).ledger.deposits.contains_key(id)
            &&& after.client == before.client
            &&& after.amount == before.amount
            &&& after.state == before.state || may_follow(before.state, after.state)
        }),
{
}

} // verus!
