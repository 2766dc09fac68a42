//! The engine: the ledger in hash maps, and the transactions applied to it.

use crate::ledger::{lemma_apply_preserves_wf, Ledger};
use crate::money::{lemma_money_fits, Money};
use crate::types::{
    Account, AccountView, ClientId, DepositRecord, DisputeState, EngineError, Transaction,
    TransactionId,
};
use std::collections::hash_map::Entry;
use std::collections::HashMap;
use vstd::prelude::*;
use vstd::std_specs::hash::*;
use vstd::std_specs::iter::IteratorSpec;

verus! {

broadcast use vstd::std_specs::hash::group_hash_axioms;

/// Replays transactions into account balances. It owns the accounts and the
/// deposit records; others see them through `get_accounts` and the view.
pub struct Engine {
    accounts: HashMap<ClientId, Account>,
    deposits: HashMap<TransactionId, DepositRecord>,
}

impl View for Engine {
    type V = Ledger;

    /// The ledger that the engine holds.
    closed spec fn view(&self) -> Ledger {
        Ledger {
            accounts: self.accounts@.map_values(|account: Account| account@),
            deposits: self.deposits@.map_values(|deposit: DepositRecord| deposit@),
        }
    }
}

impl Engine {
    /// An engine without accounts and deposits.
    pub fn new() -> (r: Engine)
        ensures
            r@ == Ledger::empty(),
            r@.wf(),
    {
        let engine = Engine { accounts: HashMap::new(), deposits: HashMap::new() };
        assert(engine@.accounts =~= Map::empty());
        assert(engine@.deposits =~= Map::empty());
        engine
    }

    /// The accounts, each once, in no particular order.
    pub fn get_accounts(&self) -> (r: Vec<Account>)
        ensures
            self@.lists(r@.map_values(|account: Account| account@)),
    {
        let mut listing: Vec<Account> = Vec::new();
        let ghost order = spec_keys_iter(&self.accounts).remaining();
        let ghost clients = order.unref();
        for client in keys: self.accounts.keys()
            invariant
                keys.seq() == order,
                clients == order.unref(),
                clients.to_set() == self.accounts@.dom(),
                listing@.len() == keys.index(),
                forall|i: int|
                    0 <= i < listing@.len() ==> listing@[i]
                        == self.accounts@[#[trigger] clients[i]],
        {
            assert(clients[keys.index()] == *client);
            assert(clients.contains(*client));
            match self.accounts.get(client) {
                Some(account) => listing.push(*account),
                None => {},
            }
        }
        proof {
            let views = listing@.map_values(|account: Account| account@);
            assert(clients.no_duplicates()) by {
                assert(order.no_duplicates());
            }
            assert forall|i: int| 0 <= i < clients.len() implies views[i]
                == self@.accounts[#[trigger] clients[i]] by {
                assert(clients.contains(clients[i]));
            }
            assert(clients.to_set() =~= self@.accounts.dom());
        }
        listing
    }

    /// Applies one transaction. It is either taken, and changes the ledger as
    /// its kind says, or turned down with the reason, and then changes nothing
    /// but for the account that a first deposit or withdrawal opens.
    pub fn do_transaction(&mut self, transaction: Transaction) -> (r: Result<(), EngineError>)
        ensures
            final(self)@ == old(self)@.apply(transaction).ledger,
            r == old(self)@.apply(transaction).result,
            old(self)@.wf() ==> final(self)@.wf(),
    {
        proof {
            if self@.wf() {
                lemma_apply_preserves_wf(self@, transaction);
            }
        }
        match transaction {
            Transaction::Deposit { id, client, amount } => self.do_deposit(id, client, amount),
            Transaction::Withdrawal { client, amount, .. } => self.do_withdrawal(client, amount),
            Transaction::Dispute { client, deposit } => self.do_dispute(client, deposit),
            Transaction::Resolve { client, deposit } => self.do_resolve(client, deposit),
            Transaction::Chargeback { client, deposit } => self.do_chargeback(client, deposit),
        }
    }

    /// A deposit: unless its id was used or the account is locked, the amount
    /// is added to what is available and the deposit is recorded.
    fn do_deposit(&mut self, id: TransactionId, client: ClientId, amount: Money) -> (r: Result<
        (),
        EngineError,
    >)
        ensures
            final(self)@ == old(self)@.deposit(id, client, amount@).ledger,
            r == old(self)@.deposit(id, client, amount@).result,
    {
        if self.deposits.contains_key(&id) {
            return Err(EngineError::DuplicateTransaction);
        }
        let account = match Engine::get_account_mut(&mut self.accounts, client, true) {
            Ok(account) => account,
            Err(error) => {
                return Err(error);
            },
        };
        let balances = Engine::checked_balances(
            account.available.checked_add(amount),
            Some(account.held),
        );
        let (available, _) = match balances {
            Some(balances) => balances,
            None => {
                assert(self@.accounts =~= old(self)@.opened(client).accounts);
                return Err(EngineError::Overflow);
            },
        };
        account.available = available;
        self.deposits.insert(id, DepositRecord { client, amount, state: DisputeState::Deposited });
        proof {
            let after = old(self)@.deposit(id, client, amount@).ledger;
            assert(self@.accounts =~= after.accounts);
            assert(self@.deposits =~= after.deposits);
        }
        Ok(())
    }

    /// A withdrawal: unless the account is locked or holds too little, the
    /// amount is taken from what is available.
    fn do_withdrawal(&mut self, client: ClientId, amount: Money) -> (r: Result<(), EngineError>)
        ensures
            final(self)@ == old(self)@.withdraw(client, amount@).ledger,
            r == old(self)@.withdraw(client, amount@).result,
    {
        let account = match Engine::get_account_mut(&mut self.accounts, client, true) {
            Ok(account) => account,
            Err(error) => {
                return Err(error);
            },
        };
        if amount > account.available {
            assert(self@.accounts =~= old(self)@.opened(client).accounts);
            return Err(EngineError::InsufficientFunds);
        }
        let balances = Engine::checked_balances(
            account.available.checked_sub(amount),
            Some(account.held),
        );
        let (available, _) = match balances {
            Some(balances) => balances,
            None => {
                assert(self@.accounts =~= old(self)@.opened(client).accounts);
                return Err(EngineError::Overflow);
            },
        };
        account.available = available;
        proof {
            let after = old(self)@.withdraw(client, amount@).ledger;
            assert(self@.accounts =~= after.accounts);
        }
        Ok(())
    }

    /// A dispute: the amount of a deposit of the client moves from available
    /// to held.
    fn do_dispute(&mut self, client: ClientId, deposit: TransactionId) -> (r: Result<
        (),
        EngineError,
    >)
        ensures
            final(self)@ == old(self)@.dispute(client, deposit).ledger,
            r == old(self)@.dispute(client, deposit).result,
    {
        let ghost id = deposit;
        let deposit = match Engine::get_deposit_mut(
            &mut self.deposits,
            deposit,
            client,
            DisputeState::Deposited,
        ) {
            Ok(deposit) => deposit,
            Err(error) => {
                return Err(error);
            },
        };
        let account = match Engine::get_account_mut(&mut self.accounts, client, false) {
            Ok(account) => account,
            Err(error) => {
                assert(self@.deposits =~= old(self)@.deposits);
                return Err(error);
            },
        };
        let balances = Engine::checked_balances(
            account.available.checked_sub(deposit.amount),
            account.held.checked_add(deposit.amount),
        );
        let (available, held) = match balances {
            Some(balances) => balances,
            None => {
                assert(self@.accounts =~= old(self)@.accounts);
                assert(self@.deposits =~= old(self)@.deposits);
                return Err(EngineError::Overflow);
            },
        };
        account.available = available;
        account.held = held;
        deposit.state = DisputeState::Disputed;
        proof {
            let after = old(self)@.dispute(client, id).ledger;
            assert(self@.accounts =~= after.accounts);
            assert(self@.deposits =~= after.deposits);
        }
        Ok(())
    }

    /// A resolution: the amount of a disputed deposit moves back from held to
    /// available.
    fn do_resolve(&mut self, client: ClientId, deposit: TransactionId) -> (r: Result<
        (),
        EngineError,
    >)
        ensures
            final(self)@ == old(self)@.resolve(client, deposit).ledger,
            r == old(self)@.resolve(client, deposit).result,
    {
        let ghost id = deposit;
        let deposit = match Engine::get_deposit_mut(
            &mut self.deposits,
            deposit,
            client,
            DisputeState::Disputed,
        ) {
            Ok(deposit) => deposit,
            Err(error) => {
                return Err(error);
            },
        };
        let account = match Engine::get_account_mut(&mut self.accounts, client, false) {
            Ok(account) => account,
            Err(error) => {
                assert(self@.deposits =~= old(self)@.deposits);
                return Err(error);
            },
        };
        let balances = Engine::checked_balances(
            account.available.checked_add(deposit.amount),
            account.held.checked_sub(deposit.amount),
        );
        let (available, held) = match balances {
            Some(balances) => balances,
            None => {
                assert(self@.accounts =~= old(self)@.accounts);
                assert(self@.deposits =~= old(self)@.deposits);
                return Err(EngineError::Overflow);
            },
        };
        account.available = available;
        account.held = held;
        deposit.state = DisputeState::Resolved;
        proof {
            let after = old(self)@.resolve(client, id).ledger;
            assert(self@.accounts =~= after.accounts);
            assert(self@.deposits =~= after.deposits);
        }
        Ok(())
    }

    /// A chargeback: the amount of a disputed deposit leaves what is held, and
    /// the account is locked.
    fn do_chargeback(&mut self, client: ClientId, deposit: TransactionId) -> (r: Result<
        (),
        EngineError,
    >)
        ensures
            final(self)@ == old(self)@.chargeback(client, deposit).ledger,
            r == old(self)@.chargeback(client, deposit).result,
    {
        let ghost id = deposit;
        let deposit = match Engine::get_deposit_mut(
            &mut self.deposits,
            deposit,
            client,
            DisputeState::Disputed,
        ) {
            Ok(deposit) => deposit,
            Err(error) => {
                return Err(error);
            },
        };
        let account = match Engine::get_account_mut(&mut self.accounts, client, false) {
            Ok(account) => account,
            Err(error) => {
                assert(self@.deposits =~= old(self)@.deposits);
                return Err(error);
            },
        };
        let balances = Engine::checked_balances(
            Some(account.available),
            account.held.checked_sub(deposit.amount),
        );
        let (available, held) = match balances {
            Some(balances) => balances,
            None => {
                assert(self@.accounts =~= old(self)@.accounts);
                assert(self@.deposits =~= old(self)@.deposits);
                return Err(EngineError::Overflow);
            },
        };
        account.held = held;
        account.locked = true;
        deposit.state = DisputeState::ChargedBack;
        proof {
            let after = old(self)@.chargeback(client, id).ledger;
            assert(self@.accounts =~= after.accounts);
            assert(self@.deposits =~= after.deposits);
        }
        Ok(())
    }

    /// The two balances, where both of them and their total can be held.
    fn checked_balances(available: Option<Money>, held: Option<Money>) -> (r: Option<
        (Money, Money),
    >)
        ensures
            match r {
                Some(balances) => {
                    &&& available == Some(balances.0)
                    &&& held == Some(balances.1)
                    &&& Money::fits(balances.0@)
                    &&& Money::fits(balances.1@)
                    &&& Money::fits(balances.0@ + balances.1@)
                },
                None => available is None || held is None || !Money::fits(
                    available->0@ + held->0@,
                ),
            },
    {
        match (available, held) {
            (Some(available), Some(held)) => {
                proof {
                    lemma_money_fits(available);
                    lemma_money_fits(held);
                }
                match available.checked_add(held) {
                    Some(total) => {
                        proof {
                            lemma_money_fits(total);
                        }
                        Some((available, held))
                    },
                    None => None,
                }
            },
            _ => None,
        }
    }

    /// The account of `client`, to be changed in place. Where the client has
    /// none, one is opened if `create` says so. A locked account is not handed
    /// out.
    fn get_account_mut(
        accounts: &mut HashMap<ClientId, Account>,
        client: ClientId,
        create: bool,
    ) -> (r: Result<&mut Account, EngineError>)
        ensures
            match r {
                Ok(account) => {
                    &&& old(accounts)@.contains_key(client) || create
                    &&& account@ == (if old(accounts)@.contains_key(client) {
                        old(accounts)@[client]@
                    } else {
                        AccountView::fresh(client)
                    })
                    &&& !account.locked
                    &&& final(accounts)@ == old(accounts)@.insert(client, *final(account))
                },
                Err(error) => {
                    &&& final(accounts)@ == old(accounts)@
                    &&& if old(accounts)@.contains_key(client) {
                        old(accounts)@[client].locked && error == EngineError::LockedAccount
                    } else {
                        !create && error == EngineError::AccountNotFound
                    }
                },
            },
    {
        let account = match accounts.entry(client) {
            Entry::Occupied(entry) => entry.into_mut(),
            Entry::Vacant(entry) => {
                if create {
                    entry.insert(Account::new(client))
                } else {
                    return Err(EngineError::AccountNotFound);
                }
            },
        };
        if account.locked {
            return Err(EngineError::LockedAccount);
        }
        Ok(account)
    }

    /// The record of the deposit `id`, to be changed in place. It is handed
    /// out where it is the own deposit of `client` and stands in the state
    /// `expected`.
    fn get_deposit_mut(
        deposits: &mut HashMap<TransactionId, DepositRecord>,
        id: TransactionId,
        client: ClientId,
        expected: DisputeState,
    ) -> (r: Result<&mut DepositRecord, EngineError>)
        ensures
            match r {
                Ok(deposit) => {
                    &&& old(deposits)@.contains_key(id)
                    &&& *deposit == old(deposits)@[id]
                    &&& deposit.client == client
                    &&& deposit.state == expected
                    &&& final(deposits)@ == old(deposits)@.insert(id, *final(deposit))
                },
                Err(error) => {
                    &&& final(deposits)@ == old(deposits)@
                    &&& if !old(deposits)@.contains_key(id) {
                        error == EngineError::DepositNotFound
                    } else if old(deposits)@[id].client != client {
                        error == EngineError::ClientMismatch
                    } else {
                        old(deposits)@[id].state != expected && error == EngineError::InvalidState
                    }
                },
            },
    {
        let deposit = match deposits.entry(id) {
            Entry::Occupied(entry) => entry.into_mut(),
            Entry::Vacant(_) => {
                return Err(EngineError::DepositNotFound);
            },
        };
        if deposit.client != client {
            return Err(EngineError::ClientMismatch);
        }
        if deposit.state != expected {
            return Err(EngineError::InvalidState);
        }
        Ok(deposit)
    }
}

} // verus!
