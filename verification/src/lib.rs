//! Replays a log of deposits, withdrawals and disputes into account balances,
//! and reports the accounts as a table.

use crate::engine::Engine;
use crate::ledger::{lemma_replay_preserves_wf, Ledger};
use crate::money::Money;
use crate::record::{
    good_prefix, lemma_good_prefix, parse_record, record_of, transactions_of, RecordError,
};
use crate::report::{account_fields, header_fields, lemma_report_is_plain, report_rows};
use crate::table::{bytes_of, csv_records, lines_of, read_records, write_records};
use crate::types::{Account, AccountView, EngineError, Transaction};
use vstd::prelude::*;

pub mod decimal;
pub mod engine;
pub mod ledger;
pub mod money;
pub mod record;
pub mod report;
pub mod table;
pub mod types;

verus! {

/// Why a log could not be replayed. Either ends the run: nothing is reported.
#[derive(Debug, PartialEq, Eq)]
pub enum RunError {
    /// The log is no table; the text is the reader's message.
    Csv(String),
    /// A record of the log is no transaction.
    Record(RecordError),
}

/// Applies the records to the engine, in their order, up to the first that
/// is no transaction. A transaction that the engine turns down does not stop
/// the run: what became of each is handed back.
pub fn process_records(engine: &mut Engine, records: &Vec<Vec<String>>) -> (r: Result<
    Vec<Result<(), EngineError>>,
    RecordError,
>)
    ensures
        final(engine)@ == old(engine)@.replay(transactions_of(records.deep_view())),
        match r {
            Ok(outcomes) => {
                &&& good_prefix(records.deep_view()) == records.len()
                &&& outcomes@ == old(engine)@.outcomes(transactions_of(records.deep_view()))
            },
            Err(error) => {
                &&& good_prefix(records.deep_view()) < records.len()
                &&& record_of(records.deep_view()[good_prefix(records.deep_view())]) == Err::<
                    Transaction,
                    RecordError,
                >(error)
            },
        },
{
    let ghost given = records.deep_view();
    let ghost start = engine@;
    let ghost mut done: Seq<Transaction> = Seq::empty();
    let mut outcomes: Vec<Result<(), EngineError>> = Vec::new();
    let mut i: usize = 0;
    while i < records.len()
        invariant
            0 <= i <= records.len(),
            given == records.deep_view(),
            start == old(engine)@,
            done.len() == i,
            forall|j: int| 0 <= j < i ==> record_of(#[trigger] given[j]) == Ok::<
                Transaction,
                RecordError,
            >(done[j]),
            engine@ == start.replay(done),
            outcomes@ == start.outcomes(done),
        decreases records.len() - i,
    {
        let transaction = match parse_record(&records[i]) {
            Ok(transaction) => transaction,
            Err(error) => {
                proof {
                    lemma_good_prefix(given, i as int);
                    assert(transactions_of(given) =~= done);
                }
                return Err(error);
            },
        };
        let outcome = engine.do_transaction(transaction);
        outcomes.push(outcome);
        proof {
            let longer = done.push(transaction);
            assert(longer.drop_last() =~= done);
            assert forall|k: int| 0 <= k < longer.len() implies start.outcomes(longer)[k]
                == outcomes@[k] by {
                if k < i {
                    assert(longer.take(k) =~= done.take(k));
                } else {
                    assert(longer.take(k) =~= done);
                }
            }
            done = longer;
        }
        i += 1;
    }
    proof {
        lemma_good_prefix(given, i as int);
        assert(transactions_of(given) =~= done);
    }
    Ok(outcomes)
}

/// Reads the log and applies its transactions to the engine, in their
/// order. The run stops at the first record that is no transaction, and fails
/// where the reader fails; the transactions before that have been applied.
pub fn process_transactions(engine: &mut Engine, input: &[u8]) -> (r: Result<
    Vec<Result<(), EngineError>>,
    RunError,
>)
    ensures
        final(engine)@ == old(engine)@.replay(transactions_of(csv_records(input@).0)),
        match r {
            Ok(outcomes) => {
                &&& good_prefix(csv_records(input@).0) == csv_records(input@).0.len()
                &&& csv_records(input@).1 is None
                &&& outcomes@ == old(engine)@.outcomes(transactions_of(csv_records(input@).0))
            },
            Err(RunError::Record(error)) => {
                let records = csv_records(input@).0;
                &&& good_prefix(records) < records.len()
                &&& record_of(records[good_prefix(records)]) == Err::<Transaction, RecordError>(
                    error,
                )
            },
            Err(RunError::Csv(message)) => {
                &&& good_prefix(csv_records(input@).0) == csv_records(input@).0.len()
                &&& csv_records(input@).1 == Some(message@)
            },
        },
{
    let (records, failure) = read_records(input);
    let outcomes = match process_records(engine, &records) {
        Ok(outcomes) => outcomes,
        Err(error) => {
            return Err(RunError::Record(error));
        },
    };
    match failure {
        Some(message) => Err(RunError::Csv(message)),
        None => Ok(outcomes),
    }
}

/// The views of some accounts.
pub open spec fn views(accounts: Seq<Account>) -> Seq<AccountView> {
    accounts.map_values(|account: Account| account@)
}

/// The report on `listing` as it is written: the lines of its records.
pub open spec fn report_text(listing: Seq<AccountView>) -> Seq<u8> {
    bytes_of(lines_of(report_rows(listing)))
}

/// Appends the report on the accounts to `output`: a header, then the record
/// of each account, in the order given.
pub fn print_accounts(accounts: &Vec<Account>, output: &mut Vec<u8>)
    requires
        forall|i: int| 0 <= i < accounts.len() ==> Money::fits((#[trigger] accounts@[i])@.total()),
    ensures
        final(output)@ == old(output)@ + report_text(views(accounts@)),
{
    let ghost listing = views(accounts@);
    let mut rows: Vec<Vec<String>> = Vec::new();
    rows.push(header_fields());
    let mut i: usize = 0;
    while i < accounts.len()
        invariant
            0 <= i <= accounts.len(),
            listing == views(accounts@),
            listing.len() == accounts.len(),
            rows@.len() == i + 1,
            forall|j: int|
                0 <= j < accounts.len() ==> Money::fits((#[trigger] accounts@[j])@.total()),
            rows.deep_view() == report_rows(listing.take(i as int)),
        decreases accounts.len() - i,
    {
        let ghost before = rows.deep_view();
        rows.push(account_fields(&accounts[i]));
        proof {
            let after = report_rows(listing.take(i + 1));
            assert forall|j: int| 0 <= j < after.len() implies rows.deep_view()[j] == after[j] by {
                if j <= i {
                    assert(before[j] == report_rows(listing.take(i as int))[j]);
                }
            }
        }
        i += 1;
    }
    proof {
        assert(listing.take(i as int) =~= listing);
        lemma_report_is_plain(listing);
    }
    write_records(output, &rows);
}

/// Replays the log `input` from an empty ledger and appends the report on
/// the accounts to `output`: a header, then one record for each account, in
/// no particular order. Where the log cannot be read to its end, or a record
/// of it is no transaction, the run fails and nothing is appended. What
/// became of each transaction is handed back.
pub fn run(input: &[u8], output: &mut Vec<u8>) -> (r: Result<
    Vec<Result<(), EngineError>>,
    RunError,
>)
    ensures
        match r {
            Ok(outcomes) => {
                let records = csv_records(input@).0;
                let ledger = Ledger::empty().replay(transactions_of(records));
                &&& good_prefix(records) == records.len()
                &&& csv_records(input@).1 is None
                &&& outcomes@ == Ledger::empty().outcomes(transactions_of(records))
                &&& exists|listing: Seq<AccountView>| #[trigger]
                    ledger.lists(listing) && final(output)@ == old(output)@ + report_text(listing)
            },
            Err(RunError::Record(error)) => {
                let records = csv_records(input@).0;
                &&& good_prefix(records) < records.len()
                &&& record_of(records[good_prefix(records)]) == Err::<Transaction, RecordError>(
                    error,
                )
                &&& final(output)@ == old(output)@
            },
            Err(RunError::Csv(message)) => {
                &&& good_prefix(csv_records(input@).0) == csv_records(input@).0.len()
                &&& csv_records(input@).1 == Some(message@)
                &&& final(output)@ == old(output)@
            },
        },
{
    let mut engine = Engine::new();
    let outcomes = match process_transactions(&mut engine, input) {
        Ok(outcomes) => outcomes,
        Err(error) => {
            return Err(error);
        },
    };
    let accounts = engine.get_accounts();
    proof {
        lemma_replay_preserves_wf(Ledger::empty(), transactions_of(csv_records(input@).0));
        engine@.lemma_listed_accounts(views(accounts@));
        assert forall|i: int| 0 <= i < accounts.len() implies Money::fits(
            (#[trigger] accounts@[i])@.total(),
        ) by {
            assert(views(accounts@)[i].representable());
        }
    }
    print_accounts(&accounts, output);
    Ok(outcomes)
}

} // verus!
