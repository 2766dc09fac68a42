//! Records of the transaction log: four text fields, read into a transaction.

use crate::decimal::{ascii_bytes, parse_unsigned, unsigned_value};
use crate::money::{Money, ParseError};
use crate::types::{ClientId, Transaction, TransactionId};
use vstd::prelude::*;
use vstd::utf8::is_ascii_chars;

verus! {

/// Why a record is no transaction.
#[derive(Clone, Copy, Debug, PartialEq, Eq, Structural)]
pub enum RecordError {
    /// The record does not have four fields.
    FieldCount,
    /// The first field is none of the five kinds of transaction.
    UnknownType,
    /// The client field is no number that a client id can hold.
    InvalidClient,
    /// The transaction field is no number that a transaction id can hold.
    InvalidTransactionId,
    /// The amount field is no amount.
    InvalidAmount(ParseError),
}

/// The kind of a transaction, as the first field of a record names it.
#[derive(Clone, Copy, Debug, PartialEq, Eq, Structural)]
pub enum Kind {
    Deposit,
    Withdrawal,
    Dispute,
    Resolve,
    Chargeback,
}

/// The number of fields of a record: kind, client, transaction and amount.
pub const FIELDS: usize = 4;

/// Whether `c` is white space to `str::trim`: a character with the Unicode
/// property White_Space.
pub uninterp spec fn is_whitespace(c: char) -> bool;

/// `s` without the white space at its start.
pub open spec fn trim_start(s: Seq<char>) -> Seq<char>
    decreases s.len(),
{
    if s.len() > 0 && is_whitespace(s.first()) {
        trim_start(s.drop_first())
    } else {
        s
    }
}

/// `s` without the white space at its end.
pub open spec fn trim_end(s: Seq<char>) -> Seq<char>
    decreases s.len(),
{
    if s.len() > 0 && is_whitespace(s.last()) {
        trim_end(s.drop_last())
    } else {
        s
    }
}

/// `s` without the white space at its start and at its end.
pub open spec fn trimmed(s: Seq<char>) -> Seq<char> {
    trim_end(trim_start(s))
}

/// `str::trim` of std: the text without its leading and trailing white space,
/// which is what std's documentation says of it. White space is left to
/// `is_whitespace`; what stays starts and ends with a character that is none.
#[verifier::external_body]
pub(crate) fn trim(text: &str) -> (r: &str)
    ensures
        r@ == trimmed(text@),
        r@.len() > 0 ==> !is_whitespace(r@.first()) && !is_whitespace(r@.last()),
{
    text.trim()
}

/// The kind that a word names: one of the five lower-case names, and nothing
/// else.
pub open spec fn kind_of(word: Seq<char>) -> Option<Kind> {
    if word == "deposit"@ {
        Some(Kind::Deposit)
    } else if word == "withdrawal"@ {
        Some(Kind::Withdrawal)
    } else if word == "dispute"@ {
        Some(Kind::Dispute)
    } else if word == "resolve"@ {
        Some(Kind::Resolve)
    } else if word == "chargeback"@ {
        Some(Kind::Chargeback)
    } else {
        None
    }
}

/// The number that a field denotes as an id: an optional `+`, then digits,
/// and no more than `max`.
pub open spec fn id_of(field: Seq<char>, max: nat) -> Option<nat> {
    match unsigned_value(field) {
        Some(value) => if value <= max {
            Some(value)
        } else {
            None
        },
        None => None,
    }
}

/// The transaction that four fields denote: kind, client, transaction,
/// amount. A deposit and a withdrawal read the transaction id first, then the
/// client, then the amount; the others read the client first, then the id of
/// the deposit, and do not look at the amount. The first field that cannot be
/// read names the error.
pub open spec fn transaction_of(fields: Seq<Seq<char>>) -> Result<Transaction, RecordError> {
    if fields.len() != FIELDS {
        Err(RecordError::FieldCount)
    } else {
        let client = id_of(fields[1], u16::MAX as nat);
        let id = id_of(fields[2], u32::MAX as nat);
        let amount = Money::parse_spec(fields[3]);
        match kind_of(fields[0]) {
            None => Err(RecordError::UnknownType),
            Some(Kind::Deposit) | Some(Kind::Withdrawal) => {
                if id is None {
                    Err(RecordError::InvalidTransactionId)
                } else if client is None {
                    Err(RecordError::InvalidClient)
                } else {
                    match amount {
                        Err(error) => Err(RecordError::InvalidAmount(error)),
                        Ok(units) => Ok(
                            if kind_of(fields[0]) == Some(Kind::Deposit) {
                                Transaction::Deposit {
                                    id: id->0 as TransactionId,
                                    client: client->0 as ClientId,
                                    amount: Money::of(units),
                                }
                            } else {
                                Transaction::Withdrawal {
                                    id: id->0 as TransactionId,
                                    client: client->0 as ClientId,
                                    amount: Money::of(units),
                                }
                            },
                        ),
                    }
                }
            },
            Some(kind) => {
                if client is None {
                    Err(RecordError::InvalidClient)
                } else if id is None {
                    Err(RecordError::InvalidTransactionId)
                } else {
                    let client = client->0 as ClientId;
                    let deposit = id->0 as TransactionId;
                    Ok(
                        match kind {
                            Kind::Dispute => Transaction::Dispute { client, deposit },
                            Kind::Resolve => Transaction::Resolve { client, deposit },
                            _ => Transaction::Chargeback { client, deposit },
                        },
                    )
                }
            },
        }
    }
}

/// The texts of some fields.
pub open spec fn texts(fields: Seq<&str>) -> Seq<Seq<char>> {
    fields.map_values(|field: &str| field@)
}

/// Whether `text` is the ASCII word `word`.
fn is_word(text: &str, word: &str) -> (r: bool)
    requires
        is_ascii_chars(word@),
    ensures
        r == (text@ == word@),
{
    let (text_bytes, word_bytes) = match (ascii_bytes(text), ascii_bytes(word)) {
        (Some(text_bytes), Some(word_bytes)) => (text_bytes, word_bytes),
        _ => {
            return false;
        },
    };
    let n = word_bytes.len();
    if text_bytes.len() != n {
        return false;
    }
    let mut i: usize = 0;
    while i < n
        invariant
            0 <= i <= n,
            n == word@.len(),
            n == text@.len(),
            text_bytes@.len() == n,
            word_bytes@.len() == n,
            forall|j: int| 0 <= j < n ==> (#[trigger] text_bytes@[j]) as int == text@[j] as int,
            forall|j: int| 0 <= j < n ==> (#[trigger] word_bytes@[j]) as int == word@[j] as int,
            forall|j: int| 0 <= j < i ==> text@[j] == word@[j],
        decreases n - i,
    {
        if text_bytes[i] != word_bytes[i] {
            return false;
        }
        i += 1;
    }
    assert(text@ =~= word@);
    true
}

/// Reads the kind of a transaction.
pub fn parse_kind(word: &str) -> (r: Option<Kind>)
    ensures
        r == kind_of(word@),
{
    proof {
        reveal_strlit("deposit");
        reveal_strlit("withdrawal");
        reveal_strlit("dispute");
        reveal_strlit("resolve");
        reveal_strlit("chargeback");
    }
    if is_word(word, "deposit") {
        Some(Kind::Deposit)
    } else if is_word(word, "withdrawal") {
        Some(Kind::Withdrawal)
    } else if is_word(word, "dispute") {
        Some(Kind::Dispute)
    } else if is_word(word, "resolve") {
        Some(Kind::Resolve)
    } else if is_word(word, "chargeback") {
        Some(Kind::Chargeback)
    } else {
        None
    }
}

/// Reads a client id.
pub fn parse_client(field: &str) -> (r: Option<ClientId>)
    ensures
        match id_of(field@, u16::MAX as nat) {
            Some(value) => r == Some(value as ClientId),
            None => r is None,
        },
{
    match parse_unsigned(field, 65_535) {
        Some(value) => Some(value as u16),
        None => None,
    }
}

/// Reads a transaction id.
pub fn parse_transaction_id(field: &str) -> (r: Option<TransactionId>)
    ensures
        match id_of(field@, u32::MAX as nat) {
            Some(value) => r == Some(value as TransactionId),
            None => r is None,
        },
{
    match parse_unsigned(field, 4_294_967_295) {
        Some(value) => Some(value as u32),
        None => None,
    }
}

/// Reads the transaction that the fields of one record denote.
pub fn parse_transaction(fields: &[&str]) -> (r: Result<Transaction, RecordError>)
    ensures
        r == transaction_of(texts(fields@)),
{
    if fields.len() != FIELDS {
        return Err(RecordError::FieldCount);
    }
    let ghost given = texts(fields@);
    assert(given[0] == fields@[0]@ && given[1] == fields@[1]@ && given[2] == fields@[2]@
        && given[3] == fields@[3]@);
    let kind = match parse_kind(fields[0]) {
        Some(kind) => kind,
        None => {
            return Err(RecordError::UnknownType);
        },
    };
    match kind {
        Kind::Deposit | Kind::Withdrawal => {
            let id = match parse_transaction_id(fields[2]) {
                Some(id) => id,
                None => {
                    return Err(RecordError::InvalidTransactionId);
                },
            };
            let client = match parse_client(fields[1]) {
                Some(client) => client,
                None => {
                    return Err(RecordError::InvalidClient);
                },
            };
            let amount = match Money::parse(fields[3]) {
                Ok(amount) => amount,
                Err(error) => {
                    return Err(RecordError::InvalidAmount(error));
                },
            };
            match kind {
                Kind::Deposit => Ok(Transaction::Deposit { id, client, amount }),
                _ => Ok(Transaction::Withdrawal { id, client, amount }),
            }
        },
        _ => {
            let client = match parse_client(fields[1]) {
                Some(client) => client,
                None => {
                    return Err(RecordError::InvalidClient);
                },
            };
            let deposit = match parse_transaction_id(fields[2]) {
                Some(deposit) => deposit,
                None => {
                    return Err(RecordError::InvalidTransactionId);
                },
            };
            match kind {
                Kind::Dispute => Ok(Transaction::Dispute { client, deposit }),
                Kind::Resolve => Ok(Transaction::Resolve { client, deposit }),
                _ => Ok(Transaction::Chargeback { client, deposit }),
            }
        },
    }
}

/// The transaction that a record denotes once its fields are trimmed.
pub open spec fn record_of(record: Seq<Seq<char>>) -> Result<Transaction, RecordError> {
    transaction_of(record.map_values(|field: Seq<char>| trimmed(field)))
}

/// The number of records at the start of `records` that denote transactions:
/// the place of the first record that denotes none, or the number of all.
pub open spec fn good_prefix(records: Seq<Seq<Seq<char>>>) -> int
    decreases records.len(),
{
    if records.len() == 0 {
        0
    } else {
        let before = good_prefix(records.drop_last());
        if before == records.len() - 1 && record_of(records.last()) is Ok {
            before + 1
        } else {
            before
        }
    }
}

/// The transactions of the records that stand before the first record that
/// denotes none.
pub open spec fn transactions_of(records: Seq<Seq<Seq<char>>>) -> Seq<Transaction> {
    Seq::new(good_prefix(records) as nat, |i: int| record_of(records[i])->Ok_0)
}

/// `good_prefix` is the place `n` up to which every record denotes a
/// transaction and at which, if it is not the end, one denotes none.
pub proof fn lemma_good_prefix(records: Seq<Seq<Seq<char>>>, n: int)
    requires
        0 <= n <= records.len(),
        forall|i: int| 0 <= i < n ==> record_of(#[trigger] records[i]) is Ok,
        n < records.len() ==> record_of(records[n]) is Err,
    ensures
        good_prefix(records) == n,
    decreases records.len(),
{
    if records.len() > 0 {
        let shorter = records.drop_last();
        if n == records.len() {
            assert forall|i: int| 0 <= i < n - 1 implies record_of(#[trigger] shorter[i]) is Ok by {
                assert(shorter[i] == records[i]);
            }
            lemma_good_prefix(shorter, n - 1);
        } else {
            assert forall|i: int| 0 <= i < n implies record_of(#[trigger] shorter[i]) is Ok by {
                assert(shorter[i] == records[i]);
            }
            if n < shorter.len() {
                assert(shorter[n] == records[n]);
            }
            lemma_good_prefix(shorter, n);
        }
    }
}

/// The fields of a record, each without the white space around it.
pub fn trim_fields<'a>(record: &'a Vec<String>) -> (r: Vec<&'a str>)
    ensures
        texts(r@) == record.deep_view().map_values(|field: Seq<char>| trimmed(field)),
{
    let mut fields: Vec<&'a str> = Vec::new();
    let mut i: usize = 0;
    while i < record.len()
        invariant
            0 <= i <= record.len(),
            fields@.len() == i,
            forall|j: int| 0 <= j < i ==> (#[trigger] fields@[j])@ == trimmed(record@[j]@),
        decreases record.len() - i,
    {
        fields.push(trim(record[i].as_str()));
        i += 1;
    }
    fields
}

/// Reads the transaction that a record denotes: its fields are trimmed, then
/// read.
pub fn parse_record(record: &Vec<String>) -> (r: Result<Transaction, RecordError>)
    ensures
        r == record_of(record.deep_view()),
{
    let fields = trim_fields(record);
    parse_transaction(fields.as_slice())
}

} // verus!
