//! The report: a header, then one record for each account.

use crate::decimal::{
    digits_of, format_unsigned, is_digit, lemma_digits_of_value, pow10,
};
use crate::money::{
    canonical_text, fraction_text, lemma_fraction_text, Money, FRACTION_DIGITS, SCALE,
};
use crate::table::{is_plain, is_plain_table};
use crate::types::{Account, AccountView};
use vstd::prelude::*;
use vstd::string::*;

verus! {

/// The number of fields of a record of the report.
pub const COLUMNS: usize = 5;

/// How the report writes whether an account is locked.
pub open spec fn truth_text(truth: bool) -> Seq<char> {
    if truth {
        "true"@
    } else {
        "false"@
    }
}

/// The first record of the report: the names of its columns.
pub open spec fn header() -> Seq<Seq<char>> {
    seq!["client"@, "available"@, "held"@, "total"@, "locked"@]
}

/// The record of one account: its client, what is available, what is held,
/// the total of the two, and whether it is locked. The amounts stand in their
/// canonical form.
pub open spec fn account_row(account: AccountView) -> Seq<Seq<char>> {
    seq![
        digits_of(account.client as nat),
        canonical_text(account.available),
        canonical_text(account.held),
        canonical_text(account.total()),
        truth_text(account.locked),
    ]
}

/// The records of the report on the accounts of `listing`, in its order.
pub open spec fn report_rows(listing: Seq<AccountView>) -> Seq<Seq<Seq<char>>> {
    seq![header()] + listing.map_values(|account: AccountView| account_row(account))
}

/// Whether `field` is one or more plain characters.
pub open spec fn is_plain_field(field: Seq<char>) -> bool {
    &&& field.len() > 0
    &&& forall|k: int| 0 <= k < field.len() ==> is_plain(#[trigger] field[k])
}

/// The canonical text of an amount is made of digits, a minus sign and a
/// point, and is not empty.
pub proof fn lemma_canonical_text_is_plain(units: int)
    ensures
        is_plain_field(canonical_text(units)),
{
    let magnitude = if units < 0 {
        -units
    } else {
        units
    };
    let whole = digits_of((magnitude / SCALE as int) as nat);
    let f = (magnitude % SCALE as int) as nat;
    let fraction = fraction_text(f, FRACTION_DIGITS as nat);
    lemma_digits_of_value((magnitude / SCALE as int) as nat);
    assert(pow10(FRACTION_DIGITS as nat) == 10_000) by {
        reveal_with_fuel(pow10, 5);
    }
    lemma_fraction_text(f, FRACTION_DIGITS as nat);
    let sign = if units < 0 {
        seq!['-']
    } else {
        Seq::empty()
    };
    let text = canonical_text(units);
    assert forall|k: int| 0 <= k < text.len() implies is_plain(#[trigger] text[k]) by {
        if sign.len() <= k < sign.len() + whole.len() {
            assert(text[k] == whole[k - sign.len()]);
        } else if k > sign.len() + whole.len() {
            assert(text[k] == fraction[k - sign.len() - whole.len() - 1]);
        }
    }
}

/// The report on any accounts is a plain table: it can be written without
/// quoting.
pub proof fn lemma_report_is_plain(listing: Seq<AccountView>)
    ensures
        is_plain_table(report_rows(listing)),
{
    reveal_strlit("client");
    reveal_strlit("available");
    reveal_strlit("held");
    reveal_strlit("total");
    reveal_strlit("locked");
    reveal_strlit("true");
    reveal_strlit("false");
    let rows = report_rows(listing);
    assert forall|i: int| 0 <= i < rows.len() implies {
        &&& (#[trigger] rows[i]).len() == rows[0].len()
        &&& rows[i].len() > 0
        &&& forall|j: int| 0 <= j < rows[i].len() ==> is_plain_field(#[trigger] rows[i][j])
    } by {
        if i > 0 {
            let account = listing[i - 1];
            lemma_digits_of_value(account.client as nat);
            assert(is_plain_field(account_row(account)[0])) by {
                let text = digits_of(account.client as nat);
                assert forall|k: int| 0 <= k < text.len() implies is_plain(#[trigger] text[k]) by {
                    assert(is_digit(text[k]));
                }
            }
            lemma_canonical_text_is_plain(account.available);
            lemma_canonical_text_is_plain(account.held);
            lemma_canonical_text_is_plain(account.total());
        }
    }
}

/// The text `true` or `false`.
pub fn format_truth(truth: bool) -> (r: String)
    ensures
        r@ == truth_text(truth),
{
    if truth {
        String::from_str("true")
    } else {
        String::from_str("false")
    }
}

/// The fields of the record of one account.
pub fn account_fields(account: &Account) -> (r: Vec<String>)
    requires
        Money::fits(account@.total()),
    ensures
        r.deep_view() == account_row(account@),
{
    let mut fields: Vec<String> = Vec::new();
    fields.push(format_unsigned(account.client as u64));
    fields.push(account.available.format());
    fields.push(account.held.format());
    fields.push(account.total().format());
    fields.push(format_truth(account.locked));
    fields
}

/// The names of the columns.
pub fn header_fields() -> (r: Vec<String>)
    ensures
        r.deep_view() == header(),
{
    let mut fields: Vec<String> = Vec::new();
    fields.push(String::from_str("client"));
    fields.push(String::from_str("available"));
    fields.push(String::from_str("held"));
    fields.push(String::from_str("total"));
    fields.push(String::from_str("locked"));
    fields
}

} // verus!
