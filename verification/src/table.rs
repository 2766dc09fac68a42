//! Tables of text in the comma-separated format, read and written by the
//! `csv` crate.

use crate::decimal::is_digit;
use vstd::prelude::*;

verus! {

/// What `csv::Reader` makes of `input` with its default settings, the first
/// record being a header that is passed over: the records that it reads
/// before its first error, each as the texts of its fields, and the message
/// of that error, if there is one.
pub uninterp spec fn csv_records(input: Seq<u8>) -> (Seq<Seq<Seq<char>>>, Option<Seq<char>>);

/// Reads `input` with `csv::Reader::from_reader` and its `records`, up to the
/// first error. The contract gives what comes back the name `csv_records`:
/// the reader holds no state but what it has read, so the same bytes give the
/// same records and the same error.
#[verifier::external_body]
pub(crate) fn read_records(input: &[u8]) -> (r: (Vec<Vec<String>>, Option<String>))
    ensures
        r.0.deep_view() == csv_records(input@).0,
        r.1.deep_view() == csv_records(input@).1,
{
    let mut reader = csv::Reader::from_reader(input);
    let mut records = Vec::new();
    for record in reader.records() {
        match record {
            Ok(record) => records.push(record.iter().map(String::from).collect()),
            Err(error) => return (records, Some(error.to_string())),
        }
    }
    (records, None)
}

/// Whether `c` can stand in a field that is written as it is: a digit, a
/// lower-case letter, a minus sign or a point.
pub open spec fn is_plain(c: char) -> bool {
    is_digit(c) || 'a' <= c <= 'z' || c == '-' || c == '.'
}

/// Whether a table can be written without quoting: it has the same number of
/// fields in every record, at least one, and every field is made of one or
/// more plain characters.
pub open spec fn is_plain_table(records: Seq<Seq<Seq<char>>>) -> bool {
    forall|i: int|
        0 <= i < records.len() ==> {
            &&& (#[trigger] records[i]).len() == records[0].len()
            &&& records[i].len() > 0
            &&& forall|j: int|
                0 <= j < records[i].len() ==> {
                    &&& (#[trigger] records[i][j]).len() > 0
                    &&& forall|k: int|
                        0 <= k < records[i][j].len() ==> is_plain(#[trigger] records[i][j][k])
                }
        }
}

/// One record as a line: its fields with commas between them, and a line
/// feed.
pub open spec fn line_of(fields: Seq<Seq<char>>) -> Seq<char>
    decreases fields.len(),
{
    if fields.len() == 0 {
        seq!['\n']
    } else if fields.len() == 1 {
        fields[0] + seq!['\n']
    } else {
        fields[0] + seq![','] + line_of(fields.drop_first())
    }
}

/// The lines of the records, one after the other.
pub open spec fn lines_of(records: Seq<Seq<Seq<char>>>) -> Seq<char>
    decreases records.len(),
{
    if records.len() == 0 {
        Seq::empty()
    } else {
        lines_of(records.drop_last()) + line_of(records.last())
    }
}

/// The bytes of an ASCII text, one for each character.
pub open spec fn bytes_of(text: Seq<char>) -> Seq<u8> {
    Seq::new(text.len(), |i: int| text[i] as u8)
}

/// Writes the records to `output` with `csv::Writer::from_writer` and its
/// `write_record`, and flushes. With its default settings the writer puts a
/// comma between fields and a line feed after each record, and quotes a field
/// only where it holds a comma, a quote, a carriage return or a line feed, or
/// is the empty only field of its record; it fails only on records of unequal
/// length, or where the output fails, which a vector does not. A plain table
/// meets none of these, so its lines are appended as they are.
#[verifier::external_body]
pub(crate) fn write_records(output: &mut Vec<u8>, records: &Vec<Vec<String>>)
    requires
        is_plain_table(records.deep_view()),
    ensures
        final(output)@ == old(output)@ + bytes_of(lines_of(records.deep_view())),
{
    let mut writer = csv::Writer::from_writer(output);
    for record in records {
        writer.write_record(record).expect("records of equal length");
    }
    writer.flush().expect("a vector takes every write");
}

} // verus!
