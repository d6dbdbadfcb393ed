//! The rows of a bank statement in CSV form.

use crate::text::{lowercase, remove_char, to_lowercase, trim, trimmed, without};
use vstd::prelude::*;

verus! {

/// The currency symbol that is ignored when texts are compared.
pub const CURRENCY: char = '$';

/// Number of fields that a record must have to give a row.
pub const ROW_FIELDS: usize = 3;

/// One row of the statement, its fields in normal form.
#[derive(Debug, Clone, PartialEq, Eq)]
pub struct Row {
    pub date: String,
    pub description: String,
    pub amount: String,
}

/// What a `Row` stands for in contracts.
pub struct RowModel {
    pub date: Seq<char>,
    pub description: Seq<char>,
    pub amount: Seq<char>,
}

impl DeepView for Row {
    type V = RowModel;

    open spec fn deep_view(&self) -> RowModel {
        RowModel { date: self.date@, description: self.description@, amount: self.amount@ }
    }
}

/// Why a statement gives no rows.
#[derive(Debug, Clone, Copy, PartialEq, Eq)]
pub enum StatementError {
    /// The record at this position, counted from the first record after the
    /// header, has fewer than three fields.
    MissingField { record: usize },
}

/// What the CSV reader makes of `content`: one entry for each record after
/// the header, in order, `None` where the reader reported the record as
/// malformed, else the record's fields.
pub uninterp spec fn csv_records(content: Seq<char>) -> Seq<Option<Seq<Seq<char>>>>;

/// The normal form under which texts are compared: lowercase, and without
/// the currency symbol.
pub open spec fn normalized(raw: Seq<char>) -> Seq<char> {
    without(lowercase(raw), CURRENCY)
}

/// The normal form of a statement field: as for any text, after the white
/// space around the field is removed.
pub open spec fn normalized_field(raw: Seq<char>) -> Seq<char> {
    normalized(trimmed(raw))
}

/// The row that a record of at least three fields gives.
pub open spec fn row_of(record: Seq<Seq<char>>) -> RowModel {
    RowModel {
        date: normalized_field(record[0]),
        description: normalized_field(record[1]),
        amount: normalized_field(record[2]),
    }
}

/// Whether the entry at position `i` is a well-formed record with too few
/// fields for a row.
pub open spec fn is_short(records: Seq<Option<Seq<Seq<char>>>>, i: int) -> bool {
    &&& 0 <= i < records.len()
    &&& records[i] is Some
    &&& records[i]->0.len() < ROW_FIELDS
}

/// The row of a well-formed record; nothing for a malformed one.
pub open spec fn row_of_entry(entry: Option<Seq<Seq<char>>>) -> Option<RowModel> {
    match entry {
        Some(record) => Some(row_of(record)),
        None => None,
    }
}

/// The rows of the well-formed records, in order. Malformed records leave
/// no trace.
pub open spec fn rows_of(records: Seq<Option<Seq<Seq<char>>>>) -> Seq<RowModel> {
    records.filter_map(|entry: Option<Seq<Seq<char>>>| row_of_entry(entry))
}

/// Whether `result` is what `records` give: the rows of all well-formed
/// records where each of them has three fields, else the position of the
/// first one that has not.
pub open spec fn is_statement_of(
    records: Seq<Option<Seq<Seq<char>>>>,
    result: Result<Seq<RowModel>, StatementError>,
) -> bool {
    match result {
        Ok(rows) => {
            &&& forall|i: int| !is_short(records, i)
            &&& rows == rows_of(records)
        },
        Err(StatementError::MissingField { record }) => {
            &&& is_short(records, record as int)
            &&& forall|i: int| 0 <= i < record ==> !is_short(records, i)
        },
    }
}

/// What a result with rows stands for in contracts.
pub open spec fn rows_model(result: Result<Vec<Row>, StatementError>) -> Result<
    Seq<RowModel>,
    StatementError,
> {
    match result {
        Ok(rows) => Ok(rows.deep_view()),
        Err(error) => Err(error),
    }
}

/// Reads `content` with the `csv` crate: `ReaderBuilder::new`, `has_headers(true)`,
/// `from_reader` on the bytes, then every item of `Reader::records`. The
/// contract only names the outcome. It is a function of the content alone:
/// the reader is given fixed settings and an in-memory slice. A record that
/// the reader returns as an error becomes `None`.
#[verifier::external_body]
pub(crate) fn read_records(content: &str) -> (records: Vec<Option<Vec<String>>>)
    ensures
        records.deep_view() == csv_records(content@),
{
    let mut reader = csv::ReaderBuilder::new().has_headers(true).from_reader(content.as_bytes());
    reader.records().map(|item| item.ok().map(|r| r.iter().map(String::from).collect())).collect()
}

/// Brings a ledger text into the normal form under which it is compared.
pub fn normalize(raw: &str) -> (out: String)
    ensures
        out@ == normalized(raw@),
{
    let lowered = to_lowercase(raw);
    remove_char(lowered.as_str(), CURRENCY)
}

/// Brings a statement field into normal form.
pub fn normalize_field(raw: &str) -> (out: String)
    ensures
        out@ == normalized_field(raw@),
{
    let inner = trim(raw);
    normalize(inner.as_str())
}

/// The row that `record` gives, if it has the fields for one.
pub fn row_from_record(record: &Vec<String>) -> (row: Option<Row>)
    ensures
        row is Some <==> record.len() >= ROW_FIELDS,
        row is Some ==> row->0.deep_view() == row_of(record.deep_view()),
{
    if record.len() < ROW_FIELDS {
        return None;
    }
    Some(
        Row {
            date: normalize_field(record[0].as_str()),
            description: normalize_field(record[1].as_str()),
            amount: normalize_field(record[2].as_str()),
        },
    )
}

/// Turns the records of a statement into rows. Malformed records are
/// passed over; a well-formed record with too few fields fails the whole
/// statement.
pub fn rows_from_records(records: &Vec<Option<Vec<String>>>) -> (result: Result<
    Vec<Row>,
    StatementError,
>)
    ensures
        is_statement_of(records.deep_view(), rows_model(result)),
{
    let mut rows: Vec<Row> = Vec::new();
    let mut i: usize = 0;
    while i < records.len()
        invariant
            i <= records.len(),
            forall|k: int| 0 <= k < i ==> !is_short(records.deep_view(), k),
            rows.deep_view() == rows_of(records.deep_view().take(i as int)),
        decreases records.len() - i,
    {
        proof {
            let upto = records.deep_view().take(i + 1);
            reveal_with_fuel(Seq::filter_map, 2);
            assert(upto.drop_last() == records.deep_view().take(i as int));
            assert(upto.last() == records.deep_view()[i as int]);
        }
        match &records[i] {
            Some(record) => {
                assert(records.deep_view()[i as int] == Some(record.deep_view()));
                match row_from_record(record) {
                    Some(row) => {
                        let ghost before = rows.deep_view();
                        rows.push(row);
                        assert(rows.deep_view() == before + seq![row.deep_view()]);
                    },
                    None => {
                        return Err(StatementError::MissingField { record: i });
                    },
                }
            },
            None => {
                assert(records.deep_view()[i as int] is None);
            },
        }
        i += 1;
    }
    assert(records.deep_view().take(records.len() as int) == records.deep_view());
    Ok(rows)
}

/// Reads the rows of a statement from its CSV text. The first record is
/// taken for the header and gives no row.
pub fn parse_statement(content: &str) -> (result: Result<Vec<Row>, StatementError>)
    ensures
        is_statement_of(csv_records(content@), rows_model(result)),
{
    let records = read_records(content);
    rows_from_records(&records)
}

} // verus!
