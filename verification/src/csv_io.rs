//! Tables as CSV text: import of a CSV text into a dataset and export of a
//! dataset as CSV text. The codec is the `csv` crate; what it makes of a
//! text or of a record goes by a name here, and the contracts say what the
//! library does with it.

use crate::database::model::{
    columns_of, find_dataset, import_result, imported, oversized, table_view_of, texts, Import,
};
use crate::database::models::{
    row_text, ColumnView, DrawnFieldView, RowView, TableContents, TableView,
};
use crate::database::{Database, StorageError};
use vstd::prelude::*;
use vstd::string::StringExecFns;

verus! {

/// The error type of the `csv` crate.
#[verifier::external_type_specification]
#[verifier::external_body]
pub struct ExCsvError(csv::Error);

/// The header record that the `csv` crate reads from `content`, or `None`
/// where it fails to read one.
pub uninterp spec fn csv_header_fields(content: Seq<char>) -> Option<Seq<Seq<char>>>;

/// The records behind the header that the `csv` crate reads from `content`,
/// or `None` where it fails on one of them.
pub uninterp spec fn csv_record_rows(content: Seq<char>) -> Option<Seq<Seq<Seq<char>>>>;

/// The text, terminator included, that the `csv` crate writes for one
/// record, or `None` where it fails to write it.
pub uninterp spec fn csv_line(record: Seq<Seq<char>>) -> Option<Seq<char>>;

/// Reads the header record of `content` with `csv::Reader::from_reader` and
/// `Reader::headers`, under the reader's default settings.
#[verifier::external_body]
fn read_headers(content: &str) -> (outcome: Result<Vec<String>, csv::Error>)
    ensures
        outcome is Ok == csv_header_fields(content@) is Some,
        outcome matches Ok(fields) ==> Some(fields.deep_view()) == csv_header_fields(content@),
{
    let mut reader = csv::Reader::from_reader(content.as_bytes());
    let headers = reader.headers()?;
    Ok(headers.iter().map(|field| field.to_string()).collect())
}

/// Reads the records of `content` behind its header with
/// `csv::Reader::from_reader` and `Reader::records`, under the reader's
/// default settings, up to the first record that fails.
#[verifier::external_body]
fn read_records(content: &str) -> (outcome: Result<Vec<Vec<String>>, csv::Error>)
    ensures
        outcome is Ok == csv_record_rows(content@) is Some,
        outcome matches Ok(rows) ==> Some(rows.deep_view()) == csv_record_rows(content@),
{
    let mut reader = csv::Reader::from_reader(content.as_bytes());
    reader.records().map(
        |record| record.map(|fields| fields.iter().map(|field| field.to_string()).collect()),
    ).collect()
}

/// Writes one record with `csv::Writer::from_writer` and
/// `Writer::write_record`, under the writer's default settings, and takes
/// the text out with `Writer::into_inner`. The writer is fresh and writes
/// into memory, so it has no record to compare the number of fields with
/// and no sink that can fail: the record is written.
#[verifier::external_body]
fn write_line(record: &Vec<String>) -> (outcome: Result<String, csv::Error>)
    ensures
        outcome is Ok,
        outcome is Ok == csv_line(record.deep_view()) is Some,
        outcome matches Ok(line) ==> Some(line@) == csv_line(record.deep_view()),
{
    let mut writer = csv::Writer::from_writer(Vec::new());
    writer.write_record(record)?;
    let bytes = writer.into_inner().map_err(|error| csv::Error::from(error.into_error()))?;
    String::from_utf8(bytes).map_err(
        |error| csv::Error::from(std::io::Error::new(std::io::ErrorKind::InvalidData, error)),
    )
}

/// The message of a `csv::Error`, as its `Display` renders it.
#[verifier::external_body]
fn error_text(error: &csv::Error) -> (text: String) {
    error.to_string()
}

/// Why an import of CSV text failed.
#[derive(Debug, PartialEq, Eq)]
pub enum ImportError {
    /// The text is no CSV; the message is the codec's.
    Parse(String),
    /// The store refused the table.
    Storage(StorageError),
}

impl ImportError {
    /// A description of the error for people.
    pub fn message(&self) -> (text: String)
        ensures
            self matches ImportError::Parse(reason) ==> text@ == "Failed to parse CSV: "@ + reason@,
            self matches ImportError::Storage(error) ==> text@ == "Failed to import CSV: "@
                + crate::database::storage_error_text(*error),
    {
        match self {
            ImportError::Parse(reason) => {
                let mut text = String::from_str("Failed to parse CSV: ");
                text.append(reason.as_str());
                text
            },
            ImportError::Storage(error) => {
                let mut text = String::from_str("Failed to import CSV: ");
                text.append(error.message().as_str());
                text
            },
        }
    }
}

/// The table that a CSV text stands for: its header record, where one can
/// be read, and behind it its further records.
pub open spec fn csv_table(content: Seq<char>) -> Option<Seq<Seq<Seq<char>>>> {
    match csv_record_rows(content) {
        Some(rows) => Some(
            match csv_header_fields(content) {
                Some(headers) => seq![headers] + rows,
                None => rows,
            },
        ),
        None => None,
    }
}

/// Reads `csv_content` as a table and imports it into `dataset_id`, as
/// `Database::import_csv_data` does. Fails, with the store unchanged, where
/// a record of the text cannot be read; else as the import does.
pub fn import_csv(db: &mut Database, dataset_id: &str, csv_content: &str) -> (outcome: Result<
    (),
    ImportError,
>)
    requires
        old(db).wf(),
    ensures
        final(db).wf(),
        final(db)@.datasets == old(db)@.datasets,
        outcome matches Err(ImportError::Parse(_)) <==> csv_table(csv_content@) is None,
        outcome matches Err(ImportError::Parse(_)) ==> final(db)@ == old(db)@,
        outcome is Ok ==> csv_table(csv_content@) is Some && imported(
            old(db)@,
            final(db)@,
            dataset_id@,
            csv_table(csv_content@)->0,
        ),
        outcome matches Err(ImportError::Storage(error)) ==> {
            let table = csv_table(csv_content@)->0;
            &&& error != StorageError::UnknownColumn
            &&& error == StorageError::EmptyImport <==> table.len() == 0
            &&& error == StorageError::OversizedImport <==> oversized(table)
            &&& error == StorageError::EmptyImport || error == StorageError::OversizedImport
                || error == StorageError::UnknownDataset ==> final(db)@ == old(db)@
            &&& error == StorageError::UnknownDataset ==> find_dataset(old(db)@, dataset_id@)
                is None
        },
        csv_table(csv_content@) matches Some(table) ==> {
            &&& table.len() > 0 && !oversized(table) && table[0].len() == 0 && (table.len() == 1
                || columns_of(old(db)@, dataset_id@).len() == 0) ==> outcome is Ok
            &&& exists|drawn: Seq<Seq<DrawnFieldView>>|
                texts(drawn) == table && #[trigger] import_result(old(db)@, dataset_id@, drawn) == (
                Import {
                    store: final(db)@,
                    refusal: match outcome {
                        Err(ImportError::Storage(refusal)) => Some(refusal),
                        _ => None,
                    },
                })
        },
{
    let mut data: Vec<Vec<String>> = Vec::new();
    match read_headers(csv_content) {
        Ok(headers) => {
            data.push(headers);
        },
        Err(_) => {},
    }
    let ghost head = data.deep_view();
    let mut rows = match read_records(csv_content) {
        Ok(rows) => rows,
        Err(error) => {
            return Err(ImportError::Parse(error_text(&error)));
        },
    };
    let ghost tail = rows.deep_view();
    data.append(&mut rows);
    proof {
        assert(data.deep_view() =~= head + tail);
        assert(head =~= match csv_header_fields(csv_content@) {
            Some(headers) => seq![headers],
            None => Seq::empty(),
        });
        assert(data.deep_view() =~= csv_table(csv_content@)->0);
    }
    match db.import_csv_data(dataset_id, data) {
        Ok(()) => Ok(()),
        Err(error) => Err(ImportError::Storage(error)),
    }
}

pub open spec fn column_name() -> spec_fn(ColumnView) -> Seq<char> {
    |c: ColumnView| c.name
}

pub open spec fn text_in(row: RowView) -> spec_fn(ColumnView) -> Seq<char> {
    |c: ColumnView| row_text(row, c.id)
}

/// The record that `row` is exported as: for each column, in order, the
/// value that the row holds for it, or an empty field.
pub open spec fn exported_row(row: RowView, columns: Seq<ColumnView>) -> Seq<Seq<char>> {
    columns.map_values(text_in(row))
}

pub open spec fn row_exporter(columns: Seq<ColumnView>) -> spec_fn(RowView) -> Seq<Seq<char>> {
    |row: RowView| exported_row(row, columns)
}

/// The rectangular table that a table view is exported as: the names of
/// the columns, then one record for each row.
pub open spec fn exported(table: TableContents) -> Seq<Seq<Seq<char>>> {
    seq![table.columns.map_values(column_name())] + table.rows.map_values(
        row_exporter(table.columns),
    )
}

/// The table view as a rectangular table: a header record of column names,
/// in the order of the columns, then one record for each row, in the order
/// of the rows, with an empty field where a row has no value for a column.
pub fn export_table(table: &TableView) -> (records: Vec<Vec<String>>)
    ensures
        records.deep_view() == exported(table@),
{
    let mut records: Vec<Vec<String>> = Vec::new();
    let mut header: Vec<String> = Vec::new();
    let mut c: usize = 0;
    while c < table.columns.len()
        invariant
            c <= table.columns.len(),
            header.deep_view() == table@.columns.take(c as int).map_values(column_name()),
        decreases table.columns.len() - c,
    {
        let ghost before = header.deep_view();
        header.push(table.columns[c].name.clone());
        c += 1;
        assert(header.deep_view() =~= before.push(table@.columns[c - 1].name));
        assert(header.deep_view() =~= table@.columns.take(c as int).map_values(column_name()));
    }
    assert(table@.columns.take(table.columns.len() as int) =~= table@.columns);
    records.push(header);
    assert(records.deep_view() =~= seq![table@.columns.map_values(column_name())]);
    let mut r: usize = 0;
    while r < table.rows.len()
        invariant
            r <= table.rows.len(),
            records.deep_view() == seq![table@.columns.map_values(column_name())]
                + table@.rows.take(r as int).map_values(row_exporter(table@.columns)),
        decreases table.rows.len() - r,
    {
        let row = &table.rows[r];
        let mut record: Vec<String> = Vec::new();
        let mut c: usize = 0;
        while c < table.columns.len()
            invariant
                c <= table.columns.len(),
                row@ == table@.rows[r as int],
                record.deep_view() == table@.columns.take(c as int).map_values(text_in(row@)),
            decreases table.columns.len() - c,
        {
            let ghost before = record.deep_view();
            let value = match row.get_cell_value(table.columns[c].id.as_str()) {
                Some(value) => value.clone(),
                None => String::new(),
            };
            assert(value@ == row_text(row@, table@.columns[c as int].id));
            record.push(value);
            c += 1;
            assert(record.deep_view() =~= before.push(value@));
            assert(record.deep_view() =~= table@.columns.take(c as int).map_values(text_in(row@)));
        }
        assert(table@.columns.take(table.columns.len() as int) =~= table@.columns);
        let ghost before = records.deep_view();
        records.push(record);
        r += 1;
        assert(records.deep_view() =~= before.push(exported_row(row@, table@.columns)));
        assert(records.deep_view() =~= seq![table@.columns.map_values(column_name())]
            + table@.rows.take(r as int).map_values(row_exporter(table@.columns)));
    }
    assert(table@.rows.take(table.rows.len() as int) =~= table@.rows);
    records
}

/// The CSV text of a table: the lines of its records, one behind the
/// other, or `None` where one of them cannot be written.
pub open spec fn csv_text(records: Seq<Seq<Seq<char>>>) -> Option<Seq<char>>
    decreases records.len(),
{
    if records.len() == 0 {
        Some(Seq::empty())
    } else {
        match (csv_text(records.drop_last()), csv_line(records.last())) {
            (Some(text), Some(line)) => Some(text + line),
            _ => None,
        }
    }
}

/// Writes `records` as CSV text, record by record. The codec writes every
/// record, so the text is always had; the error is the codec's message,
/// should it ever give one.
pub fn write_csv(records: &Vec<Vec<String>>) -> (outcome: Result<String, String>)
    ensures
        outcome is Ok,
        outcome is Ok == csv_text(records.deep_view()) is Some,
        outcome matches Ok(text) ==> Some(text@) == csv_text(records.deep_view()),
{
    let mut text = String::new();
    let mut i: usize = 0;
    assert(records.deep_view().take(0) =~= Seq::empty());
    while i < records.len()
        invariant
            i <= records.len(),
            csv_text(records.deep_view().take(i as int)) == Some(text@),
        decreases records.len() - i,
    {
        let ghost done = records.deep_view().take(i as int);
        proof {
            assert(records.deep_view().take(i + 1).drop_last() =~= done);
            assert(records.deep_view().take(i + 1).last() == records@[i as int].deep_view());
        }
        match write_line(&records[i]) {
            Ok(line) => {
                text.append(line.as_str());
            },
            Err(error) => {
                proof {
                    lemma_csv_text_none(records.deep_view(), i + 1);
                }
                return Err(error_text(&error));
            },
        }
        i += 1;
    }
    assert(records.deep_view().take(records.len() as int) =~= records.deep_view());
    Ok(text)
}

/// Where the first `n` records cannot be written, neither can all.
proof fn lemma_csv_text_none(records: Seq<Seq<Seq<char>>>, n: int)
    requires
        0 <= n <= records.len(),
        csv_text(records.take(n)) is None,
    ensures
        csv_text(records) is None,
    decreases records.len() - n,
{
    if n < records.len() {
        assert(records.take(n + 1).drop_last() =~= records.take(n));
        lemma_csv_text_none(records, n + 1);
    } else {
        assert(records.take(n) =~= records);
    }
}

/// Why an export as CSV text failed.
#[derive(Debug, PartialEq, Eq)]
pub enum ExportError {
    /// The dataset is not stored.
    DatasetNotFound,
    /// A record could not be written; the message is the codec's.
    Write(String),
}

impl ExportError {
    /// A description of the error for people.
    pub fn message(&self) -> (text: String)
        ensures
            self is DatasetNotFound ==> text@ == "Dataset not found"@,
            self matches ExportError::Write(reason) ==> text@ == "Failed to write CSV: "@ + reason@,
    {
        match self {
            ExportError::DatasetNotFound => String::from_str("Dataset not found"),
            ExportError::Write(reason) => {
                let mut text = String::from_str("Failed to write CSV: ");
                text.append(reason.as_str());
                text
            },
        }
    }
}

/// The whole of `dataset_id` as CSV text: its column names, then its rows.
/// Fails where the dataset is not stored, and there alone.
pub fn export_csv(db: &Database, dataset_id: &str) -> (outcome: Result<String, ExportError>)
    ensures
        outcome == Err::<String, ExportError>(ExportError::DatasetNotFound) <==> find_dataset(
            db@,
            dataset_id@,
        ) is None,
        outcome is Ok <==> find_dataset(db@, dataset_id@) is Some,
        outcome is Ok ==> csv_text(exported(table_view_of(db@, dataset_id@, None, None)->0))
            is Some,
        outcome matches Ok(text) ==> Some(text@) == csv_text(
            exported(table_view_of(db@, dataset_id@, None, None)->0),
        ),
{
    let table = match db.get_table_view(dataset_id, None, None) {
        Some(table) => table,
        None => {
            return Err(ExportError::DatasetNotFound);
        },
    };
    let records = export_table(&table);
    match write_csv(&records) {
        Ok(text) => Ok(text),
        Err(reason) => Err(ExportError::Write(reason)),
    }
}

} // verus!
