use braincells::csv_io::{
    export_csv, export_table, import_csv, write_csv, ExportError, ImportError,
};
use braincells::database::models::{Cell, Column, ColumnType, Dataset};
use braincells::database::{Database, StorageError};
use braincells::stamp::Timestamp;

fn empty_dataset() -> Database {
    let mut db = Database::new();
    let dataset =
        Dataset::with_id("ds".to_string(), "Sheet".to_string(), None, Timestamp::from_micros(1));
    db.insert_dataset(dataset).unwrap();
    db
}

fn table(rows: &[&[&str]]) -> Vec<Vec<String>> {
    rows.iter().map(|row| row.iter().map(|field| field.to_string()).collect()).collect()
}

#[test]
fn import_then_export_reproduces_the_table() {
    let mut db = empty_dataset();
    let data = table(&[&["A", "B"], &["1", "2"], &["3", "4"]]);
    db.import_csv_data("ds", data.clone()).unwrap();
    let view = db.get_table_view("ds", None, None).unwrap();
    assert_eq!(export_table(&view), data);
}

#[test]
fn import_then_export_reproduces_the_text() {
    let mut db = empty_dataset();
    let text = "name,note\nfirst,\"with, comma\"\nsecond,\"with \"\"quotes\"\"\"\n";
    import_csv(&mut db, "ds", text).unwrap();
    let columns = db.list_columns("ds");
    assert_eq!(columns.len(), 2);
    assert_eq!(db.get_column_cells(&columns[1].id)[0].value.as_deref(), Some("with, comma"));
    assert_eq!(db.get_column_cells(&columns[1].id)[1].value.as_deref(), Some("with \"quotes\""));
    assert_eq!(export_csv(&db, "ds").unwrap(), text);
}

#[test]
fn export_fills_missing_cells_with_empty_fields() {
    let mut db = empty_dataset();
    db.import_csv_data("ds", table(&[&["A", "B", "C"], &["1"], &["2", "3"]])).unwrap();
    let view = db.get_table_view("ds", None, None).unwrap();
    assert_eq!(export_table(&view), table(&[&["A", "B", "C"], &["1", "", ""], &["2", "3", ""]]));
    assert_eq!(export_csv(&db, "ds").unwrap(), "A,B,C\n1,,\n2,3,\n");
}

#[test]
fn export_orders_columns_by_position() {
    let mut db = empty_dataset();
    let column = |id: &str, name: &str, position: i32| {
        Column::with_id(
            id.to_string(),
            "ds".to_string(),
            name.to_string(),
            ColumnType::Input,
            position,
            Timestamp::from_micros(0),
        )
    };
    db.add_column(column("late", "Late", 9)).unwrap();
    db.add_column(column("early", "Early", 1)).unwrap();
    let cell = Cell::with_id(
        "c".to_string(),
        "ds".to_string(),
        "late".to_string(),
        0,
        Timestamp::from_micros(0),
    )
    .with_value("x".to_string());
    db.upsert_cell(&cell).unwrap();
    assert_eq!(export_csv(&db, "ds").unwrap(), "Early,Late\n,x\n");
}

#[test]
fn export_of_an_unknown_dataset_fails() {
    let db = empty_dataset();
    assert_eq!(export_csv(&db, "nowhere"), Err(ExportError::DatasetNotFound));
    assert_eq!(ExportError::DatasetNotFound.message(), "Dataset not found");
    assert_eq!(
        ExportError::Write("disk".to_string()).message(),
        "Failed to write CSV: disk"
    );
}

#[test]
fn import_of_text_with_ragged_records_fails_to_parse() {
    let mut db = empty_dataset();
    let outcome = import_csv(&mut db, "ds", "a,b\n1,2,3\n");
    match outcome {
        Err(ImportError::Parse(reason)) => {
            assert!(reason.contains("CSV error"), "{}", reason);
            assert!(
                ImportError::Parse(reason.clone()).message()
                    == format!("Failed to parse CSV: {}", reason)
            );
        },
        other => panic!("expected a parse error, got {:?}", other),
    }
    assert!(db.list_columns("ds").is_empty());
}

#[test]
fn import_of_empty_text_imports_nothing() {
    let mut db = empty_dataset();
    // The codec reads an empty header record from an empty text.
    assert_eq!(import_csv(&mut db, "ds", ""), Ok(()));
    assert!(db.list_columns("ds").is_empty());
    assert_eq!(db.count_rows("ds"), 0);
}

#[test]
fn import_into_an_unknown_dataset_is_a_storage_error() {
    let mut db = Database::new();
    let outcome = import_csv(&mut db, "nowhere", "a\n1\n");
    assert_eq!(outcome, Err(ImportError::Storage(StorageError::UnknownDataset)));
    assert_eq!(
        outcome.unwrap_err().message(),
        "Failed to import CSV: dataset not found"
    );
}

#[test]
fn write_csv_writes_record_by_record() {
    assert_eq!(write_csv(&Vec::new()).unwrap(), "");
    assert_eq!(write_csv(&table(&[&["a", "b"], &["c d", "e\nf"]])).unwrap(), "a,b\nc d,\"e\nf\"\n");
    assert_eq!(write_csv(&table(&[&[""]])).unwrap(), "\"\"\n");
}
