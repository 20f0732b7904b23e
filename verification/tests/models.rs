use braincells::database::models::{Cell, CellStatus, Column, ColumnType, Dataset, Row, TableView};
use braincells::database::{Database, StorageError};
use braincells::stamp::Timestamp;

fn cell(id: &str, column_id: &str, value: &str) -> Cell {
    Cell::with_id(id.to_string(), "ds".to_string(), column_id.to_string(), 0, Timestamp::from_micros(5))
        .with_value(value.to_string())
}

#[test]
fn column_types_and_statuses_are_stored_by_name() {
    assert_eq!(ColumnType::Input.as_str(), "input");
    assert_eq!(ColumnType::Output.as_str(), "output");
    assert_eq!(ColumnType::parse("input"), Some(ColumnType::Input));
    assert_eq!(ColumnType::parse("output"), Some(ColumnType::Output));
    assert_eq!(ColumnType::parse("Output"), None);
    assert_eq!(ColumnType::parse(""), None);

    for status in [CellStatus::Pending, CellStatus::Completed, CellStatus::Error] {
        assert_eq!(CellStatus::parse(status.as_str()), Some(status));
    }
    assert_eq!(CellStatus::Pending.as_str(), "pending");
    assert_eq!(CellStatus::Completed.as_str(), "completed");
    assert_eq!(CellStatus::Error.as_str(), "error");
    assert_eq!(CellStatus::parse("done"), None);
}

#[test]
fn new_records_start_out_empty() {
    let dataset = Dataset::new("Name".to_string(), None);
    assert_eq!(dataset.name, "Name");
    assert_eq!(dataset.description, None);
    assert_eq!(dataset.created_at, dataset.updated_at);

    let column = Column::new("ds".to_string(), "Title".to_string(), ColumnType::Output, 4);
    assert_eq!(column.dataset_id, "ds");
    assert_eq!(column.name, "Title");
    assert_eq!(column.column_type, ColumnType::Output);
    assert_eq!(column.position, 4);
    assert_eq!(column.prompt, None);
    assert_eq!(column.provider_id, None);
    assert_eq!(column.id.len(), 36);

    let cell = Cell::new("ds".to_string(), "col".to_string(), 9);
    assert_eq!((cell.dataset_id.as_str(), cell.column_id.as_str(), cell.row_index), ("ds", "col", 9));
    assert_eq!(cell.value, None);
    assert_eq!(cell.error, None);
    assert_eq!(cell.status, CellStatus::Pending);
    assert_eq!(cell.created_at, cell.updated_at);
    assert_ne!(cell.id, Cell::new("ds".to_string(), "col".to_string(), 9).id);
}

#[test]
fn builders_set_what_they_name_and_nothing_else() {
    let column = Column::with_id(
        "c".to_string(),
        "ds".to_string(),
        "Pitch".to_string(),
        ColumnType::Output,
        1,
        Timestamp::from_micros(2),
    );
    let with_prompt = column.clone().with_prompt("Say {{x}}".to_string());
    assert_eq!(with_prompt.prompt.as_deref(), Some("Say {{x}}"));
    assert_eq!(with_prompt.provider_id, None);
    let with_provider = with_prompt.clone().with_provider("p1".to_string());
    assert_eq!(with_provider.provider_id.as_deref(), Some("p1"));
    assert_eq!(with_provider.prompt.as_deref(), Some("Say {{x}}"));
    assert_eq!(with_provider.id, "c");
    assert_eq!(with_provider.created_at.micros, 2);

    let pending =
        Cell::with_id("id".to_string(), "ds".to_string(), "c".to_string(), 3, Timestamp::from_micros(5));
    let completed = pending.clone().with_value("v".to_string());
    assert_eq!(completed.value.as_deref(), Some("v"));
    assert_eq!(completed.status, CellStatus::Completed);
    assert_eq!(completed.error, None);
    let failed = pending.clone().with_error("e".to_string());
    assert_eq!(failed.error.as_deref(), Some("e"));
    assert_eq!(failed.status, CellStatus::Error);
    assert_eq!(failed.value, None);
    assert_eq!((failed.id.as_str(), failed.row_index, failed.updated_at.micros), ("id", 3, 5));
}

#[test]
fn a_row_holds_one_cell_for_each_column() {
    let mut row = Row::new(4);
    assert_eq!(row.index, 4);
    assert!(row.get_cell("a").is_none());
    assert_eq!(row.get_cell_value("a"), None);

    row.add_cell("a".to_string(), cell("1", "a", "first"));
    row.add_cell("b".to_string(), cell("2", "b", "other"));
    row.add_cell("a".to_string(), cell("3", "a", "second"));
    assert_eq!(row.cells.len(), 2);
    assert_eq!(row.get_cell("a").unwrap().id, "3");
    assert_eq!(row.get_cell_value("a"), Some(&"second".to_string()));
    assert_eq!(row.get_cell_value("b"), Some(&"other".to_string()));

    // The column that a cell is put under is the one given, whatever the cell says.
    row.add_cell("c".to_string(), cell("4", "a", "under c"));
    assert_eq!(row.get_cell_value("c"), Some(&"under c".to_string()));

    // A cell without a value shows none.
    let empty = Cell::with_id("5".to_string(), "ds".to_string(), "d".to_string(), 4, Timestamp::from_micros(0));
    row.add_cell("d".to_string(), empty);
    assert!(row.get_cell("d").is_some());
    assert_eq!(row.get_cell_value("d"), None);

    let copy = row.clone();
    assert_eq!(copy.index, 4);
    assert_eq!(copy.cells, row.cells);
}

#[test]
fn a_row_with_entries_of_one_column_shows_the_last() {
    let row = Row {
        index: 0,
        cells: vec![
            ("a".to_string(), cell("1", "a", "early")),
            ("a".to_string(), cell("2", "a", "late")),
        ],
    };
    assert_eq!(row.get_cell_value("a"), Some(&"late".to_string()));
}

#[test]
fn a_table_view_is_what_it_was_made_of() {
    let dataset =
        Dataset::with_id("ds".to_string(), "Sheet".to_string(), None, Timestamp::from_micros(1));
    let table = TableView::new(dataset.clone(), Vec::new(), vec![Row::new(2)]);
    assert_eq!(table.dataset, dataset);
    assert!(table.columns.is_empty());
    assert_eq!(table.rows[0].index, 2);
}

#[test]
fn a_store_is_restored_from_its_tables() {
    let mut db = Database::new();
    db.insert_dataset(Dataset::with_id(
        "ds".to_string(),
        "Sheet".to_string(),
        Some("about".to_string()),
        Timestamp::from_micros(1),
    ))
    .unwrap();
    db.import_csv_data(
        "ds",
        vec![
            vec!["A".to_string(), "B".to_string()],
            vec!["1".to_string(), "2".to_string()],
        ],
    )
    .unwrap();

    let restored =
        Database::restore(db.datasets().clone(), db.columns().clone(), db.cells().clone()).unwrap();
    assert_eq!(restored.datasets(), db.datasets());
    assert_eq!(restored.columns(), db.columns());
    assert_eq!(restored.cells(), db.cells());
    assert_eq!(restored.count_rows("ds"), 1);
    assert_eq!(db.datasets().len(), 1);
    assert_eq!(db.columns().len(), 2);
    assert_eq!(db.cells().len(), 2);
}

#[test]
fn tables_that_break_a_constraint_restore_nothing() {
    let dataset = |id: &str| {
        Dataset::with_id(id.to_string(), "Sheet".to_string(), None, Timestamp::from_micros(1))
    };
    let column = |id: &str, dataset_id: &str| {
        Column::with_id(
            id.to_string(),
            dataset_id.to_string(),
            "A".to_string(),
            ColumnType::Input,
            0,
            Timestamp::from_micros(1),
        )
    };
    let refused = |datasets, columns, cells| Database::restore(datasets, columns, cells).err();

    assert_eq!(
        refused(vec![dataset("ds"), dataset("ds")], Vec::new(), Vec::new()),
        Some(StorageError::DuplicateId)
    );
    assert_eq!(
        refused(vec![dataset("ds")], vec![column("a", "elsewhere")], Vec::new()),
        Some(StorageError::UnknownDataset)
    );
    assert_eq!(
        refused(vec![dataset("ds")], vec![column("a", "ds")], vec![cell("1", "b", "v")]),
        Some(StorageError::UnknownColumn)
    );
    assert_eq!(
        refused(
            vec![dataset("ds")],
            vec![column("a", "ds"), column("b", "ds")],
            vec![cell("1", "a", "v"), cell("1", "b", "w")]
        ),
        Some(StorageError::DuplicateId)
    );
    assert!(Database::restore(Vec::new(), Vec::new(), Vec::new()).is_ok());
}

#[test]
fn storage_errors_describe_themselves() {
    assert_eq!(StorageError::DuplicateId.message(), "identifier already in use");
    assert_eq!(StorageError::UnknownDataset.message(), "dataset not found");
    assert_eq!(StorageError::UnknownColumn.message(), "column not found");
    assert_eq!(StorageError::Full.message(), "cell capacity exhausted");
    assert_eq!(StorageError::EmptyImport.message(), "CSV data is empty");
    assert_eq!(StorageError::OversizedImport.message(), "CSV data is too large");
}
