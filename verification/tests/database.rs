use braincells::database::models::{Cell, CellStatus, Column, ColumnType, Dataset, DrawnField};
use braincells::database::{Database, StorageError};
use braincells::stamp::Timestamp;

fn dataset(id: &str, updated_micros: i64) -> Dataset {
    Dataset::with_id(id.to_string(), format!("name of {}", id), None, Timestamp::from_micros(updated_micros))
}

fn column(id: &str, dataset_id: &str, name: &str, position: i32) -> Column {
    Column::with_id(
        id.to_string(),
        dataset_id.to_string(),
        name.to_string(),
        ColumnType::Input,
        position,
        Timestamp::from_micros(0),
    )
}

fn cell(id: &str, dataset_id: &str, column_id: &str, row_index: i32, value: &str) -> Cell {
    Cell::with_id(
        id.to_string(),
        dataset_id.to_string(),
        column_id.to_string(),
        row_index,
        Timestamp::from_micros(0),
    )
    .with_value(value.to_string())
}

fn store_with_two_columns() -> Database {
    let mut db = Database::new();
    db.insert_dataset(dataset("ds", 1)).unwrap();
    db.add_column(column("a", "ds", "A", 0)).unwrap();
    db.add_column(column("b", "ds", "B", 1)).unwrap();
    db
}

#[test]
fn create_dataset_then_get_returns_the_record() {
    let mut db = Database::new();
    let created = db
        .create_dataset("Products".to_string(), Some("All products".to_string()))
        .unwrap();
    assert_eq!(created.name, "Products");
    assert_eq!(created.description, Some("All products".to_string()));
    assert_eq!(created.created_at, created.updated_at);
    assert_eq!(created.id.len(), 36);

    let found = db.get_dataset(&created.id).unwrap();
    assert_eq!(found, created);
    assert!(found.created_at.micros > 0);
}

#[test]
fn created_datasets_have_distinct_identifiers() {
    let mut db = Database::new();
    let first = db.create_dataset("one".to_string(), None).unwrap();
    let second = db.create_dataset("two".to_string(), None).unwrap();
    assert_ne!(first.id, second.id);
    assert_eq!(db.list_datasets().len(), 2);
}

#[test]
fn get_dataset_of_unknown_identifier_is_none() {
    let db = Database::new();
    assert_eq!(db.get_dataset("nowhere"), None);
}

#[test]
fn insert_dataset_refuses_a_taken_identifier() {
    let mut db = Database::new();
    db.insert_dataset(dataset("ds", 1)).unwrap();
    assert_eq!(db.insert_dataset(dataset("ds", 2)), Err(StorageError::DuplicateId));
    assert_eq!(db.list_datasets().len(), 1);
    assert_eq!(db.get_dataset("ds").unwrap().updated_at.micros, 1);
}

#[test]
fn list_datasets_puts_the_latest_update_first() {
    let mut db = Database::new();
    db.insert_dataset(dataset("old", 10)).unwrap();
    db.insert_dataset(dataset("new", 30)).unwrap();
    db.insert_dataset(dataset("mid", 20)).unwrap();
    db.insert_dataset(dataset("mid2", 20)).unwrap();
    let ids: Vec<String> = db.list_datasets().into_iter().map(|d| d.id).collect();
    assert_eq!(ids, vec!["new", "mid", "mid2", "old"]);
}

#[test]
fn add_column_refuses_unknown_dataset_and_taken_identifier() {
    let mut db = Database::new();
    assert_eq!(db.add_column(column("a", "ds", "A", 0)), Err(StorageError::UnknownDataset));
    db.insert_dataset(dataset("ds", 1)).unwrap();
    let stored = db.add_column(column("a", "ds", "A", 0)).unwrap();
    assert_eq!(stored, column("a", "ds", "A", 0));
    assert_eq!(db.add_column(column("a", "ds", "Again", 5)), Err(StorageError::DuplicateId));
    assert_eq!(db.add_column(column("a", "nowhere", "Again", 5)), Err(StorageError::DuplicateId));
    assert_eq!(db.list_columns("ds").len(), 1);
}

#[test]
fn list_columns_orders_by_position_and_keeps_ties_in_stored_order() {
    let mut db = Database::new();
    db.insert_dataset(dataset("ds", 1)).unwrap();
    db.insert_dataset(dataset("other", 1)).unwrap();
    db.add_column(column("c2", "ds", "two", 2)).unwrap();
    db.add_column(column("x", "other", "elsewhere", 0)).unwrap();
    db.add_column(column("c0", "ds", "zero", 0)).unwrap();
    db.add_column(column("c2b", "ds", "two again", 2)).unwrap();
    db.add_column(column("cm", "ds", "minus", -1)).unwrap();
    let ids: Vec<String> = db.list_columns("ds").into_iter().map(|c| c.id).collect();
    assert_eq!(ids, vec!["cm", "c0", "c2", "c2b"]);
    assert!(db.list_columns("nowhere").is_empty());
}

#[test]
fn upsert_cell_twice_leaves_only_the_latest_value() {
    let mut db = store_with_two_columns();
    db.upsert_cell(&cell("c1", "ds", "a", 0, "first")).unwrap();
    db.upsert_cell(&cell("c2", "ds", "a", 0, "second")).unwrap();
    let cells = db.get_column_cells("a");
    assert_eq!(cells.len(), 1);
    assert_eq!(cells[0].value, Some("second".to_string()));
    assert_eq!(cells[0].id, "c2");
    assert_eq!(cells[0].status, CellStatus::Completed);
}

#[test]
fn upsert_cell_replaces_the_whole_cell() {
    let mut db = store_with_two_columns();
    db.upsert_cell(&cell("c1", "ds", "a", 0, "value")).unwrap();
    let failed = Cell::with_id(
        "c1".to_string(),
        "ds".to_string(),
        "a".to_string(),
        0,
        Timestamp::from_micros(7),
    )
    .with_error("boom".to_string());
    db.upsert_cell(&failed).unwrap();
    let cells = db.get_column_cells("a");
    assert_eq!(cells.len(), 1);
    assert_eq!(cells[0].value, None);
    assert_eq!(cells[0].error, Some("boom".to_string()));
    assert_eq!(cells[0].status, CellStatus::Error);
    assert_eq!(cells[0].updated_at.micros, 7);
}

#[test]
fn upsert_cell_is_idempotent() {
    let mut db = store_with_two_columns();
    let c = cell("c1", "ds", "a", 3, "same");
    db.upsert_cell(&c).unwrap();
    db.upsert_cell(&c).unwrap();
    assert_eq!(db.get_column_cells("a"), vec![c]);
}

#[test]
fn upsert_cell_refusals() {
    let mut db = store_with_two_columns();
    assert_eq!(
        db.upsert_cell(&cell("c1", "nowhere", "a", 0, "v")),
        Err(StorageError::UnknownDataset)
    );
    assert_eq!(
        db.upsert_cell(&cell("c1", "ds", "nowhere", 0, "v")),
        Err(StorageError::UnknownColumn)
    );
    db.upsert_cell(&cell("c1", "ds", "a", 0, "v")).unwrap();
    assert_eq!(db.upsert_cell(&cell("c1", "ds", "a", 1, "w")), Err(StorageError::DuplicateId));
    assert_eq!(db.upsert_cell(&cell("c1", "ds", "b", 0, "w")), Err(StorageError::DuplicateId));
    assert_eq!(db.get_column_cells("a").len(), 1);
    assert!(db.get_column_cells("b").is_empty());
}

#[test]
fn get_column_cells_orders_by_row_index() {
    let mut db = store_with_two_columns();
    db.upsert_cell(&cell("c5", "ds", "a", 5, "five")).unwrap();
    db.upsert_cell(&cell("c1", "ds", "a", 1, "one")).unwrap();
    db.upsert_cell(&cell("b3", "ds", "b", 3, "other column")).unwrap();
    db.upsert_cell(&cell("c3", "ds", "a", 3, "three")).unwrap();
    let rows: Vec<i32> = db.get_column_cells("a").iter().map(|c| c.row_index).collect();
    assert_eq!(rows, vec![1, 3, 5]);
}

#[test]
fn delete_dataset_removes_its_columns_and_cells() {
    let mut db = store_with_two_columns();
    db.insert_dataset(dataset("keep", 2)).unwrap();
    db.add_column(column("k", "keep", "K", 0)).unwrap();
    db.upsert_cell(&cell("c1", "ds", "a", 0, "1")).unwrap();
    db.upsert_cell(&cell("c2", "ds", "b", 0, "2")).unwrap();
    db.upsert_cell(&cell("c3", "keep", "k", 0, "3")).unwrap();
    // A cell of the other dataset in a column of the deleted one goes with the column.
    db.upsert_cell(&cell("c4", "keep", "a", 1, "4")).unwrap();

    db.delete_dataset("ds");

    assert_eq!(db.get_dataset("ds"), None);
    assert!(db.list_columns("ds").is_empty());
    assert!(db.get_column_cells("a").is_empty());
    assert!(db.get_column_cells("b").is_empty());
    assert_eq!(db.count_rows("ds"), 0);
    assert!(db.get_dataset("keep").is_some());
    assert_eq!(db.list_columns("keep").len(), 1);
    assert_eq!(db.get_column_cells("k").len(), 1);
    assert_eq!(db.count_rows("keep"), 1);
}

#[test]
fn delete_dataset_of_unknown_identifier_changes_nothing() {
    let mut db = store_with_two_columns();
    db.upsert_cell(&cell("c1", "ds", "a", 0, "1")).unwrap();
    db.delete_dataset("nowhere");
    db.delete_dataset("nowhere");
    assert!(db.get_dataset("ds").is_some());
    assert_eq!(db.list_columns("ds").len(), 2);
    assert_eq!(db.get_column_cells("a").len(), 1);
}

#[test]
fn delete_column_removes_its_cells_only() {
    let mut db = store_with_two_columns();
    db.upsert_cell(&cell("c1", "ds", "a", 0, "1")).unwrap();
    db.upsert_cell(&cell("c2", "ds", "b", 0, "2")).unwrap();
    db.delete_column("a");
    let ids: Vec<String> = db.list_columns("ds").into_iter().map(|c| c.id).collect();
    assert_eq!(ids, vec!["b"]);
    assert!(db.get_column_cells("a").is_empty());
    assert_eq!(db.get_column_cells("b").len(), 1);
    assert_eq!(db.upsert_cell(&cell("c3", "ds", "a", 1, "x")), Err(StorageError::UnknownColumn));
}

#[test]
fn count_rows_counts_distinct_row_indices_of_a_sparse_dataset() {
    let mut db = store_with_two_columns();
    assert_eq!(db.count_rows("ds"), 0);
    db.upsert_cell(&cell("c1", "ds", "a", 0, "a0")).unwrap();
    db.upsert_cell(&cell("c2", "ds", "b", 0, "b0")).unwrap();
    db.upsert_cell(&cell("c3", "ds", "a", 7, "a7")).unwrap();
    db.upsert_cell(&cell("c4", "ds", "b", 2, "b2")).unwrap();
    assert_eq!(db.count_rows("ds"), 3);
    assert_eq!(db.count_rows("nowhere"), 0);
}

#[test]
fn get_dataset_rows_groups_cells_by_row_index() {
    let mut db = store_with_two_columns();
    db.upsert_cell(&cell("c3", "ds", "a", 7, "a7")).unwrap();
    db.upsert_cell(&cell("c1", "ds", "a", 0, "a0")).unwrap();
    db.upsert_cell(&cell("c2", "ds", "b", 0, "b0")).unwrap();
    db.upsert_cell(&cell("c4", "ds", "b", 2, "b2")).unwrap();

    let rows = db.get_dataset_rows("ds", None, None);
    let indices: Vec<i32> = rows.iter().map(|r| r.index).collect();
    assert_eq!(indices, vec![0, 2, 7]);
    assert_eq!(rows[0].get_cell_value("a"), Some(&"a0".to_string()));
    assert_eq!(rows[0].get_cell_value("b"), Some(&"b0".to_string()));
    assert_eq!(rows[1].get_cell_value("a"), None);
    assert_eq!(rows[1].get_cell_value("b"), Some(&"b2".to_string()));
    assert_eq!(rows[2].get_cell_value("a"), Some(&"a7".to_string()));
    assert!(rows[2].get_cell("b").is_none());
}

#[test]
fn get_dataset_rows_pages_after_grouping() {
    let mut db = store_with_two_columns();
    for i in 0..5 {
        db.upsert_cell(&cell(&format!("c{}", i), "ds", "a", i * 10, "v")).unwrap();
    }
    let page = |limit: Option<i32>, offset: Option<i32>| -> Vec<i32> {
        db.get_dataset_rows("ds", limit, offset).iter().map(|r| r.index).collect()
    };
    assert_eq!(page(None, None), vec![0, 10, 20, 30, 40]);
    assert_eq!(page(Some(2), None), vec![0, 10]);
    assert_eq!(page(Some(2), Some(1)), vec![10, 20]);
    assert_eq!(page(Some(1), Some(4)), vec![40]);
    assert_eq!(page(Some(10), Some(3)), vec![30, 40]);
    assert_eq!(page(None, Some(5)), Vec::<i32>::new());
    assert_eq!(page(None, Some(6)), Vec::<i32>::new());
    assert_eq!(page(Some(0), None), Vec::<i32>::new());
    assert_eq!(page(Some(-1), Some(3)), vec![30, 40]);
    assert_eq!(page(Some(2), Some(-1)), Vec::<i32>::new());
    assert_eq!(page(Some(i32::MAX), Some(i32::MAX)), Vec::<i32>::new());
}

#[test]
fn a_dataset_without_columns_has_no_rows_to_show() {
    let mut db = store_with_two_columns();
    db.insert_dataset(dataset("bare", 2)).unwrap();
    // A cell of the bare dataset in a column of another dataset.
    db.upsert_cell(&cell("c1", "bare", "a", 0, "v")).unwrap();
    assert_eq!(db.count_rows("bare"), 1);
    assert!(db.get_dataset_rows("bare", None, None).is_empty());
}

#[test]
fn get_table_view_joins_dataset_columns_and_rows() {
    let mut db = store_with_two_columns();
    db.upsert_cell(&cell("c1", "ds", "a", 0, "a0")).unwrap();
    db.upsert_cell(&cell("c2", "ds", "b", 1, "b1")).unwrap();
    let table = db.get_table_view("ds", Some(1), Some(1)).unwrap();
    assert_eq!(table.dataset.id, "ds");
    let names: Vec<&str> = table.columns.iter().map(|c| c.name.as_str()).collect();
    assert_eq!(names, vec!["A", "B"]);
    assert_eq!(table.rows.len(), 1);
    assert_eq!(table.rows[0].index, 1);
    assert!(db.get_table_view("nowhere", None, None).is_none());
}

#[test]
fn import_csv_data_refuses_an_empty_table() {
    let mut db = store_with_two_columns();
    assert_eq!(db.import_csv_data("ds", Vec::new()), Err(StorageError::EmptyImport));
    assert_eq!(db.list_columns("ds").len(), 2);
    assert_eq!(StorageError::EmptyImport.message(), "CSV data is empty");
}

#[test]
fn import_csv_data_into_an_unknown_dataset_fails() {
    let mut db = Database::new();
    let data = vec![vec!["A".to_string()], vec!["1".to_string()]];
    assert_eq!(db.import_csv_data("nowhere", data), Err(StorageError::UnknownDataset));
    // Without a header there is no column to refuse.
    assert_eq!(db.import_csv_data("nowhere", vec![Vec::new()]), Ok(()));
}

#[test]
fn import_csv_data_creates_input_columns_and_completed_cells() {
    let mut db = Database::new();
    db.insert_dataset(dataset("ds", 1)).unwrap();
    let data = vec![
        vec!["A".to_string(), "B".to_string()],
        vec!["1".to_string(), "2".to_string(), "dropped".to_string()],
        vec!["3".to_string()],
    ];
    db.import_csv_data("ds", data).unwrap();

    let columns = db.list_columns("ds");
    assert_eq!(columns.len(), 2);
    assert_eq!((columns[0].name.as_str(), columns[0].position), ("A", 0));
    assert_eq!((columns[1].name.as_str(), columns[1].position), ("B", 1));
    assert!(columns.iter().all(|c| c.column_type == ColumnType::Input && c.prompt.is_none()));
    assert_ne!(columns[0].id, columns[1].id);

    let a = db.get_column_cells(&columns[0].id);
    let b = db.get_column_cells(&columns[1].id);
    assert_eq!(a.len(), 2);
    assert_eq!(b.len(), 1);
    assert_eq!((a[0].row_index, a[0].value.as_deref()), (0, Some("1")));
    assert_eq!((a[1].row_index, a[1].value.as_deref()), (1, Some("3")));
    assert_eq!((b[0].row_index, b[0].value.as_deref()), (0, Some("2")));
    assert!(a.iter().chain(b.iter()).all(|c| c.status == CellStatus::Completed));
    assert_eq!(db.count_rows("ds"), 2);
}

#[test]
fn import_csv_data_fills_existing_columns_first() {
    let mut db = Database::new();
    db.insert_dataset(dataset("ds", 1)).unwrap();
    db.add_column(column("first", "ds", "Existing", -5)).unwrap();
    let data = vec![vec!["A".to_string()], vec!["x".to_string(), "y".to_string()]];
    db.import_csv_data("ds", data).unwrap();
    let columns = db.list_columns("ds");
    assert_eq!(columns.len(), 2);
    assert_eq!(columns[0].id, "first");
    assert_eq!(db.get_column_cells("first")[0].value.as_deref(), Some("x"));
    assert_eq!(db.get_column_cells(&columns[1].id)[0].value.as_deref(), Some("y"));
}

fn drawn(id: &str, micros: i64, text: &str) -> DrawnField {
    DrawnField { id: id.to_string(), at: Timestamp::from_micros(micros), text: text.to_string() }
}

#[test]
fn import_drawn_stores_each_field_under_its_identifier_and_time() {
    let mut db = Database::new();
    db.insert_dataset(dataset("ds", 1)).unwrap();
    let table = vec![
        vec![drawn("colA", 1, "A"), drawn("colB", 2, "B")],
        vec![drawn("a0", 3, "1"), drawn("b0", 4, "2"), drawn("dropped", 5, "x")],
        vec![drawn("a1", 6, "3")],
    ];
    assert_eq!(db.import_drawn("ds", table), Ok(()));

    let columns = db.list_columns("ds");
    let shown: Vec<(&str, &str, i32, i64)> = columns
        .iter()
        .map(|c| (c.id.as_str(), c.name.as_str(), c.position, c.created_at.micros))
        .collect();
    assert_eq!(shown, vec![("colA", "A", 0, 1), ("colB", "B", 1, 2)]);
    let cells: Vec<(String, String, i32, Option<String>, i64)> = db
        .cells()
        .iter()
        .map(|c| (c.id.clone(), c.column_id.clone(), c.row_index, c.value.clone(), c.updated_at.micros))
        .collect();
    assert_eq!(
        cells,
        vec![
            ("a0".to_string(), "colA".to_string(), 0, Some("1".to_string()), 3),
            ("b0".to_string(), "colB".to_string(), 0, Some("2".to_string()), 4),
            ("a1".to_string(), "colA".to_string(), 1, Some("3".to_string()), 6),
        ]
    );
}

#[test]
fn import_drawn_stops_at_the_first_record_refused_and_keeps_what_came_before() {
    let mut db = Database::new();
    db.insert_dataset(dataset("ds", 1)).unwrap();
    // The second header has the identifier of the first.
    let table = vec![vec![drawn("same", 1, "A"), drawn("same", 2, "B")], vec![drawn("a0", 3, "1")]];
    assert_eq!(db.import_drawn("ds", table), Err(StorageError::DuplicateId));
    assert_eq!(db.list_columns("ds").len(), 1);
    assert!(db.cells().is_empty());

    // The second cell has the identifier of the first.
    let mut db = Database::new();
    db.insert_dataset(dataset("ds", 1)).unwrap();
    let table = vec![
        vec![drawn("colA", 1, "A"), drawn("colB", 2, "B")],
        vec![drawn("cell", 3, "1"), drawn("cell", 4, "2")],
        vec![drawn("later", 5, "3")],
    ];
    assert_eq!(db.import_drawn("ds", table), Err(StorageError::DuplicateId));
    assert_eq!(db.list_columns("ds").len(), 2);
    assert_eq!(db.cells().len(), 1);
    assert_eq!(db.cells()[0].id, "cell");
    assert_eq!(db.cells()[0].value.as_deref(), Some("1"));

    assert_eq!(db.import_drawn("ds", Vec::new()), Err(StorageError::EmptyImport));
}

#[test]
fn a_table_without_headers_is_imported_without_fail_where_nothing_is_stored() {
    let mut db = Database::new();
    // No further rows: nothing to store, whatever the dataset.
    assert_eq!(db.import_csv_data("nowhere", vec![Vec::new()]), Ok(()));
    // Further rows and a dataset without columns: every field is dropped.
    db.insert_dataset(dataset("ds", 1)).unwrap();
    let data = vec![Vec::new(), vec!["1".to_string(), "2".to_string()]];
    assert_eq!(db.import_csv_data("ds", data), Ok(()));
    assert!(db.cells().is_empty());
    assert!(db.columns().is_empty());
}

#[test]
fn the_first_dataset_is_always_created() {
    for _ in 0..20 {
        let mut db = Database::new();
        assert!(db.create_dataset("first".to_string(), None).is_ok());
        assert_eq!(db.datasets().len(), 1);
    }
}

#[test]
fn update_cell_as_puts_a_completed_or_a_pending_cell() {
    let mut db = store_with_two_columns();
    let at = Timestamp::from_micros(9);
    db.update_cell_as("c1".to_string(), "ds".to_string(), "a".to_string(), 2, Some("v".to_string()), at)
        .unwrap();
    let cells = db.get_column_cells("a");
    assert_eq!(cells, vec![Cell::with_id("c1".to_string(), "ds".to_string(), "a".to_string(), 2, at)
        .with_value("v".to_string())]);
    assert_eq!(cells[0].status, CellStatus::Completed);

    // Without a value the cell is pending, and replaces the cell that was there.
    db.update_cell_as("c2".to_string(), "ds".to_string(), "a".to_string(), 2, None, at).unwrap();
    let cells = db.get_column_cells("a");
    assert_eq!(cells.len(), 1);
    assert_eq!((cells[0].id.as_str(), cells[0].status, cells[0].value.clone()), ("c2", CellStatus::Pending, None));
    assert_eq!(cells[0].error, None);

    assert_eq!(
        db.update_cell_as("c3".to_string(), "ds".to_string(), "nowhere".to_string(), 0, None, at),
        Err(StorageError::UnknownColumn)
    );
    assert_eq!(
        db.update_cell_as("c2".to_string(), "ds".to_string(), "b".to_string(), 0, None, at),
        Err(StorageError::DuplicateId)
    );
    assert_eq!(db.cells().len(), 1);
}

#[test]
fn update_cell_draws_an_identifier_for_the_cell() {
    let mut db = store_with_two_columns();
    db.update_cell("ds".to_string(), "a".to_string(), 0, Some("one".to_string())).unwrap();
    db.update_cell("ds".to_string(), "b".to_string(), 0, None).unwrap();
    db.update_cell("ds".to_string(), "a".to_string(), 0, Some("two".to_string())).unwrap();
    let a = db.get_column_cells("a");
    let b = db.get_column_cells("b");
    assert_eq!(a.len(), 1);
    assert_eq!((a[0].value.as_deref(), a[0].status), (Some("two"), CellStatus::Completed));
    assert_eq!((b[0].value.as_deref(), b[0].status), (None, CellStatus::Pending));
    assert_eq!(a[0].id.len(), 36);
    assert_ne!(a[0].id, b[0].id);
    assert_eq!(
        db.update_cell("nowhere".to_string(), "a".to_string(), 0, None),
        Err(StorageError::UnknownDataset)
    );
}
