//! The store as contracts see it: three sequences of record views, the
//! constraints that keep them consistent, and what each operation of the
//! storage engine makes of them.

use crate::database::models::{
    CellStatus, CellView, ColumnType, ColumnView, DatasetView, DrawnFieldView, RowView,
    TableContents,
};
use crate::database::StorageError;
use crate::stamp::Timestamp;
use crate::seqs::{distinct_by, find_first, first_index, sort_by_rank};
use vstd::prelude::*;

verus! {

/// The three tables, each in the order in which its records were stored.
pub struct Store {
    pub datasets: Seq<DatasetView>,
    pub columns: Seq<ColumnView>,
    pub cells: Seq<CellView>,
}

/// What addresses a cell: its dataset, its column and its row index.
pub struct CellKey {
    pub dataset_id: Seq<char>,
    pub column_id: Seq<char>,
    pub row_index: i32,
}

/// The most cells that the store holds.
pub open spec fn cell_capacity() -> int {
    i32::MAX as int
}

/// The key under which `cell` is stored.
pub open spec fn key_of(cell: CellView) -> CellKey {
    CellKey { dataset_id: cell.dataset_id, column_id: cell.column_id, row_index: cell.row_index }
}

// Predicates on records, as functions: each holds of the records that the
// name says.

pub open spec fn dataset_is(id: Seq<char>) -> spec_fn(DatasetView) -> bool {
    |d: DatasetView| d.id == id
}

pub open spec fn dataset_is_not(id: Seq<char>) -> spec_fn(DatasetView) -> bool {
    |d: DatasetView| d.id != id
}

pub open spec fn column_is(id: Seq<char>) -> spec_fn(ColumnView) -> bool {
    |c: ColumnView| c.id == id
}

pub open spec fn column_is_not(id: Seq<char>) -> spec_fn(ColumnView) -> bool {
    |c: ColumnView| c.id != id
}

pub open spec fn column_in(dataset_id: Seq<char>) -> spec_fn(ColumnView) -> bool {
    |c: ColumnView| c.dataset_id == dataset_id
}

pub open spec fn column_not_in(dataset_id: Seq<char>) -> spec_fn(ColumnView) -> bool {
    |c: ColumnView| c.dataset_id != dataset_id
}

pub open spec fn column_named(name: Seq<char>) -> spec_fn(ColumnView) -> bool {
    |c: ColumnView| c.name == name
}

pub open spec fn cell_at_key(key: CellKey) -> spec_fn(CellView) -> bool {
    |c: CellView| key_of(c) == key
}

pub open spec fn cell_has_id(id: Seq<char>) -> spec_fn(CellView) -> bool {
    |c: CellView| c.id == id
}

pub open spec fn cell_in(dataset_id: Seq<char>) -> spec_fn(CellView) -> bool {
    |c: CellView| c.dataset_id == dataset_id
}

pub open spec fn cell_of_column(column_id: Seq<char>) -> spec_fn(CellView) -> bool {
    |c: CellView| c.column_id == column_id
}

pub open spec fn cell_not_of_column(column_id: Seq<char>) -> spec_fn(CellView) -> bool {
    |c: CellView| c.column_id != column_id
}

pub open spec fn cell_in_row(row_index: i32) -> spec_fn(CellView) -> bool {
    |c: CellView| c.row_index == row_index
}

// What identifies a record, as functions.

pub open spec fn dataset_id() -> spec_fn(DatasetView) -> Seq<char> {
    |d: DatasetView| d.id
}

pub open spec fn column_id() -> spec_fn(ColumnView) -> Seq<char> {
    |c: ColumnView| c.id
}

pub open spec fn cell_id() -> spec_fn(CellView) -> Seq<char> {
    |c: CellView| c.id
}

pub open spec fn cell_key() -> spec_fn(CellView) -> CellKey {
    |c: CellView| key_of(c)
}

// Ranks by which listings are ordered.

/// Later `updated_at` first.
pub open spec fn newest_first() -> spec_fn(DatasetView) -> int {
    |d: DatasetView| -(d.updated_at.micros as int)
}

pub open spec fn by_position() -> spec_fn(ColumnView) -> int {
    |c: ColumnView| c.position as int
}

pub open spec fn by_row_index() -> spec_fn(CellView) -> int {
    |c: CellView| c.row_index as int
}

// Lookups.

/// The dataset stored under `id`.
pub open spec fn find_dataset(store: Store, id: Seq<char>) -> Option<DatasetView> {
    find_first(store.datasets, dataset_is(id))
}

/// The column stored under `id`.
pub open spec fn find_column(store: Store, id: Seq<char>) -> Option<ColumnView> {
    find_first(store.columns, column_is(id))
}

/// The cell stored under `key`.
pub open spec fn find_cell(store: Store, key: CellKey) -> Option<CellView> {
    find_first(store.cells, cell_at_key(key))
}

/// Whether the column that `cell` belongs to is a column of `dataset_id`.
pub open spec fn cell_column_in(store: Store, dataset_id: Seq<char>) -> spec_fn(CellView) -> bool {
    |c: CellView|
        match find_column(store, c.column_id) {
            Some(column) => column.dataset_id == dataset_id,
            None => false,
        }
}

/// Whether `cell` outlives the deletion of `dataset_id`: it is neither a
/// cell of that dataset nor a cell of one of its columns.
pub open spec fn cell_survives(store: Store, dataset_id: Seq<char>) -> spec_fn(CellView) -> bool {
    |c: CellView| c.dataset_id != dataset_id && !cell_column_in(store, dataset_id)(c)
}

// Consistency.

/// The constraints of the store: identifiers are unique within their table,
/// no two cells share a key, every column belongs to a stored dataset, every
/// cell to a stored dataset and a stored column, and the cells are no more
/// than the capacity.
pub open spec fn consistent(store: Store) -> bool {
    &&& distinct_by(store.datasets, dataset_id())
    &&& distinct_by(store.columns, column_id())
    &&& distinct_by(store.cells, cell_id())
    &&& distinct_by(store.cells, cell_key())
    &&& forall|i: int|
        0 <= i < store.columns.len() ==> find_dataset(
            store,
            (#[trigger] store.columns[i]).dataset_id,
        ) is Some
    &&& forall|i: int|
        0 <= i < store.cells.len() ==> find_dataset(store, (#[trigger] store.cells[i]).dataset_id)
            is Some
    &&& forall|i: int|
        0 <= i < store.cells.len() ==> find_column(store, (#[trigger] store.cells[i]).column_id)
            is Some
    &&& store.cells.len() <= cell_capacity()
}

// Listings.

/// All datasets, latest update first.
pub open spec fn datasets_listed(store: Store) -> Seq<DatasetView> {
    sort_by_rank(store.datasets, newest_first())
}

/// The columns of `dataset_id`, in ascending order of position.
pub open spec fn columns_of(store: Store, dataset_id: Seq<char>) -> Seq<ColumnView> {
    sort_by_rank(store.columns.filter(column_in(dataset_id)), by_position())
}

/// The cells of `column_id`, in ascending order of row index.
pub open spec fn cells_of_column(store: Store, column_id: Seq<char>) -> Seq<CellView> {
    sort_by_rank(store.cells.filter(cell_of_column(column_id)), by_row_index())
}

/// The cells of `dataset_id`, in the order in which they are stored.
pub open spec fn cells_of_dataset(store: Store, dataset_id: Seq<char>) -> Seq<CellView> {
    store.cells.filter(cell_in(dataset_id))
}

// Rows.

pub open spec fn at_least(bound: i32) -> spec_fn(i32) -> bool {
    |x: i32| x >= bound
}

/// `sorted` with `x` put at its place, unless it is there already.
pub open spec fn insert_distinct(sorted: Seq<i32>, x: i32) -> Seq<i32> {
    let i = first_index(sorted, at_least(x));
    if i < sorted.len() && sorted[i] == x {
        sorted
    } else {
        sorted.insert(i, x)
    }
}

/// The values of `s`, each once, in ascending order.
pub open spec fn sorted_distinct(s: Seq<i32>) -> Seq<i32>
    decreases s.len(),
{
    if s.len() == 0 {
        s
    } else {
        insert_distinct(sorted_distinct(s.drop_last()), s.last())
    }
}

/// Whether `s` ascends strictly.
pub open spec fn strictly_ascending(s: Seq<i32>) -> bool {
    forall|i: int, j: int| 0 <= i < j < s.len() ==> #[trigger] s[i] < #[trigger] s[j]
}

pub open spec fn row_index_of() -> spec_fn(CellView) -> i32 {
    |c: CellView| c.row_index
}

/// The row indices at which `dataset_id` has a cell, each once, ascending.
pub open spec fn row_indices(store: Store, dataset_id: Seq<char>) -> Seq<i32> {
    sorted_distinct(cells_of_dataset(store, dataset_id).map_values(row_index_of()))
}

/// The set of row indices at which `dataset_id` has a cell.
pub open spec fn row_index_set(store: Store, dataset_id: Seq<char>) -> Set<i32> {
    cells_of_dataset(store, dataset_id).map_values(row_index_of()).to_set()
}

/// The cells of `cells` by column identifier; a later cell replaces an
/// earlier one of the same column.
pub open spec fn cells_by_column(cells: Seq<CellView>) -> Map<Seq<char>, CellView>
    decreases cells.len(),
{
    if cells.len() == 0 {
        Map::empty()
    } else {
        cells_by_column(cells.drop_last()).insert(cells.last().column_id, cells.last())
    }
}

/// The row of `dataset_id` at `row_index`.
pub open spec fn row_at(store: Store, dataset_id: Seq<char>, row_index: i32) -> RowView {
    RowView {
        index: row_index,
        cells: cells_by_column(cells_of_dataset(store, dataset_id).filter(cell_in_row(row_index))),
    }
}

pub open spec fn row_builder(store: Store, dataset_id: Seq<char>) -> spec_fn(i32) -> RowView {
    |r: i32| row_at(store, dataset_id, r)
}

/// Where a page begins among `len` items: after `offset` items, or at the
/// end where the offset is negative or past the end. A missing offset
/// skips nothing.
pub open spec fn page_start(len: int, offset: Option<i32>) -> int {
    match offset {
        None => 0,
        Some(o) => if o < 0 || o > len {
            len
        } else {
            o as int
        },
    }
}

/// Where a page ends among `len` items: `limit` items after its start, or
/// at the end where the limit is negative or reaches past the end. A
/// missing limit cuts nothing.
pub open spec fn page_end(len: int, limit: Option<i32>, offset: Option<i32>) -> int {
    let start = page_start(len, offset);
    match limit {
        None => len,
        Some(l) => if l < 0 || start + l > len {
            len
        } else {
            start + l
        },
    }
}

/// The part of `items` that a page shows.
pub open spec fn page<T>(items: Seq<T>, limit: Option<i32>, offset: Option<i32>) -> Seq<T> {
    items.subrange(
        page_start(items.len() as int, offset),
        page_end(items.len() as int, limit, offset),
    )
}

/// All rows of `dataset_id`, in ascending order of row index; none where
/// the dataset has no column.
pub open spec fn rows_of(store: Store, dataset_id: Seq<char>) -> Seq<RowView> {
    if columns_of(store, dataset_id).len() == 0 {
        Seq::empty()
    } else {
        row_indices(store, dataset_id).map_values(row_builder(store, dataset_id))
    }
}

/// The page of the rows of `dataset_id` that `limit` and `offset` select.
pub open spec fn rows_page(
    store: Store,
    dataset_id: Seq<char>,
    limit: Option<i32>,
    offset: Option<i32>,
) -> Seq<RowView> {
    page(rows_of(store, dataset_id), limit, offset)
}

/// The table view of `dataset_id`, if the dataset is stored.
pub open spec fn table_view_of(
    store: Store,
    dataset_id: Seq<char>,
    limit: Option<i32>,
    offset: Option<i32>,
) -> Option<TableContents> {
    match find_dataset(store, dataset_id) {
        Some(dataset) => Some(
            TableContents {
                dataset,
                columns: columns_of(store, dataset_id),
                rows: rows_page(store, dataset_id, limit, offset),
            },
        ),
        None => None,
    }
}

// Changes.

/// The store with `dataset` added.
pub open spec fn with_dataset(store: Store, dataset: DatasetView) -> Store {
    Store { datasets: store.datasets.push(dataset), ..store }
}

/// The store with `column` added.
pub open spec fn with_column(store: Store, column: ColumnView) -> Store {
    Store { columns: store.columns.push(column), ..store }
}

/// The store with `cell` in place of the cell of the same key, or added
/// where no cell has that key.
pub open spec fn with_cell(store: Store, cell: CellView) -> Store {
    let i = first_index(store.cells, cell_at_key(key_of(cell)));
    if i < store.cells.len() {
        Store { cells: store.cells.update(i, cell), ..store }
    } else {
        Store { cells: store.cells.push(cell), ..store }
    }
}

/// The store without the dataset `id`, its columns, and every cell of the
/// dataset or of one of its columns.
pub open spec fn without_dataset(store: Store, id: Seq<char>) -> Store {
    Store {
        datasets: store.datasets.filter(dataset_is_not(id)),
        columns: store.columns.filter(column_not_in(id)),
        cells: store.cells.filter(cell_survives(store, id)),
    }
}

/// The store without the column `id` and its cells.
pub open spec fn without_column(store: Store, id: Seq<char>) -> Store {
    Store {
        datasets: store.datasets,
        columns: store.columns.filter(column_is_not(id)),
        cells: store.cells.filter(cell_not_of_column(id)),
    }
}

/// Why the store refuses `column`, if it does: its identifier is taken, or
/// its dataset is not stored.
pub open spec fn column_refusal(store: Store, column: ColumnView) -> Option<StorageError> {
    if find_column(store, column.id) is Some {
        Some(StorageError::DuplicateId)
    } else if find_dataset(store, column.dataset_id) is None {
        Some(StorageError::UnknownDataset)
    } else {
        None
    }
}

/// Why the store refuses `cell`, if it does: its dataset is not stored, its
/// column is not stored, its identifier is that of a cell under another key,
/// or it would be one cell more than the store holds.
pub open spec fn cell_refusal(store: Store, cell: CellView) -> Option<StorageError> {
    if find_dataset(store, cell.dataset_id) is None {
        Some(StorageError::UnknownDataset)
    } else if find_column(store, cell.column_id) is None {
        Some(StorageError::UnknownColumn)
    } else if id_taken_elsewhere(store, cell) {
        Some(StorageError::DuplicateId)
    } else if find_cell(store, key_of(cell)) is None && store.cells.len() >= cell_capacity() {
        Some(StorageError::Full)
    } else {
        None
    }
}

/// Whether another cell than the one stored under the key of `cell` has
/// the identifier of `cell`.
pub open spec fn id_taken_elsewhere(store: Store, cell: CellView) -> bool {
    match find_first(store.cells, cell_has_id(cell.id)) {
        Some(other) => key_of(other) != key_of(cell),
        None => false,
    }
}

/// The cell that an edit puts at a key: completed with `value` where there
/// is one, pending without a value where there is none.
pub open spec fn edited_cell(
    id: Seq<char>,
    dataset_id: Seq<char>,
    column_id: Seq<char>,
    row_index: i32,
    value: Option<Seq<char>>,
    at: Timestamp,
) -> CellView {
    CellView {
        id,
        dataset_id,
        column_id,
        row_index,
        value,
        status: if value is Some {
            CellStatus::Completed
        } else {
            CellStatus::Pending
        },
        error: None,
        created_at: at,
        updated_at: at,
    }
}

/// Whether the step from `before` to `after` that ended as `outcome` is
/// the attempt to put `cell` into the store: the cell is put exactly when
/// the store does not refuse it; otherwise the outcome is the refusal and
/// nothing has changed.
pub open spec fn updated_as(
    before: Store,
    after: Store,
    cell: CellView,
    outcome: Result<(), StorageError>,
) -> bool {
    &&& outcome is Ok <==> cell_refusal(before, cell) is None
    &&& outcome is Ok ==> after == with_cell(before, cell)
    &&& outcome matches Err(error) ==> Some(error) == cell_refusal(before, cell) && after == before
}

// Restoring a store from its tables.

/// `store` with `datasets` stored one after the other, or why the store
/// refused the first of them that it refused.
pub open spec fn with_datasets(store: Store, datasets: Seq<DatasetView>) -> Result<
    Store,
    StorageError,
>
    decreases datasets.len(),
{
    if datasets.len() == 0 {
        Ok(store)
    } else {
        match with_datasets(store, datasets.drop_last()) {
            Ok(so_far) => if find_dataset(so_far, datasets.last().id) is Some {
                Err(StorageError::DuplicateId)
            } else {
                Ok(with_dataset(so_far, datasets.last()))
            },
            Err(error) => Err(error),
        }
    }
}

/// `store` with `columns` stored one after the other, or why the store
/// refused the first of them that it refused.
pub open spec fn with_columns(store: Store, columns: Seq<ColumnView>) -> Result<Store, StorageError>
    decreases columns.len(),
{
    if columns.len() == 0 {
        Ok(store)
    } else {
        match with_columns(store, columns.drop_last()) {
            Ok(so_far) => match column_refusal(so_far, columns.last()) {
                Some(error) => Err(error),
                None => Ok(with_column(so_far, columns.last())),
            },
            Err(error) => Err(error),
        }
    }
}

/// `store` with `cells` put into it one after the other, or why the store
/// refused the first of them that it refused.
pub open spec fn with_cells(store: Store, cells: Seq<CellView>) -> Result<Store, StorageError>
    decreases cells.len(),
{
    if cells.len() == 0 {
        Ok(store)
    } else {
        match with_cells(store, cells.drop_last()) {
            Ok(so_far) => match cell_refusal(so_far, cells.last()) {
                Some(error) => Err(error),
                None => Ok(with_cell(so_far, cells.last())),
            },
            Err(error) => Err(error),
        }
    }
}

/// The store that holds the given tables, or why they make no store.
pub open spec fn restored(
    datasets: Seq<DatasetView>,
    columns: Seq<ColumnView>,
    cells: Seq<CellView>,
) -> Result<Store, StorageError> {
    let empty = Store { datasets: Seq::empty(), columns: Seq::empty(), cells: Seq::empty() };
    match with_datasets(empty, datasets) {
        Ok(first) => match with_columns(first, columns) {
            Ok(second) => with_cells(second, cells),
            Err(error) => Err(error),
        },
        Err(error) => Err(error),
    }
}

// Import.

/// The texts of the fields of `table`.
pub open spec fn texts(table: Seq<Seq<DrawnFieldView>>) -> Seq<Seq<Seq<char>>> {
    Seq::new(table.len(), |r: int| Seq::new(table[r].len(), |c: int| table[r][c].text))
}

/// Whether a table to import has more rows, or more header fields, than a
/// row index or a position can number.
pub open spec fn oversized(data: Seq<Seq<Seq<char>>>) -> bool {
    data.len() > 0 && (data.len() - 1 > i32::MAX || data[0].len() > i32::MAX)
}

/// Whether `column` is the input column that an import makes of the header
/// `name` at `position`. Its identifier and its time of creation are drawn
/// when it is made.
pub open spec fn header_column(
    column: ColumnView,
    dataset_id: Seq<char>,
    name: Seq<char>,
    position: int,
) -> bool {
    &&& column.dataset_id == dataset_id
    &&& column.name == name
    &&& column.column_type == ColumnType::Input
    &&& column.prompt is None
    &&& column.provider_id is None
    &&& column.position == position
}

/// Whether the field `c` of the data row `r` has a column to go to.
pub open spec fn in_table(listed: Seq<ColumnView>, rows: Seq<Seq<Seq<char>>>, r: int, c: int) -> bool {
    0 <= r < rows.len() && 0 <= c < rows[r].len() && c < listed.len()
}

/// The key under which the field `c` of the data row `r` is stored.
pub open spec fn import_key(listed: Seq<ColumnView>, dataset_id: Seq<char>, r: int, c: int) -> CellKey {
    CellKey { dataset_id, column_id: listed[c].id, row_index: r as i32 }
}

/// Whether `(r, c)` comes before `(row, field)` in reading order.
pub open spec fn read_before(r: int, c: int, row: int, field: int) -> bool {
    r < row || (r == row && c < field)
}

/// Whether `key` is the key of a field that comes before `(row, field)`.
pub open spec fn written_key(
    listed: Seq<ColumnView>,
    dataset_id: Seq<char>,
    rows: Seq<Seq<Seq<char>>>,
    row: int,
    field: int,
    key: CellKey,
) -> bool {
    exists|r: int, c: int|
        in_table(listed, rows, r, c) && read_before(r, c, row, field) && #[trigger] import_key(
            listed,
            dataset_id,
            r,
            c,
        ) == key
}

/// Whether `cell` is a completed cell with the value `value`.
pub open spec fn holds_value(cell: CellView, value: Seq<char>) -> bool {
    cell.value == Some(value) && cell.status == CellStatus::Completed && cell.error is None
}

/// Whether `after` is `before` with the table `data` imported into
/// `dataset_id`: one input column for each header, behind the columns that
/// were there, at the positions 0, 1, 2 and so on; and for each field of
/// each further row that has a column to go to, counting the columns of the
/// dataset in order of position, a completed cell with the field as its
/// value, at the row's index among the further rows. Every other cell is
/// what it was.
pub open spec fn imported(before: Store, after: Store, dataset_id: Seq<char>, data: Seq<Seq<Seq<char>>>) -> bool {
    let headers = data[0];
    let rows = data.skip(1);
    let listed = columns_of(after, dataset_id);
    &&& data.len() > 0
    &&& after.datasets == before.datasets
    &&& after.columns.len() == before.columns.len() + headers.len()
    &&& after.columns.take(before.columns.len() as int) == before.columns
    &&& forall|i: int|
        0 <= i < headers.len() ==> header_column(
            #[trigger] after.columns[before.columns.len() + i],
            dataset_id,
            headers[i],
            i,
        )
    &&& forall|r: int, c: int|
        in_table(listed, rows, r, c) ==> (match find_cell(
            after,
            #[trigger] import_key(listed, dataset_id, r, c),
        ) {
            Some(cell) => holds_value(cell, rows[r][c]),
            None => false,
        })
    &&& forall|key: CellKey|
        !written_key(listed, dataset_id, rows, rows.len() as int, 0, key) ==> #[trigger] find_cell(
            after,
            key,
        ) == find_cell(before, key)
}

// Import of drawn fields, record by record.

/// How far an import has come: the store as it stands, and the refusal at
/// which the import stopped, if it did.
pub struct Import {
    pub store: Store,
    pub refusal: Option<StorageError>,
}

/// The input column that the header `field` becomes at `position`.
pub open spec fn header_column_of(dataset_id: Seq<char>, field: DrawnFieldView, position: int) -> ColumnView {
    ColumnView {
        id: field.id,
        dataset_id,
        name: field.text,
        column_type: ColumnType::Input,
        prompt: None,
        provider_id: None,
        position: position as i32,
        created_at: field.at,
    }
}

/// The completed cell that `field` becomes in `column_id` at `row`.
pub open spec fn field_cell(
    dataset_id: Seq<char>,
    column_id: Seq<char>,
    row: int,
    field: DrawnFieldView,
) -> CellView {
    CellView {
        id: field.id,
        dataset_id,
        column_id,
        row_index: row as i32,
        value: Some(field.text),
        status: CellStatus::Completed,
        error: None,
        created_at: field.at,
        updated_at: field.at,
    }
}

/// The import after the first `n` headers: each becomes a column, in
/// order, until the store refuses one.
pub open spec fn columns_imported(
    store: Store,
    dataset_id: Seq<char>,
    header: Seq<DrawnFieldView>,
    n: int,
) -> Import
    decreases n,
{
    if n <= 0 {
        Import { store, refusal: None }
    } else {
        let so_far = columns_imported(store, dataset_id, header, n - 1);
        if so_far.refusal is Some {
            so_far
        } else {
            let column = header_column_of(dataset_id, header[n - 1], n - 1);
            match column_refusal(so_far.store, column) {
                Some(refusal) => Import { store: so_far.store, refusal: Some(refusal) },
                None => Import { store: with_column(so_far.store, column), refusal: None },
            }
        }
    }
}

/// How many fields of `row` have a column to go to.
pub open spec fn width(listed: Seq<ColumnView>, row: Seq<DrawnFieldView>) -> int {
    if row.len() <= listed.len() {
        row.len() as int
    } else {
        listed.len() as int
    }
}

/// The import after every field before the field `c` of the row `r`, in
/// reading order: each field that has a column to go to becomes a cell,
/// until the store refuses one.
pub open spec fn cells_imported(
    store: Store,
    listed: Seq<ColumnView>,
    dataset_id: Seq<char>,
    rows: Seq<Seq<DrawnFieldView>>,
    r: int,
    c: int,
) -> Import
    decreases r, c,
{
    if r >= 0 && c > 0 {
        let so_far = cells_imported(store, listed, dataset_id, rows, r, c - 1);
        if so_far.refusal is Some {
            so_far
        } else {
            let cell = field_cell(dataset_id, listed[c - 1].id, r, rows[r][c - 1]);
            match cell_refusal(so_far.store, cell) {
                Some(refusal) => Import { store: so_far.store, refusal: Some(refusal) },
                None => Import { store: with_cell(so_far.store, cell), refusal: None },
            }
        }
    } else if r > 0 {
        cells_imported(store, listed, dataset_id, rows, r - 1, width(listed, rows[r - 1]))
    } else {
        Import { store, refusal: None }
    }
}

/// What the import of `table` into `dataset_id` makes of `store`: an empty
/// table and a table too large are refused; else the headers become
/// columns, one after the other, and then the fields of the further rows
/// become cells, in reading order, each in the column at its place among
/// the columns that the dataset has by then. The import stops at the first
/// record that the store refuses, and what was imported before it stays.
pub open spec fn import_result(store: Store, dataset_id: Seq<char>, table: Seq<Seq<DrawnFieldView>>) -> Import {
    if table.len() == 0 {
        Import { store, refusal: Some(StorageError::EmptyImport) }
    } else if oversized(texts(table)) {
        Import { store, refusal: Some(StorageError::OversizedImport) }
    } else {
        let columns = columns_imported(store, dataset_id, table[0], table[0].len() as int);
        if columns.refusal is Some {
            columns
        } else {
            cells_imported(
                columns.store,
                columns_of(columns.store, dataset_id),
                dataset_id,
                table.skip(1),
                table.len() - 1,
                0,
            )
        }
    }
}

/// The refusal that `outcome` carries.
pub open spec fn refusal_of(outcome: Result<(), StorageError>) -> Option<StorageError> {
    match outcome {
        Ok(_) => None,
        Err(refusal) => Some(refusal),
    }
}

} // verus!
