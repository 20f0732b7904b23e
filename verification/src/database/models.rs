//! The records of the store and the read-time projections built from them.

use crate::seqs::Ranked;
use crate::stamp::{fresh_id, now, Timestamp};
use crate::text::{clone_opt, str_eq};
use vstd::prelude::*;

verus! {

/// Whether a column holds entered values or generated ones.
#[derive(Clone, Copy, Debug, PartialEq, Eq, Structural, Hash)]
pub enum ColumnType {
    Input,
    Output,
}

/// What `ColumnType::parse` makes of a name.
pub open spec fn parse_column_type(name: Seq<char>) -> Option<ColumnType> {
    if name == "input"@ {
        Some(ColumnType::Input)
    } else if name == "output"@ {
        Some(ColumnType::Output)
    } else {
        None
    }
}

impl ColumnType {
    /// The stored name of the column type.
    pub fn as_str(&self) -> (name: &'static str)
        ensures
            name@ == (match *self {
                ColumnType::Input => "input"@,
                ColumnType::Output => "output"@,
            }),
    {
        match self {
            ColumnType::Input => "input",
            ColumnType::Output => "output",
        }
    }

    /// Reads a stored name back; `None` for any other text.
    pub fn parse(name: &str) -> (parsed: Option<ColumnType>)
        ensures
            parsed == parse_column_type(name@),
    {
        if str_eq(name, "input") {
            Some(ColumnType::Input)
        } else if str_eq(name, "output") {
            Some(ColumnType::Output)
        } else {
            None
        }
    }
}

/// Where a cell stands: not yet produced, produced, or failed.
#[derive(Clone, Copy, Debug, PartialEq, Eq, Structural, Hash)]
pub enum CellStatus {
    Pending,
    Completed,
    Error,
}

/// What `CellStatus::parse` makes of a name.
pub open spec fn parse_cell_status(name: Seq<char>) -> Option<CellStatus> {
    if name == "pending"@ {
        Some(CellStatus::Pending)
    } else if name == "completed"@ {
        Some(CellStatus::Completed)
    } else if name == "error"@ {
        Some(CellStatus::Error)
    } else {
        None
    }
}

impl CellStatus {
    /// The stored name of the status.
    pub fn as_str(&self) -> (name: &'static str)
        ensures
            name@ == (match *self {
                CellStatus::Pending => "pending"@,
                CellStatus::Completed => "completed"@,
                CellStatus::Error => "error"@,
            }),
    {
        match self {
            CellStatus::Pending => "pending",
            CellStatus::Completed => "completed",
            CellStatus::Error => "error",
        }
    }

    /// Reads a stored name back; `None` for any other text.
    pub fn parse(name: &str) -> (parsed: Option<CellStatus>)
        ensures
            parsed == parse_cell_status(name@),
    {
        if str_eq(name, "pending") {
            Some(CellStatus::Pending)
        } else if str_eq(name, "completed") {
            Some(CellStatus::Completed)
        } else if str_eq(name, "error") {
            Some(CellStatus::Error)
        } else {
            None
        }
    }
}

/// A named collection of columns and cells.
#[derive(Debug, PartialEq, Eq)]
pub struct Dataset {
    pub id: String,
    pub name: String,
    pub description: Option<String>,
    pub created_at: Timestamp,
    pub updated_at: Timestamp,
}

/// A dataset as contracts see it.
pub struct DatasetView {
    pub id: Seq<char>,
    pub name: Seq<char>,
    pub description: Option<Seq<char>>,
    pub created_at: Timestamp,
    pub updated_at: Timestamp,
}

impl View for Dataset {
    type V = DatasetView;

    open spec fn view(&self) -> DatasetView {
        DatasetView {
            id: self.id@,
            name: self.name@,
            description: self.description.deep_view(),
            created_at: self.created_at,
            updated_at: self.updated_at,
        }
    }
}

impl DeepView for Dataset {
    type V = DatasetView;

    open spec fn deep_view(&self) -> DatasetView {
        self@
    }
}

impl Clone for Dataset {
    fn clone(&self) -> (copy: Self)
        ensures
            copy == *self,
    {
        Dataset {
            id: self.id.clone(),
            name: self.name.clone(),
            description: clone_opt(&self.description),
            created_at: self.created_at,
            updated_at: self.updated_at,
        }
    }
}

/// Datasets are listed latest update first.
impl Ranked for Dataset {
    open spec fn rank(&self) -> int {
        -(self.updated_at.micros as int)
    }

    fn outranks(&self, other: &Self) -> (above: bool) {
        self.updated_at.micros < other.updated_at.micros
    }
}

impl Dataset {
    /// A dataset under a freshly drawn identifier, created and updated now.
    pub fn new(name: String, description: Option<String>) -> (dataset: Dataset)
        ensures
            dataset.name == name,
            dataset.description == description,
            dataset.created_at == dataset.updated_at,
    {
        Dataset::with_id(fresh_id(), name, description, now())
    }

    /// A dataset under the given identifier, created and updated at `at`.
    pub fn with_id(id: String, name: String, description: Option<String>, at: Timestamp) -> (dataset:
        Dataset)
        ensures
            dataset == (Dataset { id, name, description, created_at: at, updated_at: at }),
    {
        Dataset { id, name, description, created_at: at, updated_at: at }
    }
}

/// A typed slot of a dataset, ordered among its siblings by `position`.
#[derive(Debug, PartialEq, Eq)]
pub struct Column {
    pub id: String,
    pub dataset_id: String,
    pub name: String,
    pub column_type: ColumnType,
    pub prompt: Option<String>,
    pub provider_id: Option<String>,
    pub position: i32,
    pub created_at: Timestamp,
}

/// A column as contracts see it.
pub struct ColumnView {
    pub id: Seq<char>,
    pub dataset_id: Seq<char>,
    pub name: Seq<char>,
    pub column_type: ColumnType,
    pub prompt: Option<Seq<char>>,
    pub provider_id: Option<Seq<char>>,
    pub position: i32,
    pub created_at: Timestamp,
}

impl View for Column {
    type V = ColumnView;

    open spec fn view(&self) -> ColumnView {
        ColumnView {
            id: self.id@,
            dataset_id: self.dataset_id@,
            name: self.name@,
            column_type: self.column_type,
            prompt: self.prompt.deep_view(),
            provider_id: self.provider_id.deep_view(),
            position: self.position,
            created_at: self.created_at,
        }
    }
}

impl DeepView for Column {
    type V = ColumnView;

    open spec fn deep_view(&self) -> ColumnView {
        self@
    }
}

impl Clone for Column {
    fn clone(&self) -> (copy: Self)
        ensures
            copy == *self,
    {
        Column {
            id: self.id.clone(),
            dataset_id: self.dataset_id.clone(),
            name: self.name.clone(),
            column_type: self.column_type,
            prompt: clone_opt(&self.prompt),
            provider_id: clone_opt(&self.provider_id),
            position: self.position,
            created_at: self.created_at,
        }
    }
}

/// Columns are listed in ascending order of position.
impl Ranked for Column {
    open spec fn rank(&self) -> int {
        self.position as int
    }

    fn outranks(&self, other: &Self) -> (above: bool) {
        self.position > other.position
    }
}

impl Column {
    /// A column under a freshly drawn identifier, created now, with no
    /// prompt and no provider.
    pub fn new(dataset_id: String, name: String, column_type: ColumnType, position: i32) -> (column:
        Column)
        ensures
            column.dataset_id == dataset_id,
            column.name == name,
            column.column_type == column_type,
            column.position == position,
            column.prompt is None,
            column.provider_id is None,
    {
        Column::with_id(fresh_id(), dataset_id, name, column_type, position, now())
    }

    /// A column under the given identifier, created at `at`, with no prompt
    /// and no provider.
    pub fn with_id(
        id: String,
        dataset_id: String,
        name: String,
        column_type: ColumnType,
        position: i32,
        at: Timestamp,
    ) -> (column: Column)
        ensures
            column == (Column {
                id,
                dataset_id,
                name,
                column_type,
                prompt: None,
                provider_id: None,
                position,
                created_at: at,
            }),
    {
        Column {
            id,
            dataset_id,
            name,
            column_type,
            prompt: None,
            provider_id: None,
            position,
            created_at: at,
        }
    }

    /// The same column with `prompt` as its template.
    pub fn with_prompt(self, prompt: String) -> (column: Column)
        ensures
            column == (Column { prompt: Some(prompt), ..self }),
    {
        Column { prompt: Some(prompt), ..self }
    }

    /// The same column bound to the provider configuration `provider_id`.
    pub fn with_provider(self, provider_id: String) -> (column: Column)
        ensures
            column == (Column { provider_id: Some(provider_id), ..self }),
    {
        Column { provider_id: Some(provider_id), ..self }
    }
}

/// The value, or the error, at one row of one column.
#[derive(Debug, PartialEq, Eq)]
pub struct Cell {
    pub id: String,
    pub dataset_id: String,
    pub column_id: String,
    pub row_index: i32,
    pub value: Option<String>,
    pub status: CellStatus,
    pub error: Option<String>,
    pub created_at: Timestamp,
    pub updated_at: Timestamp,
}

/// A cell as contracts see it.
pub struct CellView {
    pub id: Seq<char>,
    pub dataset_id: Seq<char>,
    pub column_id: Seq<char>,
    pub row_index: i32,
    pub value: Option<Seq<char>>,
    pub status: CellStatus,
    pub error: Option<Seq<char>>,
    pub created_at: Timestamp,
    pub updated_at: Timestamp,
}

impl View for Cell {
    type V = CellView;

    open spec fn view(&self) -> CellView {
        CellView {
            id: self.id@,
            dataset_id: self.dataset_id@,
            column_id: self.column_id@,
            row_index: self.row_index,
            value: self.value.deep_view(),
            status: self.status,
            error: self.error.deep_view(),
            created_at: self.created_at,
            updated_at: self.updated_at,
        }
    }
}

impl DeepView for Cell {
    type V = CellView;

    open spec fn deep_view(&self) -> CellView {
        self@
    }
}

impl Clone for Cell {
    fn clone(&self) -> (copy: Self)
        ensures
            copy == *self,
    {
        Cell {
            id: self.id.clone(),
            dataset_id: self.dataset_id.clone(),
            column_id: self.column_id.clone(),
            row_index: self.row_index,
            value: clone_opt(&self.value),
            status: self.status,
            error: clone_opt(&self.error),
            created_at: self.created_at,
            updated_at: self.updated_at,
        }
    }
}

/// Cells are listed in ascending order of row index.
impl Ranked for Cell {
    open spec fn rank(&self) -> int {
        self.row_index as int
    }

    fn outranks(&self, other: &Self) -> (above: bool) {
        self.row_index > other.row_index
    }
}

impl Cell {
    /// A pending cell under a freshly drawn identifier, created and
    /// updated now, with neither value nor error.
    pub fn new(dataset_id: String, column_id: String, row_index: i32) -> (cell: Cell)
        ensures
            cell.dataset_id == dataset_id,
            cell.column_id == column_id,
            cell.row_index == row_index,
            cell.value is None,
            cell.error is None,
            cell.status == CellStatus::Pending,
            cell.created_at == cell.updated_at,
    {
        Cell::with_id(fresh_id(), dataset_id, column_id, row_index, now())
    }

    /// A pending cell under the given identifier, created and updated at
    /// `at`, with neither value nor error.
    pub fn with_id(id: String, dataset_id: String, column_id: String, row_index: i32, at: Timestamp) -> (cell:
        Cell)
        ensures
            cell == (Cell {
                id,
                dataset_id,
                column_id,
                row_index,
                value: None,
                status: CellStatus::Pending,
                error: None,
                created_at: at,
                updated_at: at,
            }),
    {
        Cell {
            id,
            dataset_id,
            column_id,
            row_index,
            value: None,
            status: CellStatus::Pending,
            error: None,
            created_at: at,
            updated_at: at,
        }
    }

    /// The same cell, completed with `value`.
    pub fn with_value(self, value: String) -> (cell: Cell)
        ensures
            cell == (Cell { value: Some(value), status: CellStatus::Completed, ..self }),
    {
        Cell { value: Some(value), status: CellStatus::Completed, ..self }
    }

    /// The same cell, failed with the message `error`.
    pub fn with_error(self, error: String) -> (cell: Cell)
        ensures
            cell == (Cell { error: Some(error), status: CellStatus::Error, ..self }),
    {
        Cell { error: Some(error), status: CellStatus::Error, ..self }
    }
}

/// The cells of one row index, by column identifier: a read-time projection,
/// never stored.
#[derive(Debug)]
pub struct Row {
    pub index: i32,
    /// One entry per column identifier in a row that `add_cell` built; where
    /// an identifier occurs twice, the later entry counts.
    pub cells: Vec<(String, Cell)>,
}

/// A row as contracts see it.
pub struct RowView {
    pub index: i32,
    pub cells: Map<Seq<char>, CellView>,
}

/// The map that a list of `(column identifier, cell)` entries stands for:
/// a later entry replaces an earlier one under the same identifier.
pub open spec fn entries_map(entries: Seq<(String, Cell)>) -> Map<Seq<char>, CellView>
    decreases entries.len(),
{
    if entries.len() == 0 {
        Map::empty()
    } else {
        entries_map(entries.drop_last()).insert(entries.last().0@, entries.last().1@)
    }
}

/// The value that `row` shows for `column_id`: that of its cell for the
/// column, if it has one and the cell has a value.
pub open spec fn row_value(row: RowView, column_id: Seq<char>) -> Option<Seq<char>> {
    if row.cells.contains_key(column_id) {
        row.cells[column_id].value
    } else {
        None
    }
}

/// The text that `row` shows for `column_id`: its value there, or nothing.
pub open spec fn row_text(row: RowView, column_id: Seq<char>) -> Seq<char> {
    match row_value(row, column_id) {
        Some(value) => value,
        None => Seq::empty(),
    }
}

proof fn lemma_entries_map_remove(entries: Seq<(String, Cell)>, i: int, key: Seq<char>)
    requires
        0 <= i < entries.len(),
        entries[i].0@ == key,
    ensures
        entries_map(entries.remove(i)).remove(key) == entries_map(entries).remove(key),
    decreases entries.len(),
{
    let front = entries.drop_last();
    let last = entries.last();
    if i == entries.len() - 1 {
        assert(entries.remove(i) =~= front);
        assert(entries_map(front).remove(key) =~= entries_map(entries).remove(key));
    } else {
        lemma_entries_map_remove(front, i, key);
        assert(entries.remove(i).drop_last() =~= front.remove(i));
        assert(entries.remove(i).last() == last);
        assert(entries_map(entries.remove(i)).remove(key) =~= entries_map(front.remove(i)).remove(
            key,
        ).insert(last.0@, last.1@).remove(key));
        assert(entries_map(entries).remove(key) =~= entries_map(front).remove(key).insert(
            last.0@,
            last.1@,
        ).remove(key));
    }
}

proof fn lemma_entries_map_tail(entries: Seq<(String, Cell)>, i: int, key: Seq<char>)
    requires
        0 <= i <= entries.len(),
        forall|j: int| i <= j < entries.len() ==> (#[trigger] entries[j]).0@ != key,
    ensures
        entries_map(entries).contains_key(key) == entries_map(entries.take(i)).contains_key(key),
        entries_map(entries).contains_key(key) ==> entries_map(entries)[key] == entries_map(
            entries.take(i),
        )[key],
    decreases entries.len() - i,
{
    if i == entries.len() {
        assert(entries.take(i) =~= entries);
    } else {
        let front = entries.drop_last();
        assert(entries.last().0@ != key);
        lemma_entries_map_tail(front, i, key);
        assert(front.take(i) =~= entries.take(i));
    }
}

impl View for Row {
    type V = RowView;

    open spec fn view(&self) -> RowView {
        RowView { index: self.index, cells: entries_map(self.cells@) }
    }
}

impl DeepView for Row {
    type V = RowView;

    open spec fn deep_view(&self) -> RowView {
        self@
    }
}

impl Clone for Row {
    fn clone(&self) -> (copy: Self)
        ensures
            copy@ == self@,
    {
        let mut entries: Vec<(String, Cell)> = Vec::new();
        let mut i: usize = 0;
        while i < self.cells.len()
            invariant
                i <= self.cells.len(),
                entries@ == self.cells@.take(i as int),
            decreases self.cells.len() - i,
        {
            entries.push((self.cells[i].0.clone(), self.cells[i].1.clone()));
            i += 1;
            assert(entries@ =~= self.cells@.take(i as int));
        }
        assert(self.cells@.take(self.cells.len() as int) =~= self.cells@);
        Row { index: self.index, cells: entries }
    }
}

impl Row {
    /// The row `index` with no cells.
    pub fn new(index: i32) -> (row: Row)
        ensures
            row@ == (RowView { index, cells: Map::empty() }),
    {
        Row { index, cells: Vec::new() }
    }

    /// Puts `cell` under `column_id`, in place of any cell that stood there.
    pub fn add_cell(&mut self, column_id: String, cell: Cell)
        ensures
            final(self)@ == (RowView {
                index: old(self)@.index,
                cells: old(self)@.cells.insert(column_id@, cell@),
            }),
    {
        let mut i: usize = 0;
        while i < self.cells.len()
            invariant
                i <= self.cells.len(),
                self.index == old(self).index,
                entries_map(self.cells@).remove(column_id@) == entries_map(
                    old(self).cells@,
                ).remove(column_id@),
            decreases self.cells.len() - i,
        {
            if str_eq(self.cells[i].0.as_str(), column_id.as_str()) {
                proof {
                    lemma_entries_map_remove(self.cells@, i as int, column_id@);
                }
                self.cells.remove(i);
            } else {
                i += 1;
            }
        }
        let ghost before = self.cells@;
        self.cells.push((column_id, cell));
        proof {
            assert(self.cells@.drop_last() =~= before);
            assert(entries_map(self.cells@) =~= entries_map(before).remove(column_id@).insert(
                column_id@,
                cell@,
            ));
            assert(final(self)@.cells =~= old(self)@.cells.insert(column_id@, cell@));
        }
    }

    /// The cell that the row holds for `column_id`.
    pub fn get_cell(&self, column_id: &str) -> (found: Option<&Cell>)
        ensures
            found is Some == self@.cells.contains_key(column_id@),
            found matches Some(cell) ==> cell@ == self@.cells[column_id@],
    {
        let mut i: usize = self.cells.len();
        while i > 0
            invariant
                i <= self.cells.len(),
                forall|j: int| i <= j < self.cells.len() ==> (#[trigger] self.cells@[j]).0@
                    != column_id@,
            decreases i,
        {
            i -= 1;
            if str_eq(self.cells[i].0.as_str(), column_id) {
                proof {
                    lemma_entries_map_tail(self.cells@, i + 1, column_id@);
                    assert(self.cells@.take(i + 1).drop_last() =~= self.cells@.take(i as int));
                }
                return Some(&self.cells[i].1);
            }
        }
        proof {
            lemma_entries_map_tail(self.cells@, 0, column_id@);
            assert(self.cells@.take(0).len() == 0);
        }
        None
    }

    /// The value that the row shows for `column_id`; `None` where it has no
    /// cell for the column or the cell has no value.
    pub fn get_cell_value(&self, column_id: &str) -> (value: Option<&String>)
        ensures
            value.deep_view() == row_value(self@, column_id@),
    {
        match self.get_cell(column_id) {
            Some(cell) => cell.value.as_ref(),
            None => None,
        }
    }
}

/// A dataset joined with its columns, in order of position, and its rows,
/// in order of row index.
#[derive(Debug)]
pub struct TableView {
    pub dataset: Dataset,
    pub columns: Vec<Column>,
    pub rows: Vec<Row>,
}

/// A table view as contracts see it.
pub struct TableContents {
    pub dataset: DatasetView,
    pub columns: Seq<ColumnView>,
    pub rows: Seq<RowView>,
}

impl View for TableView {
    type V = TableContents;

    open spec fn view(&self) -> TableContents {
        TableContents {
            dataset: self.dataset@,
            columns: self.columns.deep_view(),
            rows: self.rows.deep_view(),
        }
    }
}

impl TableView {
    /// The join of `dataset`, `columns` and `rows`, each as given.
    pub fn new(dataset: Dataset, columns: Vec<Column>, rows: Vec<Row>) -> (table: TableView)
        ensures
            table == (TableView { dataset, columns, rows }),
    {
        TableView { dataset, columns, rows }
    }
}

/// A field of a table to import, with the identifier and the time that
/// were drawn for the record it becomes.
#[derive(Debug, PartialEq, Eq)]
pub struct DrawnField {
    pub id: String,
    pub at: Timestamp,
    pub text: String,
}

/// A drawn field as contracts see it.
pub struct DrawnFieldView {
    pub id: Seq<char>,
    pub at: Timestamp,
    pub text: Seq<char>,
}

impl View for DrawnField {
    type V = DrawnFieldView;

    open spec fn view(&self) -> DrawnFieldView {
        DrawnFieldView { id: self.id@, at: self.at, text: self.text@ }
    }
}

impl DeepView for DrawnField {
    type V = DrawnFieldView;

    open spec fn deep_view(&self) -> DrawnFieldView {
        self@
    }
}

} // verus!
