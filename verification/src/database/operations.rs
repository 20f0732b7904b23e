//! The operations of the storage engine.

use crate::database::models::{Cell, Column, Dataset};
use crate::database::lemmas::{
    lemma_cell_index_unique, lemma_with_cell, lemma_with_column, lemma_with_dataset,
    lemma_without_column, lemma_without_dataset,
};
use crate::database::model::{
    by_position, by_row_index, cell_at_key, cell_has_id, cell_not_of_column, cell_of_column,
    cell_refusal, cell_survives, cells_of_column, column_in, column_is, column_is_not,
    column_not_in, column_refusal, columns_of, dataset_is, dataset_is_not, datasets_listed,
    edited_cell, find_cell, find_column, find_dataset, key_of, newest_first, restored, updated_as,
    with_cell, with_cells, with_column, with_columns, with_dataset, with_datasets, without_column,
    without_dataset, CellKey, Store,
};
use crate::database::{Database, StorageError};
use crate::seqs::{
    first_index, lemma_deep_view_is_views, lemma_first_index, lemma_first_index_is,
    lemma_sorted_views, sort_ranked, views,
};
use crate::stamp::{fresh_id, now, Timestamp};
use crate::text::str_eq;
use vstd::prelude::*;

verus! {

impl Database {
    /// An empty store.
    pub fn new() -> (db: Database)
        ensures
            db.wf(),
            db@ == (Store { datasets: Seq::empty(), columns: Seq::empty(), cells: Seq::empty() }),
    {
        let db = Database { datasets: Vec::new(), columns: Vec::new(), cells: Vec::new() };
        proof {
            assert(db@.datasets =~= Seq::empty());
            assert(db@.columns =~= Seq::empty());
            assert(db@.cells =~= Seq::empty());
        }
        db
    }

    /// Where the dataset `id` stands in its table; the length of the table
    /// if it is not stored.
    fn dataset_index(&self, id: &str) -> (i: usize)
        ensures
            i == first_index(self@.datasets, dataset_is(id@)),
            i <= self.datasets.len(),
    {
        let mut i: usize = 0;
        while i < self.datasets.len()
            invariant
                i <= self.datasets.len(),
                forall|j: int| 0 <= j < i ==> !dataset_is(id@)(#[trigger] self@.datasets[j]),
            decreases self.datasets.len() - i,
        {
            if str_eq(self.datasets[i].id.as_str(), id) {
                proof {
                    lemma_first_index_is(self@.datasets, dataset_is(id@), i as int);
                }
                return i;
            }
            i += 1;
        }
        proof {
            lemma_first_index_is(self@.datasets, dataset_is(id@), i as int);
        }
        i
    }

    /// The dataset stored under `dataset_id`.
    pub fn get_dataset(&self, dataset_id: &str) -> (found: Option<Dataset>)
        ensures
            found.deep_view() == find_dataset(self@, dataset_id@),
    {
        let i = self.dataset_index(dataset_id);
        if i < self.datasets.len() {
            Some(self.datasets[i].clone())
        } else {
            None
        }
    }

    /// Stores `dataset`, unless its identifier is taken.
    pub fn insert_dataset(&mut self, dataset: Dataset) -> (outcome: Result<(), StorageError>)
        requires
            old(self).wf(),
        ensures
            final(self).wf(),
            outcome is Ok <==> find_dataset(old(self)@, dataset@.id) is None,
            outcome is Ok ==> final(self)@ == with_dataset(old(self)@, dataset@) && find_dataset(
                final(self)@,
                dataset@.id,
            ) == Some(dataset@),
            outcome is Err ==> outcome == Err::<(), StorageError>(StorageError::DuplicateId)
                && final(self)@ == old(self)@,
    {
        let i = self.dataset_index(dataset.id.as_str());
        proof {
            lemma_first_index(self@.datasets, dataset_is(dataset@.id));
        }
        if i < self.datasets.len() {
            return Err(StorageError::DuplicateId);
        }
        proof {
            lemma_with_dataset(self@, dataset@);
        }
        self.datasets.push(dataset);
        assert(self@.datasets =~= old(self)@.datasets.push(dataset@));
        Ok(())
    }

    /// Creates a dataset under a freshly drawn identifier, stamped now, and
    /// stores it. The store refuses it exactly if the identifier drawn is
    /// already that of a dataset; a store without datasets refuses none.
    pub fn create_dataset(&mut self, name: String, description: Option<String>) -> (outcome: Result<
        Dataset,
        StorageError,
    >)
        requires
            old(self).wf(),
        ensures
            final(self).wf(),
            outcome matches Ok(dataset) ==> {
                &&& dataset.name == name
                &&& dataset.description == description
                &&& dataset.created_at == dataset.updated_at
                &&& find_dataset(old(self)@, dataset@.id) is None
                &&& final(self)@ == with_dataset(old(self)@, dataset@)
                &&& find_dataset(final(self)@, dataset@.id) == Some(dataset@)
            },
            outcome matches Err(error) ==> error == StorageError::DuplicateId
                && final(self)@ == old(self)@,
            old(self)@.datasets.len() == 0 ==> outcome is Ok,
            exists|id: Seq<char>|
                {
                    &&& outcome is Ok <==> #[trigger] find_dataset(old(self)@, id) is None
                    &&& outcome matches Ok(made) ==> made@.id == id
                },
    {
        let dataset = Dataset::new(name, description);
        let ghost drawn = dataset@.id;
        proof {
            lemma_first_index(old(self)@.datasets, dataset_is(drawn));
        }
        match self.insert_dataset(dataset.clone()) {
            Ok(()) => {
                proof {
                    lemma_with_dataset(old(self)@, dataset@);
                }
                Ok(dataset)
            },
            Err(error) => {
                assert(find_dataset(old(self)@, drawn) is Some);
                Err(error)
            },
        }
    }

    /// All datasets, the latest update first; datasets updated at the same
    /// time stand in the order in which they were stored.
    pub fn list_datasets(&self) -> (listed: Vec<Dataset>)
        ensures
            listed.deep_view() == datasets_listed(self@),
    {
        let mut copies: Vec<Dataset> = Vec::new();
        let mut i: usize = 0;
        while i < self.datasets.len()
            invariant
                i <= self.datasets.len(),
                copies@ == self.datasets@.take(i as int),
            decreases self.datasets.len() - i,
        {
            copies.push(self.datasets[i].clone());
            i += 1;
            assert(copies@ =~= self.datasets@.take(i as int));
        }
        assert(copies@ =~= self.datasets@);
        let listed = sort_ranked(copies);
        proof {
            lemma_sorted_views::<Dataset>(self.datasets@, newest_first());
            lemma_deep_view_is_views(listed);
            lemma_deep_view_is_views(self.datasets);
        }
        listed
    }

    /// Where the column `id` stands in its table; the length of the table
    /// if it is not stored.
    fn column_index(&self, id: &str) -> (i: usize)
        ensures
            i == first_index(self@.columns, column_is(id@)),
            i <= self.columns.len(),
    {
        let mut i: usize = 0;
        while i < self.columns.len()
            invariant
                i <= self.columns.len(),
                forall|j: int| 0 <= j < i ==> !column_is(id@)(#[trigger] self@.columns[j]),
            decreases self.columns.len() - i,
        {
            if str_eq(self.columns[i].id.as_str(), id) {
                proof {
                    lemma_first_index_is(self@.columns, column_is(id@), i as int);
                }
                return i;
            }
            i += 1;
        }
        proof {
            lemma_first_index_is(self@.columns, column_is(id@), i as int);
        }
        i
    }

    /// Stores `column` and hands it back, unless its identifier is taken or
    /// its dataset is not stored. Positions are neither checked nor changed.
    pub fn add_column(&mut self, column: Column) -> (outcome: Result<Column, StorageError>)
        requires
            old(self).wf(),
        ensures
            final(self).wf(),
            outcome is Ok <==> column_refusal(old(self)@, column@) is None,
            outcome matches Ok(stored) ==> stored == column && final(self)@ == with_column(
                old(self)@,
                column@,
            ) && find_column(final(self)@, column@.id) == Some(column@),
            outcome matches Err(error) ==> Some(error) == column_refusal(old(self)@, column@)
                && final(self)@ == old(self)@,
    {
        let c = self.column_index(column.id.as_str());
        let d = self.dataset_index(column.dataset_id.as_str());
        proof {
            lemma_first_index(self@.columns, column_is(column@.id));
            lemma_first_index(self@.datasets, dataset_is(column@.dataset_id));
        }
        if c < self.columns.len() {
            return Err(StorageError::DuplicateId);
        }
        if d >= self.datasets.len() {
            return Err(StorageError::UnknownDataset);
        }
        proof {
            lemma_with_column(self@, column@);
        }
        self.columns.push(column.clone());
        assert(self@.columns =~= old(self)@.columns.push(column@));
        Ok(column)
    }

    /// The columns of `dataset_id`, in ascending order of position; columns
    /// at the same position stand in the order in which they were stored.
    pub fn list_columns(&self, dataset_id: &str) -> (listed: Vec<Column>)
        ensures
            listed.deep_view() == columns_of(self@, dataset_id@),
    {
        let mut copies: Vec<Column> = Vec::new();
        let mut i: usize = 0;
        while i < self.columns.len()
            invariant
                i <= self.columns.len(),
                copies.deep_view() == self@.columns.take(i as int).filter(column_in(dataset_id@)),
            decreases self.columns.len() - i,
        {
            let ghost before = copies.deep_view();
            proof {
                self@.columns.take(i as int).lemma_filter_push(
                    self@.columns[i as int],
                    column_in(dataset_id@),
                );
                assert(self@.columns.take(i + 1) =~= self@.columns.take(i as int).push(
                    self@.columns[i as int],
                ));
            }
            if str_eq(self.columns[i].dataset_id.as_str(), dataset_id) {
                copies.push(self.columns[i].clone());
                assert(copies.deep_view() =~= before.push(self@.columns[i as int]));
            }
            i += 1;
        }
        assert(self@.columns.take(self.columns.len() as int) =~= self@.columns);
        let ghost unsorted = copies@;
        let listed = sort_ranked(copies);
        proof {
            lemma_sorted_views::<Column>(unsorted, by_position());
            lemma_deep_view_is_views(listed);
            assert(views(unsorted) =~= self@.columns.filter(column_in(dataset_id@)));
        }
        listed
    }

    /// Where the cell under the given key stands in its table; the length
    /// of the table if no cell has the key.
    fn cell_index(&self, dataset_id: &str, column_id: &str, row_index: i32) -> (i: usize)
        ensures
            i == first_index(
                self@.cells,
                cell_at_key(
                    CellKey { dataset_id: dataset_id@, column_id: column_id@, row_index },
                ),
            ),
            i <= self.cells.len(),
    {
        let ghost key = CellKey { dataset_id: dataset_id@, column_id: column_id@, row_index };
        let mut i: usize = 0;
        while i < self.cells.len()
            invariant
                i <= self.cells.len(),
                key == (CellKey { dataset_id: dataset_id@, column_id: column_id@, row_index }),
                forall|j: int| 0 <= j < i ==> !cell_at_key(key)(#[trigger] self@.cells[j]),
            decreases self.cells.len() - i,
        {
            let cell = &self.cells[i];
            if cell.row_index == row_index && str_eq(cell.column_id.as_str(), column_id) && str_eq(
                cell.dataset_id.as_str(),
                dataset_id,
            ) {
                proof {
                    lemma_first_index_is(self@.cells, cell_at_key(key), i as int);
                }
                return i;
            }
            i += 1;
        }
        proof {
            lemma_first_index_is(self@.cells, cell_at_key(key), i as int);
        }
        i
    }

    /// Where the cell with the identifier `id` stands in its table; the
    /// length of the table if no cell has it.
    fn cell_index_by_id(&self, id: &str) -> (i: usize)
        ensures
            i == first_index(self@.cells, cell_has_id(id@)),
            i <= self.cells.len(),
    {
        let mut i: usize = 0;
        while i < self.cells.len()
            invariant
                i <= self.cells.len(),
                forall|j: int| 0 <= j < i ==> !cell_has_id(id@)(#[trigger] self@.cells[j]),
            decreases self.cells.len() - i,
        {
            if str_eq(self.cells[i].id.as_str(), id) {
                proof {
                    lemma_first_index_is(self@.cells, cell_has_id(id@), i as int);
                }
                return i;
            }
            i += 1;
        }
        proof {
            lemma_first_index_is(self@.cells, cell_has_id(id@), i as int);
        }
        i
    }

    /// Puts `cell` in place of the cell stored under its key, whole, or
    /// stores it where its key is new. The store refuses a cell whose
    /// dataset or column is not stored, whose identifier belongs to a cell
    /// under another key, or that would exceed the capacity.
    pub fn upsert_cell(&mut self, cell: &Cell) -> (outcome: Result<(), StorageError>)
        requires
            old(self).wf(),
        ensures
            final(self).wf(),
            outcome is Ok <==> cell_refusal(old(self)@, cell@) is None,
            outcome is Ok ==> final(self)@ == with_cell(old(self)@, cell@) && find_cell(
                final(self)@,
                key_of(cell@),
            ) == Some(cell@),
            outcome matches Err(error) ==> Some(error) == cell_refusal(old(self)@, cell@)
                && final(self)@ == old(self)@,
    {
        let d = self.dataset_index(cell.dataset_id.as_str());
        let c = self.column_index(cell.column_id.as_str());
        let at = self.cell_index(
            cell.dataset_id.as_str(),
            cell.column_id.as_str(),
            cell.row_index,
        );
        let by_id = self.cell_index_by_id(cell.id.as_str());
        proof {
            lemma_first_index(self@.datasets, dataset_is(cell@.dataset_id));
            lemma_first_index(self@.columns, column_is(cell@.column_id));
            lemma_first_index(self@.cells, cell_at_key(key_of(cell@)));
            lemma_first_index(self@.cells, cell_has_id(cell@.id));
            assert(key_of(cell@) == CellKey {
                dataset_id: cell.dataset_id@,
                column_id: cell.column_id@,
                row_index: cell.row_index,
            });
            if by_id < self.cells.len() {
                if key_of(self@.cells[by_id as int]) == key_of(cell@) {
                    lemma_cell_index_unique(self@, key_of(cell@), by_id as int);
                }
            }
        }
        if d >= self.datasets.len() {
            return Err(StorageError::UnknownDataset);
        }
        if c >= self.columns.len() {
            return Err(StorageError::UnknownColumn);
        }
        if by_id < self.cells.len() && by_id != at {
            return Err(StorageError::DuplicateId);
        }
        if at < self.cells.len() {
            proof {
                lemma_with_cell(self@, cell@);
            }
            self.cells.set(at, cell.clone());
            assert(self@.cells =~= old(self)@.cells.update(at as int, cell@));
        } else {
            if self.cells.len() >= 2147483647 {
                return Err(StorageError::Full);
            }
            proof {
                lemma_with_cell(self@, cell@);
            }
            self.cells.push(cell.clone());
            assert(self@.cells =~= old(self)@.cells.push(cell@));
        }
        Ok(())
    }

    /// Puts a cell with the given identifier and time under the key of
    /// `dataset_id`, `column_id` and `row_index`, as `upsert_cell` does: a
    /// completed cell with `value` where there is one, a pending cell
    /// without a value where there is none.
    pub fn update_cell_as(
        &mut self,
        id: String,
        dataset_id: String,
        column_id: String,
        row_index: i32,
        value: Option<String>,
        at: Timestamp,
    ) -> (outcome: Result<(), StorageError>)
        requires
            old(self).wf(),
        ensures
            final(self).wf(),
            updated_as(
                old(self)@,
                final(self)@,
                edited_cell(id@, dataset_id@, column_id@, row_index, value.deep_view(), at),
                outcome,
            ),
    {
        let pending = Cell::with_id(id, dataset_id, column_id, row_index, at);
        let cell = match value {
            Some(value) => pending.with_value(value),
            None => pending,
        };
        self.upsert_cell(&cell)
    }

    /// Puts a cell under the key of `dataset_id`, `column_id` and
    /// `row_index`, as `update_cell_as` does, with a freshly drawn
    /// identifier, stamped now.
    pub fn update_cell(
        &mut self,
        dataset_id: String,
        column_id: String,
        row_index: i32,
        value: Option<String>,
    ) -> (outcome: Result<(), StorageError>)
        requires
            old(self).wf(),
        ensures
            final(self).wf(),
            exists|id: Seq<char>, at: Timestamp| #[trigger]
                updated_as(
                    old(self)@,
                    final(self)@,
                    edited_cell(id, dataset_id@, column_id@, row_index, value.deep_view(), at),
                    outcome,
                ),
    {
        let id = fresh_id();
        let at = now();
        let ghost cell = edited_cell(id@, dataset_id@, column_id@, row_index, value.deep_view(), at);
        let outcome = self.update_cell_as(id, dataset_id, column_id, row_index, value, at);
        assert(updated_as(old(self)@, self@, cell, outcome));
        outcome
    }

    /// The cells of `column_id`, in ascending order of row index.
    pub fn get_column_cells(&self, column_id: &str) -> (listed: Vec<Cell>)
        ensures
            listed.deep_view() == cells_of_column(self@, column_id@),
    {
        let mut copies: Vec<Cell> = Vec::new();
        let mut i: usize = 0;
        while i < self.cells.len()
            invariant
                i <= self.cells.len(),
                copies.deep_view() == self@.cells.take(i as int).filter(cell_of_column(column_id@)),
            decreases self.cells.len() - i,
        {
            let ghost before = copies.deep_view();
            proof {
                self@.cells.take(i as int).lemma_filter_push(
                    self@.cells[i as int],
                    cell_of_column(column_id@),
                );
                assert(self@.cells.take(i + 1) =~= self@.cells.take(i as int).push(
                    self@.cells[i as int],
                ));
            }
            if str_eq(self.cells[i].column_id.as_str(), column_id) {
                copies.push(self.cells[i].clone());
                assert(copies.deep_view() =~= before.push(self@.cells[i as int]));
            }
            i += 1;
        }
        assert(self@.cells.take(self.cells.len() as int) =~= self@.cells);
        let ghost unsorted = copies@;
        let listed = sort_ranked(copies);
        proof {
            lemma_sorted_views::<Cell>(unsorted, by_row_index());
            lemma_deep_view_is_views(listed);
            assert(views(unsorted) =~= self@.cells.filter(cell_of_column(column_id@)));
        }
        listed
    }

    /// Deletes the column `column_id` and its cells. Deleting a column that
    /// is not stored changes nothing.
    pub fn delete_column(&mut self, column_id: &str)
        requires
            old(self).wf(),
        ensures
            final(self).wf(),
            final(self)@ == without_column(old(self)@, column_id@),
    {
        let ghost before = self@;
        proof {
            lemma_without_column(before, column_id@);
        }
        let mut cells: Vec<Cell> = Vec::new();
        core::mem::swap(&mut self.cells, &mut cells);
        proof {
            lemma_deep_view_is_views(cells);
        }
        let mut kept_cells: Vec<Cell> = Vec::new();
        for cell in it: cells
            invariant
                views(it.seq()) == before.cells,
                kept_cells.deep_view() == before.cells.take(it.index()).filter(
                    cell_not_of_column(column_id@),
                ),
        {
            let ghost kept = kept_cells.deep_view();
            proof {
                assert(cell@ == before.cells[it.index()]);
                before.cells.take(it.index()).lemma_filter_push(
                    cell@,
                    cell_not_of_column(column_id@),
                );
                assert(before.cells.take(it.index() + 1) =~= before.cells.take(it.index()).push(
                    cell@,
                ));
            }
            if !str_eq(cell.column_id.as_str(), column_id) {
                kept_cells.push(cell);
                assert(kept_cells.deep_view() =~= kept.push(cell@));
            }
        }
        assert(before.cells.take(before.cells.len() as int) =~= before.cells);
        self.cells = kept_cells;

        let mut columns: Vec<Column> = Vec::new();
        core::mem::swap(&mut self.columns, &mut columns);
        proof {
            lemma_deep_view_is_views(columns);
        }
        let mut kept_columns: Vec<Column> = Vec::new();
        for column in it: columns
            invariant
                views(it.seq()) == before.columns,
                kept_columns.deep_view() == before.columns.take(it.index()).filter(
                    column_is_not(column_id@),
                ),
        {
            let ghost kept = kept_columns.deep_view();
            proof {
                assert(column@ == before.columns[it.index()]);
                before.columns.take(it.index()).lemma_filter_push(
                    column@,
                    column_is_not(column_id@),
                );
                assert(before.columns.take(it.index() + 1) =~= before.columns.take(
                    it.index(),
                ).push(column@));
            }
            if !str_eq(column.id.as_str(), column_id) {
                kept_columns.push(column);
                assert(kept_columns.deep_view() =~= kept.push(column@));
            }
        }
        assert(before.columns.take(before.columns.len() as int) =~= before.columns);
        self.columns = kept_columns;
    }

    /// Whether the column `column_id` is stored as a column of `dataset_id`.
    fn column_belongs_to(&self, column_id: &str, dataset_id: &str) -> (belongs: bool)
        ensures
            belongs == (match find_column(self@, column_id@) {
                Some(column) => column.dataset_id == dataset_id@,
                None => false,
            }),
    {
        let i = self.column_index(column_id);
        i < self.columns.len() && str_eq(self.columns[i].dataset_id.as_str(), dataset_id)
    }

    /// Deletes the dataset `dataset_id`, its columns, and every cell of the
    /// dataset or of one of its columns. Deleting a dataset that is not
    /// stored changes nothing.
    pub fn delete_dataset(&mut self, dataset_id: &str)
        requires
            old(self).wf(),
        ensures
            final(self).wf(),
            final(self)@ == without_dataset(old(self)@, dataset_id@),
    {
        let ghost before = self@;
        proof {
            lemma_without_dataset(before, dataset_id@);
        }
        let mut cells: Vec<Cell> = Vec::new();
        core::mem::swap(&mut self.cells, &mut cells);
        proof {
            lemma_deep_view_is_views(cells);
        }
        let mut kept_cells: Vec<Cell> = Vec::new();
        for cell in it: cells
            invariant
                views(it.seq()) == before.cells,
                self@.columns == before.columns,
                kept_cells.deep_view() == before.cells.take(it.index()).filter(
                    cell_survives(before, dataset_id@),
                ),
        {
            let ghost kept = kept_cells.deep_view();
            proof {
                assert(cell@ == before.cells[it.index()]);
                before.cells.take(it.index()).lemma_filter_push(
                    cell@,
                    cell_survives(before, dataset_id@),
                );
                assert(before.cells.take(it.index() + 1) =~= before.cells.take(it.index()).push(
                    cell@,
                ));
                assert(find_column(self@, cell@.column_id) == find_column(
                    before,
                    cell@.column_id,
                ));
            }
            if !str_eq(cell.dataset_id.as_str(), dataset_id) && !self.column_belongs_to(
                cell.column_id.as_str(),
                dataset_id,
            ) {
                kept_cells.push(cell);
                assert(kept_cells.deep_view() =~= kept.push(cell@));
            }
        }
        assert(before.cells.take(before.cells.len() as int) =~= before.cells);
        self.cells = kept_cells;

        let mut columns: Vec<Column> = Vec::new();
        core::mem::swap(&mut self.columns, &mut columns);
        proof {
            lemma_deep_view_is_views(columns);
        }
        let mut kept_columns: Vec<Column> = Vec::new();
        for column in it: columns
            invariant
                views(it.seq()) == before.columns,
                kept_columns.deep_view() == before.columns.take(it.index()).filter(
                    column_not_in(dataset_id@),
                ),
        {
            let ghost kept = kept_columns.deep_view();
            proof {
                assert(column@ == before.columns[it.index()]);
                before.columns.take(it.index()).lemma_filter_push(
                    column@,
                    column_not_in(dataset_id@),
                );
                assert(before.columns.take(it.index() + 1) =~= before.columns.take(
                    it.index(),
                ).push(column@));
            }
            if !str_eq(column.dataset_id.as_str(), dataset_id) {
                kept_columns.push(column);
                assert(kept_columns.deep_view() =~= kept.push(column@));
            }
        }
        assert(before.columns.take(before.columns.len() as int) =~= before.columns);
        self.columns = kept_columns;

        let mut datasets: Vec<Dataset> = Vec::new();
        core::mem::swap(&mut self.datasets, &mut datasets);
        proof {
            lemma_deep_view_is_views(datasets);
        }
        let mut kept_datasets: Vec<Dataset> = Vec::new();
        for dataset in it: datasets
            invariant
                views(it.seq()) == before.datasets,
                kept_datasets.deep_view() == before.datasets.take(it.index()).filter(
                    dataset_is_not(dataset_id@),
                ),
        {
            let ghost kept = kept_datasets.deep_view();
            proof {
                assert(dataset@ == before.datasets[it.index()]);
                before.datasets.take(it.index()).lemma_filter_push(
                    dataset@,
                    dataset_is_not(dataset_id@),
                );
                assert(before.datasets.take(it.index() + 1) =~= before.datasets.take(
                    it.index(),
                ).push(dataset@));
            }
            if !str_eq(dataset.id.as_str(), dataset_id) {
                kept_datasets.push(dataset);
                assert(kept_datasets.deep_view() =~= kept.push(dataset@));
            }
        }
        assert(before.datasets.take(before.datasets.len() as int) =~= before.datasets);
        self.datasets = kept_datasets;
    }

    /// The datasets, in the order in which they are stored.
    pub fn datasets(&self) -> (table: &Vec<Dataset>)
        ensures
            table.deep_view() == self@.datasets,
    {
        &self.datasets
    }

    /// The columns, in the order in which they are stored.
    pub fn columns(&self) -> (table: &Vec<Column>)
        ensures
            table.deep_view() == self@.columns,
    {
        &self.columns
    }

    /// The cells, in the order in which they are stored.
    pub fn cells(&self) -> (table: &Vec<Cell>)
        ensures
            table.deep_view() == self@.cells,
    {
        &self.cells
    }

    /// The store that holds the given tables: the records are stored one
    /// after the other, datasets first, then columns, then cells, as
    /// `insert_dataset`, `add_column` and `upsert_cell` store them. Fails
    /// with the refusal of the first record that the store refuses.
    pub fn restore(datasets: Vec<Dataset>, columns: Vec<Column>, cells: Vec<Cell>) -> (outcome:
        Result<Database, StorageError>)
        ensures
            outcome is Ok == restored(
                datasets.deep_view(),
                columns.deep_view(),
                cells.deep_view(),
            ) is Ok,
            outcome matches Ok(db) ==> db.wf() && Ok::<Store, StorageError>(db@) == restored(
                datasets.deep_view(),
                columns.deep_view(),
                cells.deep_view(),
            ),
            outcome matches Err(error) ==> Err::<Store, StorageError>(error) == restored(
                datasets.deep_view(),
                columns.deep_view(),
                cells.deep_view(),
            ),
    {
        let mut db = Database::new();
        let ghost empty = db@;
        let ghost dataset_views = datasets.deep_view();
        let ghost column_views = columns.deep_view();
        let ghost cell_views = cells.deep_view();
        let ghost goal = restored(dataset_views, column_views, cell_views);
        proof {
            lemma_deep_view_is_views(datasets);
            lemma_deep_view_is_views(columns);
            lemma_deep_view_is_views(cells);
        }
        for dataset in it: datasets
            invariant
                db.wf(),
                goal == restored(datasets.deep_view(), columns.deep_view(), cells.deep_view()),
                goal == restored(dataset_views, column_views, cell_views),
                empty == (Store { datasets: Seq::empty(), columns: Seq::empty(), cells: Seq::empty() }),
                views(it.seq()) == dataset_views,
                with_datasets(empty, dataset_views.take(it.index())) == Ok::<Store, StorageError>(
                    db@,
                ),
        {
            proof {
                assert(dataset_views.take(it.index() + 1).drop_last() =~= dataset_views.take(
                    it.index(),
                ));
                assert(dataset@ == dataset_views[it.index()]);
            }
            match db.insert_dataset(dataset) {
                Ok(()) => {},
                Err(error) => {
                    proof {
                        lemma_with_datasets_fails(empty, dataset_views, it.index() + 1);
                    }
                    return Err(error);
                },
            }
        }
        assert(dataset_views.take(dataset_views.len() as int) =~= dataset_views);
        let ghost first = db@;
        for column in it: columns
            invariant
                db.wf(),
                goal == restored(datasets.deep_view(), columns.deep_view(), cells.deep_view()),
                goal == restored(dataset_views, column_views, cell_views),
                empty == (Store { datasets: Seq::empty(), columns: Seq::empty(), cells: Seq::empty() }),
                with_datasets(empty, dataset_views) == Ok::<Store, StorageError>(first),
                views(it.seq()) == column_views,
                with_columns(first, column_views.take(it.index())) == Ok::<Store, StorageError>(
                    db@,
                ),
        {
            proof {
                assert(column_views.take(it.index() + 1).drop_last() =~= column_views.take(
                    it.index(),
                ));
                assert(column@ == column_views[it.index()]);
            }
            match db.add_column(column) {
                Ok(_) => {},
                Err(error) => {
                    proof {
                        lemma_with_columns_fails(first, column_views, it.index() + 1);
                    }
                    return Err(error);
                },
            }
        }
        assert(column_views.take(column_views.len() as int) =~= column_views);
        let ghost second = db@;
        for cell in it: cells
            invariant
                db.wf(),
                goal == restored(datasets.deep_view(), columns.deep_view(), cells.deep_view()),
                goal == restored(dataset_views, column_views, cell_views),
                empty == (Store { datasets: Seq::empty(), columns: Seq::empty(), cells: Seq::empty() }),
                with_datasets(empty, dataset_views) == Ok::<Store, StorageError>(first),
                with_columns(first, column_views) == Ok::<Store, StorageError>(second),
                views(it.seq()) == cell_views,
                with_cells(second, cell_views.take(it.index())) == Ok::<Store, StorageError>(db@),
        {
            proof {
                assert(cell_views.take(it.index() + 1).drop_last() =~= cell_views.take(
                    it.index(),
                ));
                assert(cell@ == cell_views[it.index()]);
            }
            match db.upsert_cell(&cell) {
                Ok(()) => {},
                Err(error) => {
                    proof {
                        lemma_with_cells_fails(second, cell_views, it.index() + 1);
                    }
                    return Err(error);
                },
            }
        }
        assert(cell_views.take(cell_views.len() as int) =~= cell_views);
        Ok(db)
    }
}

/// A refusal among the first `n` datasets is the refusal of all.
proof fn lemma_with_datasets_fails(store: Store, datasets: Seq<crate::database::models::DatasetView>, n: int)
    requires
        0 <= n <= datasets.len(),
        with_datasets(store, datasets.take(n)) is Err,
    ensures
        with_datasets(store, datasets) == with_datasets(store, datasets.take(n)),
    decreases datasets.len() - n,
{
    if n < datasets.len() {
        assert(datasets.take(n + 1).drop_last() =~= datasets.take(n));
        lemma_with_datasets_fails(store, datasets, n + 1);
    } else {
        assert(datasets.take(n) =~= datasets);
    }
}

/// A refusal among the first `n` columns is the refusal of all.
proof fn lemma_with_columns_fails(store: Store, columns: Seq<crate::database::models::ColumnView>, n: int)
    requires
        0 <= n <= columns.len(),
        with_columns(store, columns.take(n)) is Err,
    ensures
        with_columns(store, columns) == with_columns(store, columns.take(n)),
    decreases columns.len() - n,
{
    if n < columns.len() {
        assert(columns.take(n + 1).drop_last() =~= columns.take(n));
        lemma_with_columns_fails(store, columns, n + 1);
    } else {
        assert(columns.take(n) =~= columns);
    }
}

/// A refusal among the first `n` cells is the refusal of all.
proof fn lemma_with_cells_fails(store: Store, cells: Seq<crate::database::models::CellView>, n: int)
    requires
        0 <= n <= cells.len(),
        with_cells(store, cells.take(n)) is Err,
    ensures
        with_cells(store, cells) == with_cells(store, cells.take(n)),
    decreases cells.len() - n,
{
    if n < cells.len() {
        assert(cells.take(n + 1).drop_last() =~= cells.take(n));
        lemma_with_cells_fails(store, cells, n + 1);
    } else {
        assert(cells.take(n) =~= cells);
    }
}

} // verus!
