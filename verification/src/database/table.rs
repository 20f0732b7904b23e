//! Rows and table views: the read-time projections of the store.

use crate::database::lemmas::{
    lemma_row_index_set, lemma_sorted_distinct, lemma_sorted_distinct_push,
};
use crate::database::model::{
    at_least, by_position, cell_in, cell_in_row, cells_by_column, cells_of_dataset, column_in,
    columns_of, insert_distinct, page, page_end, page_start, row_builder, row_index_of,
    row_index_set, row_indices, rows_page, sorted_distinct, strictly_ascending, table_view_of,
    Store,
};
use crate::database::models::{Row, RowView, TableView};
use crate::database::Database;
use crate::seqs::{lemma_first_index_is, lemma_sort_by_rank};
use crate::text::str_eq;
use vstd::prelude::*;

verus! {

/// Where the page that `limit` and `offset` select begins and ends among
/// `len` items.
pub fn page_bounds(len: usize, limit: Option<i32>, offset: Option<i32>) -> (bounds: (usize, usize))
    ensures
        bounds.0 == page_start(len as int, offset),
        bounds.1 == page_end(len as int, limit, offset),
        bounds.0 <= bounds.1 <= len,
{
    let start: usize = match offset {
        None => 0,
        Some(o) => if o < 0 || o as usize > len {
            len
        } else {
            o as usize
        },
    };
    let end: usize = match limit {
        None => len,
        Some(l) => if l < 0 || l as usize > len - start {
            len
        } else {
            start + l as usize
        },
    };
    (start, end)
}

/// Puts `x` at its place in the strictly ascending `sorted`, unless it is
/// there already.
fn insert_index(sorted: &mut Vec<i32>, x: i32)
    requires
        strictly_ascending(old(sorted)@),
    ensures
        final(sorted)@ == insert_distinct(old(sorted)@, x),
{
    let mut at: usize = sorted.len();
    while at > 0 && sorted[at - 1] >= x
        invariant
            at <= sorted.len(),
            sorted@ == old(sorted)@,
            forall|j: int| at <= j < sorted.len() ==> #[trigger] sorted@[j] >= x,
        decreases at,
    {
        at -= 1;
    }
    proof {
        let p = at_least(x);
        assert forall|j: int| 0 <= j < at implies !p(#[trigger] sorted@[j]) by {
            if j < at - 1 {
                assert(sorted@[j] < sorted@[at - 1]);
            }
        }
        if at < sorted.len() {
            assert(p(sorted@[at as int]));
        }
        lemma_first_index_is(sorted@, p, at as int);
    }
    if at < sorted.len() && sorted[at] == x {
    } else {
        sorted.insert(at, x);
    }
}

/// Where `x` stands in the strictly ascending `sorted`, which holds it.
fn position_of(sorted: &Vec<i32>, x: i32) -> (at: usize)
    requires
        strictly_ascending(sorted@),
        sorted@.to_set().contains(x),
    ensures
        at < sorted.len(),
        sorted@[at as int] == x,
{
    let mut low: usize = 0;
    let mut high: usize = sorted.len();
    proof {
        let k = choose|k: int| 0 <= k < sorted@.len() && sorted@[k] == x;
        assert(0 <= k < high);
    }
    while high - low > 1
        invariant
            low < high <= sorted.len(),
            strictly_ascending(sorted@),
            exists|k: int| low <= k < high && sorted@[k] == x,
        decreases high - low,
    {
        let middle = low + (high - low) / 2;
        let ghost k = choose|k: int| low <= k < high && sorted@[k] == x;
        if sorted[middle] <= x {
            proof {
                if k < middle {
                    assert(sorted@[k] < sorted@[middle as int]);
                }
            }
            low = middle;
        } else {
            proof {
                if k > middle {
                    assert(sorted@[middle as int] < sorted@[k]);
                }
            }
            high = middle;
        }
    }
    low
}

/// The row of `dataset_id` at `row_index` as far as the first `seen` cells
/// of the store make it.
spec fn part_of_row(store: Store, dataset_id: Seq<char>, seen: int, row_index: i32) -> RowView {
    RowView {
        index: row_index,
        cells: cells_by_column(
            store.cells.take(seen).filter(cell_in(dataset_id)).filter(cell_in_row(row_index)),
        ),
    }
}

impl Database {
    /// The row indices at which `dataset_id` has a cell, each once, in
    /// ascending order.
    fn row_index_list(&self, dataset_id: &str) -> (indices: Vec<i32>)
        ensures
            indices@ == row_indices(self@, dataset_id@),
    {
        let mut indices: Vec<i32> = Vec::new();
        let mut i: usize = 0;
        while i < self.cells.len()
            invariant
                i <= self.cells.len(),
                indices@ == sorted_distinct(
                    self@.cells.take(i as int).filter(cell_in(dataset_id@)).map_values(
                        row_index_of(),
                    ),
                ),
            decreases self.cells.len() - i,
        {
            let ghost seen = self@.cells.take(i as int).filter(cell_in(dataset_id@));
            proof {
                self@.cells.take(i as int).lemma_filter_push(
                    self@.cells[i as int],
                    cell_in(dataset_id@),
                );
                assert(self@.cells.take(i + 1) =~= self@.cells.take(i as int).push(
                    self@.cells[i as int],
                ));
                lemma_sorted_distinct(seen.map_values(row_index_of()));
            }
            if str_eq(self.cells[i].dataset_id.as_str(), dataset_id) {
                proof {
                    let x = self@.cells[i as int].row_index;
                    assert(seen.push(self@.cells[i as int]).map_values(row_index_of())
                        =~= seen.map_values(row_index_of()).push(x));
                    lemma_sorted_distinct_push(seen.map_values(row_index_of()), x);
                }
                insert_index(&mut indices, self.cells[i].row_index);
            }
            i += 1;
        }
        assert(self@.cells.take(self.cells.len() as int) =~= self@.cells);
        indices
    }

    /// How many rows `dataset_id` has: the number of distinct row indices
    /// among its cells, whichever columns they belong to.
    pub fn count_rows(&self, dataset_id: &str) -> (count: i32)
        requires
            self.wf(),
        ensures
            count == row_index_set(self@, dataset_id@).len(),
            count == row_indices(self@, dataset_id@).len(),
    {
        let indices = self.row_index_list(dataset_id);
        proof {
            let values = cells_of_dataset(self@, dataset_id@).map_values(row_index_of());
            lemma_sorted_distinct(values);
            self@.cells.lemma_filter_len(cell_in(dataset_id@));
        }
        indices.len() as i32
    }

    /// Whether `dataset_id` has a column.
    fn has_columns(&self, dataset_id: &str) -> (has: bool)
        ensures
            has == (columns_of(self@, dataset_id@).len() > 0),
    {
        let mut i: usize = 0;
        while i < self.columns.len()
            invariant
                i <= self.columns.len(),
                self@.columns.take(i as int).filter(column_in(dataset_id@)).len() == 0,
            decreases self.columns.len() - i,
        {
            proof {
                self@.columns.take(i as int).lemma_filter_push(
                    self@.columns[i as int],
                    column_in(dataset_id@),
                );
                assert(self@.columns.take(i + 1) =~= self@.columns.take(i as int).push(
                    self@.columns[i as int],
                ));
                assert(self@.columns =~= self@.columns.take(i + 1) + self@.columns.skip(i + 1));
                Seq::filter_distributes_over_add(
                    self@.columns.take(i + 1),
                    self@.columns.skip(i + 1),
                    column_in(dataset_id@),
                );
                lemma_sort_by_rank(self@.columns.filter(column_in(dataset_id@)), by_position());
            }
            if str_eq(self.columns[i].dataset_id.as_str(), dataset_id) {
                return true;
            }
            i += 1;
        }
        proof {
            assert(self@.columns.take(self.columns.len() as int) =~= self@.columns);
            lemma_sort_by_rank(self@.columns.filter(column_in(dataset_id@)), by_position());
        }
        false
    }

    /// The rows of `dataset_id`, in ascending order of row index, of which
    /// `offset` are skipped and at most `limit` handed out. All cells of
    /// the dataset are grouped before the page is cut. A dataset without a
    /// column has no rows.
    pub fn get_dataset_rows(&self, dataset_id: &str, limit: Option<i32>, offset: Option<i32>) -> (rows:
        Vec<Row>)
        ensures
            rows.deep_view() == rows_page(self@, dataset_id@, limit, offset),
    {
        let mut rows: Vec<Row> = Vec::new();
        if !self.has_columns(dataset_id) {
            assert(rows.deep_view() =~= rows_page(self@, dataset_id@, limit, offset));
            return rows;
        }
        let indices = self.row_index_list(dataset_id);
        let (start, end) = page_bounds(indices.len(), limit, offset);
        let mut k: usize = start;
        while k < end
            invariant
                start <= k <= end <= indices.len(),
                rows.len() == k - start,
                forall|j: int|
                    0 <= j < rows.len() ==> (#[trigger] rows@[j])@ == (RowView {
                        index: indices@[start + j],
                        cells: Map::empty(),
                    }),
            decreases end - k,
        {
            rows.push(Row::new(indices[k]));
            k += 1;
        }
        proof {
            lemma_sorted_distinct(cells_of_dataset(self@, dataset_id@).map_values(row_index_of()));
            assert(self@.cells.take(0) =~= Seq::empty());
            assert forall|j: int| 0 <= j < rows.len() implies (#[trigger] rows@[j])@ == part_of_row(
                self@,
                dataset_id@,
                0,
                indices@[start + j],
            ) by {
                reveal(Seq::filter);
                assert(self@.cells.take(0).filter(cell_in(dataset_id@)).filter(
                    cell_in_row(indices@[start + j]),
                ) =~= Seq::empty());
            }
        }
        let mut i: usize = 0;
        while i < self.cells.len()
            invariant
                i <= self.cells.len(),
                start <= end <= indices.len(),
                rows.len() == end - start,
                indices@ == row_indices(self@, dataset_id@),
                strictly_ascending(indices@),
                forall|j: int|
                    0 <= j < rows.len() ==> (#[trigger] rows@[j])@ == part_of_row(
                        self@,
                        dataset_id@,
                        i as int,
                        indices@[start + j],
                    ),
            decreases self.cells.len() - i,
        {
            let ghost before = rows@;
            let ghost seen = self@.cells.take(i as int).filter(cell_in(dataset_id@));
            let ghost cell = self@.cells[i as int];
            proof {
                self@.cells.take(i as int).lemma_filter_push(cell, cell_in(dataset_id@));
                assert(self@.cells.take(i + 1) =~= self@.cells.take(i as int).push(cell));
                assert forall|r: i32|
                    !(cell.dataset_id == dataset_id@ && cell.row_index == r) implies part_of_row(
                    self@,
                    dataset_id@,
                    i + 1,
                    r,
                ) == #[trigger] part_of_row(self@, dataset_id@, i as int, r) by {
                    seen.lemma_filter_push(cell, cell_in_row(r));
                }
            }
            if str_eq(self.cells[i].dataset_id.as_str(), dataset_id) {
                proof {
                    lemma_row_index_set(self@, dataset_id@, cell.row_index);
                    lemma_sorted_distinct(
                        cells_of_dataset(self@, dataset_id@).map_values(row_index_of()),
                    );
                    assert(self@.cells[i as int].dataset_id == dataset_id@
                        && self@.cells[i as int].row_index == cell.row_index);
                    assert(row_index_set(self@, dataset_id@).contains(cell.row_index));
                    assert(indices@.to_set().contains(cell.row_index));
                }
                let at = position_of(&indices, self.cells[i].row_index);
                if start <= at && at < end {
                    proof {
                        let picked = seen.filter(cell_in_row(cell.row_index));
                        seen.lemma_filter_push(cell, cell_in_row(cell.row_index));
                        assert(picked.push(cell).drop_last() =~= picked);
                    }
                    rows[at - start].add_cell(self.cells[i].column_id.clone(), self.cells[i].clone());
                }
                proof {
                    assert forall|j: int| 0 <= j < rows.len() implies (#[trigger] rows@[j])@
                        == part_of_row(self@, dataset_id@, i + 1, indices@[start + j]) by {
                        if start + j != at {
                            assert(rows@[j] == before[j]);
                            if start + j < at {
                                assert(indices@[start + j] < indices@[at as int]);
                            } else {
                                assert(indices@[at as int] < indices@[start + j]);
                            }
                        }
                    }
                }
            }
            i += 1;
        }
        proof {
            assert(self@.cells.take(self.cells.len() as int) =~= self@.cells);
            assert(rows.deep_view() =~= indices@.subrange(start as int, end as int).map_values(
                row_builder(self@, dataset_id@),
            ));
            assert(rows.deep_view() =~= rows_page(self@, dataset_id@, limit, offset));
        }
        rows
    }

    /// The dataset `dataset_id` joined with its columns and the page of its
    /// rows that `limit` and `offset` select; `None` where the dataset is
    /// not stored.
    pub fn get_table_view(&self, dataset_id: &str, limit: Option<i32>, offset: Option<i32>) -> (table:
        Option<TableView>)
        ensures
            table is Some == table_view_of(self@, dataset_id@, limit, offset) is Some,
            table matches Some(found) ==> Some(found@) == table_view_of(
                self@,
                dataset_id@,
                limit,
                offset,
            ),
    {
        let dataset = match self.get_dataset(dataset_id) {
            Some(dataset) => dataset,
            None => {
                return None;
            },
        };
        let columns = self.list_columns(dataset_id);
        let rows = self.get_dataset_rows(dataset_id, limit, offset);
        Some(TableView::new(dataset, columns, rows))
    }
}

} // verus!
