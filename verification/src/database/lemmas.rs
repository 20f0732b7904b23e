//! Why each change of the store keeps it consistent, and what lookups find
//! afterwards.

use crate::database::models::{
    CellView, ColumnView, DatasetView, DrawnFieldView,
};
use crate::database::model::{
    at_least, by_position, cell_at_key, cell_capacity, cell_column_in, cell_has_id, cell_id,
    cell_in, cell_in_row, cell_key, cell_not_of_column, cell_of_column, cell_survives,
    cells_by_column, cells_imported, cells_of_column, cells_of_dataset, column_id, column_in,
    column_is, column_is_not, column_not_in, columns_imported, columns_of, consistent, dataset_id,
    dataset_is, dataset_is_not, find_cell, find_column, find_dataset, id_taken_elsewhere,
    import_key, insert_distinct, key_of, page, row_at, row_index_of, row_index_set, row_indices,
    rows_page, sorted_distinct, strictly_ascending, table_view_of, width, with_cell, with_column,
    with_dataset, without_column, without_dataset, CellKey, Store,
};
use crate::seqs::{
    distinct_by, find_first, first_index, lemma_filter_distinct, lemma_filter_member,
    lemma_filter_none, lemma_filter_origin, lemma_find_first_dropped, lemma_find_first_kept,
    lemma_find_first_none, lemma_find_first_push, lemma_first_index, lemma_first_index_is,
    lemma_sort_by_rank_contains, lemma_sort_by_rank_distinct,
};
use vstd::prelude::*;

verus! {

/// A store with one more dataset, under an identifier that was free, is
/// consistent; the new dataset is found under its identifier and every
/// other lookup finds what it found before.
pub proof fn lemma_with_dataset(store: Store, dataset: DatasetView)
    requires
        consistent(store),
        find_dataset(store, dataset.id) is None,
    ensures
        consistent(with_dataset(store, dataset)),
        find_dataset(with_dataset(store, dataset), dataset.id) == Some(dataset),
        forall|id: Seq<char>|
            id != dataset.id ==> #[trigger] find_dataset(with_dataset(store, dataset), id)
                == find_dataset(store, id),
{
    let after = with_dataset(store, dataset);
    lemma_find_first_none(store.datasets, dataset_is(dataset.id));
    lemma_find_first_push(store.datasets, dataset, dataset_is(dataset.id));
    assert forall|id: Seq<char>| #[trigger]
        find_dataset(after, id) == (if find_dataset(store, id) is Some {
            find_dataset(store, id)
        } else if id == dataset.id {
            Some(dataset)
        } else {
            None
        }) by {
        lemma_find_first_push(store.datasets, dataset, dataset_is(id));
    }
    assert(distinct_by(after.datasets, dataset_id())) by {
        assert forall|i: int, j: int| 0 <= i < j < after.datasets.len() implies dataset_id()(
            #[trigger] after.datasets[i],
        ) != dataset_id()(#[trigger] after.datasets[j]) by {
            if j == store.datasets.len() {
                assert(!dataset_is(dataset.id)(store.datasets[i]));
            } else {
                assert(dataset_id()(store.datasets[i]) != dataset_id()(store.datasets[j]));
            }
        }
    }
    assert forall|i: int| 0 <= i < after.columns.len() implies find_dataset(
        after,
        (#[trigger] after.columns[i]).dataset_id,
    ) is Some by {
        assert(find_dataset(store, store.columns[i].dataset_id) is Some);
    }
    assert forall|i: int| 0 <= i < after.cells.len() implies find_dataset(
        after,
        (#[trigger] after.cells[i]).dataset_id,
    ) is Some by {
        assert(find_dataset(store, store.cells[i].dataset_id) is Some);
    }
    assert forall|i: int| 0 <= i < after.cells.len() implies find_column(
        after,
        (#[trigger] after.cells[i]).column_id,
    ) is Some by {
        assert(find_column(store, store.cells[i].column_id) is Some);
    }
}

/// A store with one more column, under an identifier that was free and in
/// a stored dataset, is consistent; the new column is found under its
/// identifier and every other lookup finds what it found before.
pub proof fn lemma_with_column(store: Store, column: ColumnView)
    requires
        consistent(store),
        find_column(store, column.id) is None,
        find_dataset(store, column.dataset_id) is Some,
    ensures
        consistent(with_column(store, column)),
        find_column(with_column(store, column), column.id) == Some(column),
        forall|id: Seq<char>|
            id != column.id ==> #[trigger] find_column(with_column(store, column), id)
                == find_column(store, id),
{
    let after = with_column(store, column);
    lemma_find_first_none(store.columns, column_is(column.id));
    assert forall|id: Seq<char>| #[trigger]
        find_column(after, id) == (if find_column(store, id) is Some {
            find_column(store, id)
        } else if id == column.id {
            Some(column)
        } else {
            None
        }) by {
        lemma_find_first_push(store.columns, column, column_is(id));
    }
    assert(distinct_by(after.columns, column_id())) by {
        assert forall|i: int, j: int| 0 <= i < j < after.columns.len() implies column_id()(
            #[trigger] after.columns[i],
        ) != column_id()(#[trigger] after.columns[j]) by {
            if j == store.columns.len() {
                assert(!column_is(column.id)(store.columns[i]));
            } else {
                assert(column_id()(store.columns[i]) != column_id()(store.columns[j]));
            }
        }
    }
    assert forall|i: int| 0 <= i < after.columns.len() implies find_dataset(
        after,
        (#[trigger] after.columns[i]).dataset_id,
    ) is Some by {
        if i < store.columns.len() {
            assert(find_dataset(store, store.columns[i].dataset_id) is Some);
        }
    }
    assert forall|i: int| 0 <= i < after.cells.len() implies find_column(
        after,
        (#[trigger] after.cells[i]).column_id,
    ) is Some by {
        assert(find_column(store, store.cells[i].column_id) is Some);
    }
    assert forall|i: int| 0 <= i < after.cells.len() implies find_dataset(
        after,
        (#[trigger] after.cells[i]).dataset_id,
    ) is Some by {
        assert(find_dataset(store, store.cells[i].dataset_id) is Some);
    }
}

/// In a consistent store the cell found under a key stands at the first,
/// and only, index whose cell has that key.
pub proof fn lemma_cell_index_unique(store: Store, key: CellKey, i: int)
    requires
        consistent(store),
        0 <= i < store.cells.len(),
        key_of(store.cells[i]) == key,
    ensures
        first_index(store.cells, cell_at_key(key)) == i,
        find_cell(store, key) == Some(store.cells[i]),
{
    lemma_first_index(store.cells, cell_at_key(key));
    let f = first_index(store.cells, cell_at_key(key));
    if f < i {
        assert(cell_key()(store.cells[f]) != cell_key()(store.cells[i]));
    } else if f > i {
        assert(!cell_at_key(key)(store.cells[i]));
    }
}

/// A store into which a cell that it does not refuse was put is
/// consistent; the cell is found under its key, and every other key finds
/// what it found before.
pub proof fn lemma_with_cell(store: Store, cell: CellView)
    requires
        consistent(store),
        find_dataset(store, cell.dataset_id) is Some,
        find_column(store, cell.column_id) is Some,
        !id_taken_elsewhere(store, cell),
        find_cell(store, key_of(cell)) is Some || store.cells.len() < cell_capacity(),
    ensures
        consistent(with_cell(store, cell)),
        find_cell(with_cell(store, cell), key_of(cell)) == Some(cell),
        forall|key: CellKey|
            key != key_of(cell) ==> #[trigger] find_cell(with_cell(store, cell), key) == find_cell(
                store,
                key,
            ),
        with_cell(store, cell).datasets == store.datasets,
        with_cell(store, cell).columns == store.columns,
{
    let after = with_cell(store, cell);
    let mine = cell_at_key(key_of(cell));
    let i = first_index(store.cells, mine);
    lemma_first_index(store.cells, mine);
    lemma_first_index(store.cells, cell_has_id(cell.id));
    let by_id = first_index(store.cells, cell_has_id(cell.id));
    // No cell at another index has the identifier of `cell`.
    assert forall|k: int| 0 <= k < store.cells.len() && k != i implies (
    #[trigger] store.cells[k]).id != cell.id by {
        if store.cells[k].id == cell.id {
            assert(cell_has_id(cell.id)(store.cells[k]));
            assert(by_id < store.cells.len());
            assert(key_of(store.cells[by_id]) == key_of(cell));
            lemma_cell_index_unique(store, key_of(cell), by_id);
            if by_id != k {
                assert(cell_id()(store.cells[by_id]) != cell_id()(store.cells[k])) by {
                    if by_id < k {
                        assert(cell_id()(store.cells[by_id]) != cell_id()(store.cells[k]));
                    } else {
                        assert(cell_id()(store.cells[k]) != cell_id()(store.cells[by_id]));
                    }
                }
            }
        }
    }
    // No cell at another index has the key of `cell`.
    assert forall|k: int| 0 <= k < store.cells.len() && k != i implies key_of(
        #[trigger] store.cells[k],
    ) != key_of(cell) by {
        if key_of(store.cells[k]) == key_of(cell) {
            lemma_cell_index_unique(store, key_of(cell), k);
        }
    }
    assert(after.cells.len() <= cell_capacity());
    assert forall|k: int| 0 <= k < after.cells.len() && k != i implies #[trigger] after.cells[k]
        == store.cells[k] by {}
    assert(i < after.cells.len() && after.cells[i] == cell);
    assert(distinct_by(after.cells, cell_id())) by {
        assert forall|a: int, b: int| 0 <= a < b < after.cells.len() implies cell_id()(
            #[trigger] after.cells[a],
        ) != cell_id()(#[trigger] after.cells[b]) by {
            if a != i && b != i {
                assert(cell_id()(store.cells[a]) != cell_id()(store.cells[b]));
            } else if a == i {
                assert(store.cells[b].id != cell.id);
            } else {
                assert(store.cells[a].id != cell.id);
            }
        }
    }
    assert(distinct_by(after.cells, cell_key())) by {
        assert forall|a: int, b: int| 0 <= a < b < after.cells.len() implies cell_key()(
            #[trigger] after.cells[a],
        ) != cell_key()(#[trigger] after.cells[b]) by {
            if a != i && b != i {
                assert(cell_key()(store.cells[a]) != cell_key()(store.cells[b]));
            } else if a == i {
                assert(key_of(store.cells[b]) != key_of(cell));
            } else {
                assert(key_of(store.cells[a]) != key_of(cell));
            }
        }
    }
    assert forall|k: int| 0 <= k < after.cells.len() implies find_dataset(
        after,
        (#[trigger] after.cells[k]).dataset_id,
    ) is Some by {
        if k != i {
            assert(find_dataset(store, store.cells[k].dataset_id) is Some);
        }
    }
    assert forall|k: int| 0 <= k < after.cells.len() implies find_column(
        after,
        (#[trigger] after.cells[k]).column_id,
    ) is Some by {
        if k != i {
            assert(find_column(store, store.cells[k].column_id) is Some);
        }
    }
    assert forall|k: int| 0 <= k < after.columns.len() implies find_dataset(
        after,
        (#[trigger] after.columns[k]).dataset_id,
    ) is Some by {
        assert(find_dataset(store, store.columns[k].dataset_id) is Some);
    }
    lemma_first_index_is(after.cells, mine, i);
    assert forall|key: CellKey| key != key_of(cell) implies #[trigger] find_cell(after, key)
        == find_cell(store, key) by {
        let theirs = cell_at_key(key);
        let f = first_index(store.cells, theirs);
        lemma_first_index(store.cells, theirs);
        assert(f != i || f == store.cells.len());
        assert forall|j: int| 0 <= j < f implies !theirs(#[trigger] after.cells[j]) by {
            if j != i {
                assert(!theirs(store.cells[j]));
            }
        }
        if f < store.cells.len() {
            assert(after.cells[f] == store.cells[f]);
            lemma_first_index_is(after.cells, theirs, f);
        } else {
            assert forall|j: int| 0 <= j < after.cells.len() implies !theirs(
                #[trigger] after.cells[j],
            ) by {
                if j != i {
                    assert(!theirs(store.cells[j]));
                }
            }
            lemma_first_index_is(after.cells, theirs, after.cells.len() as int);
        }
    }
}

/// A store from which a column was deleted is consistent. The column is
/// gone and so are its cells; datasets are untouched.
pub proof fn lemma_without_column(store: Store, id: Seq<char>)
    requires
        consistent(store),
    ensures
        consistent(without_column(store, id)),
        find_column(without_column(store, id), id) is None,
        cells_of_column(without_column(store, id), id) == Seq::<CellView>::empty(),
        forall|other: Seq<char>|
            other != id ==> #[trigger] find_column(without_column(store, id), other)
                == find_column(store, other),
{
    let after = without_column(store, id);
    let keep_column = column_is_not(id);
    let keep_cell = cell_not_of_column(id);
    lemma_filter_distinct(store.columns, keep_column, column_id());
    lemma_filter_distinct(store.cells, keep_cell, cell_id());
    lemma_filter_distinct(store.cells, keep_cell, cell_key());
    store.cells.lemma_filter_len(keep_cell);
    lemma_find_first_dropped(store.columns, keep_column, column_is(id));
    assert forall|other: Seq<char>| other != id implies #[trigger] find_column(after, other)
        == find_column(store, other) by {
        lemma_first_index(store.columns, column_is(other));
        lemma_find_other_column(store.columns, keep_column, other);
    }
    assert forall|i: int| 0 <= i < after.columns.len() implies find_dataset(
        after,
        (#[trigger] after.columns[i]).dataset_id,
    ) is Some by {
        let k = lemma_filter_origin(store.columns, keep_column, i);
        assert(find_dataset(store, store.columns[k].dataset_id) is Some);
    }
    assert forall|i: int| 0 <= i < after.cells.len() implies find_dataset(
        after,
        (#[trigger] after.cells[i]).dataset_id,
    ) is Some && find_column(after, after.cells[i].column_id) is Some by {
        let k = lemma_filter_origin(store.cells, keep_cell, i);
        assert(find_dataset(store, store.cells[k].dataset_id) is Some);
        assert(find_column(store, store.cells[k].column_id) is Some);
        assert(find_column(after, store.cells[k].column_id) == find_column(
            store,
            store.cells[k].column_id,
        ));
    }
    assert forall|i: int| 0 <= i < after.cells.len() implies !cell_of_column(id)(
        #[trigger] after.cells[i],
    ) by {
        let k = lemma_filter_origin(store.cells, keep_cell, i);
    }
    lemma_filter_none(after.cells, cell_of_column(id));
}

/// Among the columns that `keep` keeps, a column is found under `id` as it
/// was before, where `keep` keeps what stood under `id`.
proof fn lemma_find_other_column(
    columns: Seq<ColumnView>,
    keep: spec_fn(ColumnView) -> bool,
    id: Seq<char>,
)
    requires
        find_first(columns, column_is(id)) matches Some(column) ==> keep(column),
    ensures
        find_first(columns.filter(keep), column_is(id)) == find_first(columns, column_is(id)),
{
    if find_first(columns, column_is(id)) is Some {
        lemma_find_first_kept(columns, keep, column_is(id));
    } else {
        lemma_find_first_none(columns, column_is(id));
        assert forall|j: int| 0 <= j < columns.filter(keep).len() implies !column_is(id)(
            #[trigger] columns.filter(keep)[j],
        ) by {
            let k = lemma_filter_origin(columns, keep, j);
            assert(!column_is(id)(columns[k]));
        }
        lemma_find_first_none(columns.filter(keep), column_is(id));
    }
}

/// A store from which a dataset was deleted is consistent. The dataset is
/// gone, it has no column left, and no cell is left of the dataset or of a
/// column that was one of its columns.
pub proof fn lemma_without_dataset(store: Store, id: Seq<char>)
    requires
        consistent(store),
    ensures
        consistent(without_dataset(store, id)),
        find_dataset(without_dataset(store, id), id) is None,
        columns_of(without_dataset(store, id), id) == Seq::<ColumnView>::empty(),
        cells_of_dataset(without_dataset(store, id), id) == Seq::<CellView>::empty(),
        forall|i: int|
            0 <= i < store.columns.len() && (#[trigger] store.columns[i]).dataset_id == id
                ==> cells_of_column(without_dataset(store, id), store.columns[i].id) == Seq::<
                CellView,
            >::empty(),
        forall|other: Seq<char>|
            other != id ==> #[trigger] find_dataset(without_dataset(store, id), other)
                == find_dataset(store, other),
{
    let after = without_dataset(store, id);
    let keep_dataset = dataset_is_not(id);
    let keep_column = column_not_in(id);
    let keep_cell = cell_survives(store, id);
    lemma_filter_distinct(store.datasets, keep_dataset, dataset_id());
    lemma_filter_distinct(store.columns, keep_column, column_id());
    lemma_filter_distinct(store.cells, keep_cell, cell_id());
    lemma_filter_distinct(store.cells, keep_cell, cell_key());
    store.cells.lemma_filter_len(keep_cell);
    lemma_find_first_dropped(store.datasets, keep_dataset, dataset_is(id));
    assert forall|other: Seq<char>| other != id implies #[trigger] find_dataset(after, other)
        == find_dataset(store, other) by {
        if find_dataset(store, other) is Some {
            lemma_first_index(store.datasets, dataset_is(other));
            lemma_find_first_kept(store.datasets, keep_dataset, dataset_is(other));
        } else {
            lemma_find_first_none(store.datasets, dataset_is(other));
            assert forall|j: int| 0 <= j < after.datasets.len() implies !dataset_is(other)(
                #[trigger] after.datasets[j],
            ) by {
                let k = lemma_filter_origin(store.datasets, keep_dataset, j);
                assert(!dataset_is(other)(store.datasets[k]));
            }
            lemma_find_first_none(after.datasets, dataset_is(other));
        }
    }
    assert forall|i: int| 0 <= i < after.columns.len() implies find_dataset(
        after,
        (#[trigger] after.columns[i]).dataset_id,
    ) is Some by {
        let k = lemma_filter_origin(store.columns, keep_column, i);
        assert(find_dataset(store, store.columns[k].dataset_id) is Some);
    }
    assert forall|i: int| 0 <= i < after.cells.len() implies find_dataset(
        after,
        (#[trigger] after.cells[i]).dataset_id,
    ) is Some && find_column(after, after.cells[i].column_id) is Some by {
        let k = lemma_filter_origin(store.cells, keep_cell, i);
        let cell = store.cells[k];
        assert(find_dataset(store, cell.dataset_id) is Some);
        assert(find_column(store, cell.column_id) is Some);
        assert(!cell_column_in(store, id)(cell));
        lemma_find_other_column(store.columns, keep_column, cell.column_id);
    }
    // Nothing of the dataset is left.
    assert forall|i: int| 0 <= i < after.columns.len() implies !column_in(id)(
        #[trigger] after.columns[i],
    ) by {
        let k = lemma_filter_origin(store.columns, keep_column, i);
    }
    lemma_filter_none(after.columns, column_in(id));
    assert forall|i: int| 0 <= i < after.cells.len() implies !cell_in(id)(
        #[trigger] after.cells[i],
    ) by {
        let k = lemma_filter_origin(store.cells, keep_cell, i);
    }
    lemma_filter_none(after.cells, cell_in(id));
    assert forall|i: int|
        0 <= i < store.columns.len() && (#[trigger] store.columns[i]).dataset_id
            == id implies cells_of_column(after, store.columns[i].id) == Seq::<CellView>::empty() by {
        let column = store.columns[i];
        assert forall|j: int| 0 <= j < after.cells.len() implies !cell_of_column(column.id)(
            #[trigger] after.cells[j],
        ) by {
            let k = lemma_filter_origin(store.cells, keep_cell, j);
            let cell = store.cells[k];
            if cell.column_id == column.id {
                lemma_column_index_unique(store, i);
                assert(cell_column_in(store, id)(cell));
            }
        }
        lemma_filter_none(after.cells, cell_of_column(column.id));
    }
}

/// In a consistent store a column is what is found under its identifier.
pub proof fn lemma_column_index_unique(store: Store, i: int)
    requires
        consistent(store),
        0 <= i < store.columns.len(),
    ensures
        find_column(store, store.columns[i].id) == Some(store.columns[i]),
{
    let p = column_is(store.columns[i].id);
    lemma_first_index(store.columns, p);
    let f = first_index(store.columns, p);
    if f < i {
        assert(column_id()(store.columns[f]) != column_id()(store.columns[i]));
    } else if f > i {
        assert(!p(store.columns[i]));
    }
}

/// Putting a value at its place in a strictly ascending sequence leaves
/// the sequence strictly ascending and adds that value, if anything.
pub proof fn lemma_insert_distinct(sorted: Seq<i32>, x: i32)
    requires
        strictly_ascending(sorted),
    ensures
        strictly_ascending(insert_distinct(sorted, x)),
        forall|y: i32| #[trigger]
            insert_distinct(sorted, x).contains(y) <==> sorted.contains(y) || y == x,
        insert_distinct(sorted, x).len() <= sorted.len() + 1,
{
    let p = at_least(x);
    let i = first_index(sorted, p);
    lemma_first_index(sorted, p);
    let r = insert_distinct(sorted, x);
    if i < sorted.len() && sorted[i] == x {
        assert forall|y: i32| #[trigger] r.contains(y) <==> sorted.contains(y) || y == x by {
            if y == x {
                assert(sorted[i] == y);
            }
        }
    } else {
        assert(r == sorted.insert(i, x));
        assert forall|a: int, b: int| 0 <= a < b < r.len() implies #[trigger] r[a] < #[trigger] r[b] by {
            if b == i {
                assert(r[a] == sorted[a]);
                assert(!p(sorted[a]));
            } else if a == i {
                assert(r[b] == sorted[b - 1]);
                assert(p(sorted[i]));
                if b - 1 > i {
                    assert(sorted[i] < sorted[b - 1]);
                }
            } else {
                let a0 = if a < i { a } else { a - 1 };
                let b0 = if b < i { b } else { b - 1 };
                assert(r[a] == sorted[a0] && r[b] == sorted[b0]);
            }
        }
        assert forall|y: i32| #[trigger] r.contains(y) <==> sorted.contains(y) || y == x by {
            if r.contains(y) {
                let k = choose|k: int| 0 <= k < r.len() && r[k] == y;
                if k < i {
                    assert(sorted[k] == y);
                } else if k > i {
                    assert(sorted[k - 1] == y);
                }
            }
            if sorted.contains(y) {
                let k = choose|k: int| 0 <= k < sorted.len() && sorted[k] == y;
                if k < i {
                    assert(r[k] == y);
                } else {
                    assert(r[k + 1] == y);
                }
            }
            if y == x {
                assert(r[i] == y);
            }
        }
    }
}

/// `sorted_distinct(s)` ascends strictly and holds the values of `s`, so it
/// is as long as `s` has distinct values.
pub proof fn lemma_sorted_distinct(s: Seq<i32>)
    ensures
        strictly_ascending(sorted_distinct(s)),
        forall|y: i32| #[trigger] sorted_distinct(s).contains(y) <==> s.contains(y),
        sorted_distinct(s).len() <= s.len(),
        sorted_distinct(s).to_set() == s.to_set(),
        sorted_distinct(s).len() == s.to_set().len(),
    decreases s.len(),
{
    let r = sorted_distinct(s);
    if s.len() > 0 {
        let front = s.drop_last();
        lemma_sorted_distinct(front);
        lemma_insert_distinct(sorted_distinct(front), s.last());
        assert forall|y: i32| #[trigger] r.contains(y) <==> s.contains(y) by {
            if s.contains(y) {
                let k = choose|k: int| 0 <= k < s.len() && s[k] == y;
                if k < s.len() - 1 {
                    assert(front[k] == y);
                }
            }
            if front.contains(y) {
                let k = choose|k: int| 0 <= k < front.len() && front[k] == y;
                assert(s[k] == y);
            }
            if y == s.last() {
                assert(s[s.len() - 1] == y);
            }
        }
    }
    assert(r.to_set() =~= s.to_set());
    assert(r.no_duplicates()) by {
        assert forall|a: int, b: int| 0 <= a < r.len() && 0 <= b < r.len() && a != b implies r[a]
            != r[b] by {
            if a < b {
                assert(r[a] < r[b]);
            } else {
                assert(r[b] < r[a]);
            }
        }
    }
    r.unique_seq_to_set();
}

/// The distinct values of an extended sequence are those of the sequence
/// with the new value put at its place.
pub proof fn lemma_sorted_distinct_push(s: Seq<i32>, x: i32)
    ensures
        sorted_distinct(s.push(x)) == insert_distinct(sorted_distinct(s), x),
{
    assert(s.push(x).drop_last() =~= s);
}

/// A column in the listing of a dataset is a stored column of that
/// dataset, found under its identifier, and the dataset is stored. No two
/// columns of the listing share an identifier.
pub proof fn lemma_listed_column(store: Store, dataset_id: Seq<char>, i: int)
    requires
        consistent(store),
        0 <= i < columns_of(store, dataset_id).len(),
    ensures
        columns_of(store, dataset_id)[i].dataset_id == dataset_id,
        find_column(store, columns_of(store, dataset_id)[i].id) == Some(
            columns_of(store, dataset_id)[i],
        ),
        find_dataset(store, dataset_id) is Some,
        distinct_by(columns_of(store, dataset_id), column_id()),
{
    let kept = store.columns.filter(column_in(dataset_id));
    let listed = columns_of(store, dataset_id);
    let column = listed[i];
    assert(listed.contains(column));
    lemma_sort_by_rank_contains(kept, by_position(), column);
    let k = choose|k: int| 0 <= k < kept.len() && kept[k] == column;
    let o = lemma_filter_origin(store.columns, column_in(dataset_id), k);
    lemma_column_index_unique(store, o);
    assert(find_dataset(store, store.columns[o].dataset_id) is Some);
    lemma_filter_distinct(store.columns, column_in(dataset_id), column_id());
    lemma_sort_by_rank_distinct(kept, by_position(), column_id());
}

/// Two fields of a table that go to the same key are the same field.
pub proof fn lemma_import_key_injective(
    listed: Seq<ColumnView>,
    dataset_id: Seq<char>,
    r1: int,
    c1: int,
    r2: int,
    c2: int,
)
    requires
        distinct_by(listed, column_id()),
        0 <= r1 <= i32::MAX,
        0 <= r2 <= i32::MAX,
        0 <= c1 < listed.len(),
        0 <= c2 < listed.len(),
        import_key(listed, dataset_id, r1, c1) == import_key(listed, dataset_id, r2, c2),
    ensures
        r1 == r2,
        c1 == c2,
{
    if c1 < c2 {
        assert(column_id()(listed[c1]) != column_id()(listed[c2]));
    } else if c2 < c1 {
        assert(column_id()(listed[c2]) != column_id()(listed[c1]));
    }
}

/// A row index is one of a dataset's exactly when a stored cell of the
/// dataset has it.
pub proof fn lemma_row_index_set(store: Store, dataset_id: Seq<char>, row_index: i32)
    ensures
        row_index_set(store, dataset_id).contains(row_index) <==> exists|i: int|
            0 <= i < store.cells.len() && (#[trigger] store.cells[i]).dataset_id == dataset_id
                && store.cells[i].row_index == row_index,
        row_index_set(store, dataset_id).finite(),
        row_indices(store, dataset_id).len() == row_index_set(store, dataset_id).len(),
{
    let kept = cells_of_dataset(store, dataset_id);
    let values = kept.map_values(row_index_of());
    vstd::seq_lib::seq_to_set_is_finite(values);
    lemma_sorted_distinct(values);
    if values.contains(row_index) {
        let k = choose|k: int| 0 <= k < values.len() && values[k] == row_index;
        let o = lemma_filter_origin(store.cells, cell_in(dataset_id), k);
        assert(store.cells[o].dataset_id == dataset_id && store.cells[o].row_index == row_index);
    }
    if exists|i: int|
        0 <= i < store.cells.len() && (#[trigger] store.cells[i]).dataset_id == dataset_id
            && store.cells[i].row_index == row_index {
        let i = choose|i: int|
            0 <= i < store.cells.len() && (#[trigger] store.cells[i]).dataset_id == dataset_id
                && store.cells[i].row_index == row_index;
        assert(store.cells.contains(store.cells[i]));
        lemma_filter_member(store.cells, cell_in(dataset_id), store.cells[i]);
        let k = choose|k: int| 0 <= k < kept.len() && kept[k] == store.cells[i];
        assert(values[k] == row_index);
    }
}

/// Putting a cell into the store takes no row away from any dataset.
pub proof fn lemma_with_cell_keeps_rows(store: Store, cell: CellView, dataset_id: Seq<char>)
    ensures
        row_index_set(store, dataset_id).subset_of(row_index_set(with_cell(store, cell), dataset_id)),
        row_indices(store, dataset_id).len() <= row_indices(with_cell(store, cell), dataset_id).len(),
{
    let after = with_cell(store, cell);
    let at = first_index(store.cells, cell_at_key(key_of(cell)));
    lemma_first_index(store.cells, cell_at_key(key_of(cell)));
    assert forall|r: i32| row_index_set(store, dataset_id).contains(r) implies row_index_set(
        after,
        dataset_id,
    ).contains(r) by {
        lemma_row_index_set(store, dataset_id, r);
        lemma_row_index_set(after, dataset_id, r);
        let i = choose|i: int|
            0 <= i < store.cells.len() && (#[trigger] store.cells[i]).dataset_id == dataset_id
                && store.cells[i].row_index == r;
        if i == at {
            assert(key_of(store.cells[i]) == key_of(cell));
            assert(after.cells[i] == cell);
        } else {
            assert(after.cells[i] == store.cells[i]);
        }
        assert(after.cells[i].dataset_id == dataset_id && after.cells[i].row_index == r);
    }
    lemma_row_index_set(store, dataset_id, 0);
    lemma_row_index_set(after, dataset_id, 0);
    vstd::set_lib::lemma_len_subset(
        row_index_set(store, dataset_id),
        row_index_set(after, dataset_id),
    );
}

/// A dataset that has a column and more than `offset` rows shows exactly
/// one row on the page of one row at `offset`, and the dataset is stored.
pub proof fn lemma_single_row_page(store: Store, dataset_id: Seq<char>, offset: i32)
    requires
        consistent(store),
        columns_of(store, dataset_id).len() > 0,
        0 <= offset < row_indices(store, dataset_id).len(),
    ensures
        table_view_of(store, dataset_id, Some(1i32), Some(offset)) is Some,
        rows_page(store, dataset_id, Some(1i32), Some(offset)).len() == 1,
{
    lemma_listed_column(store, dataset_id, 0);
}

/// The map of cells by column has a column exactly when one of the cells
/// is of that column, and then holds one of the cells of that column.
pub proof fn lemma_cells_by_column(cells: Seq<CellView>, column_id: Seq<char>)
    ensures
        cells_by_column(cells).contains_key(column_id) <==> exists|i: int|
            0 <= i < cells.len() && (#[trigger] cells[i]).column_id == column_id,
        cells_by_column(cells).contains_key(column_id) ==> exists|i: int|
            0 <= i < cells.len() && (#[trigger] cells[i]).column_id == column_id
                && cells_by_column(cells)[column_id] == cells[i],
    decreases cells.len(),
{
    if cells.len() > 0 {
        let front = cells.drop_last();
        lemma_cells_by_column(front, column_id);
        if cells.last().column_id == column_id {
            assert(cells[cells.len() - 1].column_id == column_id);
        } else if cells_by_column(front).contains_key(column_id) {
            let i = choose|i: int|
                0 <= i < front.len() && (#[trigger] front[i]).column_id == column_id
                    && cells_by_column(front)[column_id] == front[i];
            assert(cells[i] == front[i]);
        }
        if exists|i: int| 0 <= i < cells.len() && (#[trigger] cells[i]).column_id == column_id {
            let i = choose|i: int|
                0 <= i < cells.len() && (#[trigger] cells[i]).column_id == column_id;
            if i < cells.len() - 1 {
                assert(front[i].column_id == column_id);
            }
        }
    }
}

/// In a consistent store, a row holds for a column the cell that is stored
/// under the key of the row's dataset, the column and the row's index, and
/// holds nothing for the column where no cell is stored under that key.
pub proof fn lemma_row_at_cell(
    store: Store,
    dataset_id: Seq<char>,
    row_index: i32,
    column_id: Seq<char>,
)
    requires
        consistent(store),
    ensures
        row_at(store, dataset_id, row_index).cells.contains_key(column_id) == find_cell(
            store,
            CellKey { dataset_id, column_id, row_index },
        ) is Some,
        find_cell(store, CellKey { dataset_id, column_id, row_index }) matches Some(cell) ==> row_at(
            store,
            dataset_id,
            row_index,
        ).cells[column_id] == cell,
{
    let key = CellKey { dataset_id, column_id, row_index };
    let of_dataset = cells_of_dataset(store, dataset_id);
    let of_row = of_dataset.filter(cell_in_row(row_index));
    let map = cells_by_column(of_row);
    lemma_cells_by_column(of_row, column_id);
    lemma_first_index(store.cells, cell_at_key(key));
    if map.contains_key(column_id) {
        let i = choose|i: int|
            0 <= i < of_row.len() && (#[trigger] of_row[i]).column_id == column_id && map[column_id]
                == of_row[i];
        let j = lemma_filter_origin(of_dataset, cell_in_row(row_index), i);
        let k = lemma_filter_origin(store.cells, cell_in(dataset_id), j);
        assert(key_of(store.cells[k]) == key);
        lemma_cell_index_unique(store, key, k);
    }
    if find_cell(store, key) is Some {
        let k = first_index(store.cells, cell_at_key(key));
        let cell = store.cells[k];
        assert(store.cells.contains(cell));
        lemma_filter_member(store.cells, cell_in(dataset_id), cell);
        lemma_filter_member(of_dataset, cell_in_row(row_index), cell);
        let i = choose|i: int| 0 <= i < of_row.len() && of_row[i] == cell;
        assert(of_row[i].column_id == column_id);
    }
}

/// A strictly ascending sequence of `s.len()` indices below `s.len()` is
/// the sequence 0, 1, 2 and so on.
pub proof fn lemma_ascending_is_range(s: Seq<i32>)
    requires
        strictly_ascending(s),
        forall|i: int| 0 <= i < s.len() ==> 0 <= #[trigger] s[i] < s.len(),
    ensures
        forall|i: int| 0 <= i < s.len() ==> #[trigger] s[i] == i,
{
    assert forall|i: int| 0 <= i < s.len() implies #[trigger] s[i] == i by {
        lemma_ascending_lower(s, i);
        lemma_ascending_upper(s, i);
    }
}

proof fn lemma_ascending_lower(s: Seq<i32>, i: int)
    requires
        strictly_ascending(s),
        0 <= i < s.len(),
        0 <= s[0],
    ensures
        s[i] >= i,
    decreases i,
{
    if i > 0 {
        lemma_ascending_lower(s, i - 1);
        assert(s[i - 1] < s[i]);
    }
}

proof fn lemma_ascending_upper(s: Seq<i32>, i: int)
    requires
        strictly_ascending(s),
        0 <= i < s.len(),
        s[s.len() - 1] < s.len(),
    ensures
        s[i] <= i,
    decreases s.len() - i,
{
    if i < s.len() - 1 {
        lemma_ascending_upper(s, i + 1);
        assert(s[i] < s[i + 1]);
    }
}

/// An import that stopped at a header stays as it is for the headers
/// behind it.
pub proof fn lemma_columns_refused(
    store: Store,
    dataset_id: Seq<char>,
    header: Seq<DrawnFieldView>,
    n: int,
    m: int,
)
    requires
        0 <= n <= m,
        columns_imported(store, dataset_id, header, n).refusal is Some,
    ensures
        columns_imported(store, dataset_id, header, m)
            == columns_imported(store, dataset_id, header, n),
    decreases m - n,
{
    if n < m {
        lemma_columns_refused(store, dataset_id, header, n, m - 1);
    }
}

/// An import that stopped at a field stays as it is for the fields behind
/// it.
pub proof fn lemma_cells_refused(
    store: Store,
    listed: Seq<ColumnView>,
    dataset_id: Seq<char>,
    rows: Seq<Seq<DrawnFieldView>>,
    r0: int,
    c0: int,
    r1: int,
    c1: int,
)
    requires
        0 <= r0 <= r1,
        0 <= c0,
        0 <= c1,
        r0 == r1 ==> c0 <= c1,
        r0 < r1 ==> c0 <= width(listed, rows[r0]),
        cells_imported(store, listed, dataset_id, rows, r0, c0).refusal
            is Some,
    ensures
        cells_imported(store, listed, dataset_id, rows, r1, c1)
            == cells_imported(store, listed, dataset_id, rows, r0, c0),
    decreases r1, c1,
{
    if r0 == r1 && c0 == c1 {
    } else if c1 > 0 {
        lemma_cells_refused(store, listed, dataset_id, rows, r0, c0, r1, c1 - 1);
    } else {
        lemma_cells_refused(
            store,
            listed,
            dataset_id,
            rows,
            r0,
            c0,
            r1 - 1,
            width(listed, rows[r1 - 1]),
        );
    }
}

} // verus!
