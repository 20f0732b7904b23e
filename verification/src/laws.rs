//! What holds of the library across its operations, each stated over the
//! specifications that the operations' own contracts use, and proved.

use crate::csv_io::{column_name, exported, exported_row, row_exporter};
use crate::database::lemmas::{
    lemma_ascending_is_range, lemma_cell_index_unique, lemma_row_at_cell, lemma_row_index_set,
    lemma_single_row_page, lemma_sorted_distinct, lemma_with_cell, lemma_with_dataset,
    lemma_without_dataset,
};
use crate::seqs::sort_by_rank;
use crate::database::model::{
    by_position, cell_at_key, cell_in, cell_refusal, cells_of_column, cells_of_dataset, column_in,
    column_is, columns_of, consistent, find_cell, find_dataset, header_column, import_key, imported,
    in_table, key_of, oversized, read_before, row_at, row_index_of, row_index_set, row_indices,
    rows_of, table_view_of, with_cell, with_dataset, without_dataset, written_key, Store,
};
use crate::database::models::{row_text, CellStatus, CellView, ColumnView, DatasetView};
use crate::generator::{
    advanced, decision, lemma_count_push, lemma_counts_add_up, settled, Decision, GenerationError,
    GenerationRun, GenerationStep, RowOutcome, RunView,
};
use crate::seqs::{
    first_index, lemma_filter_all, lemma_filter_member, lemma_first_index, lemma_sort_by_rank,
    lemma_sort_by_rank_ascending,
};
use vstd::prelude::*;

verus! {

/// A dataset that was created is found under its identifier, with the name,
/// the description and the timestamps it was created with.
pub proof fn law_created_dataset_is_found(store: Store, dataset: DatasetView)
    requires
        consistent(store),
        find_dataset(store, dataset.id) is None,
    ensures
        consistent(with_dataset(store, dataset)),
        find_dataset(with_dataset(store, dataset), dataset.id) == Some(dataset),
{
    lemma_with_dataset(store, dataset);
}

/// Deleting a dataset deletes its columns and its cells: afterwards the
/// dataset is not found, it has no column, and none of the columns it had
/// has a cell.
pub proof fn law_delete_dataset_cascades(store: Store, dataset_id: Seq<char>)
    requires
        consistent(store),
    ensures
        consistent(without_dataset(store, dataset_id)),
        find_dataset(without_dataset(store, dataset_id), dataset_id) is None,
        columns_of(without_dataset(store, dataset_id), dataset_id) == Seq::<ColumnView>::empty(),
        forall|i: int|
            0 <= i < store.columns.len() && (#[trigger] store.columns[i]).dataset_id == dataset_id
                ==> cells_of_column(without_dataset(store, dataset_id), store.columns[i].id)
                == Seq::<CellView>::empty(),
{
    lemma_without_dataset(store, dataset_id);
}

/// Writing a cell a second time under the same key overwrites it whole:
/// the store holds as many cells as after the first write, the key finds
/// the second cell, and no cell under the key is any other.
pub proof fn law_upsert_overwrites(store: Store, first: CellView, second: CellView)
    requires
        consistent(store),
        key_of(first) == key_of(second),
        cell_refusal(store, first) is None,
        cell_refusal(with_cell(store, first), second) is None,
    ensures
        ({
            let once = with_cell(store, first);
            let twice = with_cell(once, second);
            &&& consistent(twice)
            &&& twice.cells.len() == once.cells.len()
            &&& find_cell(twice, key_of(second)) == Some(second)
            &&& forall|i: int|
                0 <= i < twice.cells.len() && key_of(#[trigger] twice.cells[i]) == key_of(second)
                    ==> twice.cells[i] == second
        }),
{
    let once = with_cell(store, first);
    let twice = with_cell(once, second);
    lemma_with_cell(store, first);
    lemma_with_cell(once, second);
    assert forall|i: int|
        0 <= i < twice.cells.len() && key_of(#[trigger] twice.cells[i]) == key_of(
            second,
        ) implies twice.cells[i] == second by {
        lemma_cell_index_unique(twice, key_of(second), i);
    }
    lemma_first_index(once.cells, cell_at_key(key_of(second)));
}

/// Writing the same cell twice is writing it once.
pub proof fn law_upsert_idempotent(store: Store, cell: CellView)
    requires
        consistent(store),
        cell_refusal(store, cell) is None,
    ensures
        cell_refusal(with_cell(store, cell), cell) is None,
        with_cell(with_cell(store, cell), cell) == with_cell(store, cell),
{
    let once = with_cell(store, cell);
    lemma_with_cell(store, cell);
    let at = first_index(once.cells, cell_at_key(key_of(cell)));
    lemma_first_index(once.cells, cell_at_key(key_of(cell)));
    lemma_first_index(once.cells, crate::database::model::cell_has_id(cell.id));
    assert(once.cells.update(at, cell) =~= once.cells);
    let by_id = first_index(once.cells, crate::database::model::cell_has_id(cell.id));
    if by_id < once.cells.len() && key_of(once.cells[by_id]) != key_of(cell) {
        assert(once.cells[at].id == cell.id);
        if by_id < at {
            assert(crate::database::model::cell_id()(once.cells[by_id])
                != crate::database::model::cell_id()(once.cells[at]));
        } else if at < by_id {
            assert(crate::database::model::cell_id()(once.cells[at])
                != crate::database::model::cell_id()(once.cells[by_id]));
        }
    }
}

/// The rows of a dataset are counted once each, whichever of its columns
/// have a cell there: the listing of row indices is as long as the set of
/// row indices of the dataset's cells, and a row index is in that set
/// exactly when some cell of the dataset has it.
pub proof fn law_rows_are_distinct_row_indices(store: Store, dataset_id: Seq<char>, row_index: i32)
    ensures
        row_indices(store, dataset_id).len() == row_index_set(store, dataset_id).len(),
        row_index_set(store, dataset_id).contains(row_index) <==> exists|i: int|
            0 <= i < store.cells.len() && (#[trigger] store.cells[i]).dataset_id == dataset_id
                && store.cells[i].row_index == row_index,
{
    lemma_row_index_set(store, dataset_id, row_index);
}

/// Every row that a run has taken was filled, failed or skipped; a run that
/// is finished and skipped no row has filled or failed every row it set out
/// to fill.
pub proof fn law_run_accounts_for_every_row(run: RunView)
    requires
        run.wf(),
    ensures
        run.completed() + run.failed() + run.skipped() == run.next_row(),
        run.finished() && run.skipped() == 0 ==> run.completed() + run.failed() == run.total,
{
    lemma_counts_add_up(run.log);
}

/// A run that finds what it needs in the store takes its next row: it
/// neither skips the row nor stops for want of the dataset.
pub proof fn law_provided_run_takes_its_row(run: RunView, store: Store)
    requires
        run.wf(),
        !run.finished(),
        run.provided_by(store),
    ensures
        decision(run, store) is Generate || decision(run, store) is Fail,
{
    lemma_first_index(columns_of(store, run.dataset_id), column_is(run.column_id));
    lemma_single_row_page(store, run.dataset_id, run.next_row() as i32);
}

/// A step of a run that finds what it needs in the store skips nothing and
/// leaves the store providing what the run needs.
pub proof fn law_step_keeps_provision(
    run: RunView,
    before: Store,
    after: Store,
    step: Result<GenerationStep, GenerationError>,
)
    requires
        run.wf(),
        run.provided_by(before),
        advanced(run, before, after, step),
    ensures
        step != Err::<GenerationStep, GenerationError>(GenerationError::DatasetNotFound),
        step matches Ok(GenerationStep::Continue(next)) ==> next@.provided_by(after)
            && next@.skipped() == run.skipped(),
        step matches Ok(GenerationStep::Generate(pending)) ==> pending.run().provided_by(after),
        step matches Ok(GenerationStep::Finished(progress)) ==> run.skipped() == 0
            ==> progress.completed + progress.failed == progress.total,
{
    lemma_counts_add_up(run.log);
    if !run.finished() {
        law_provided_run_takes_its_row(run, before);
        if let Decision::Fail(message) = decision(run, before) {
            lemma_count_push(run.log, RowOutcome::Failed(message), crate::generator::is_skipped());
        }
    }
}

/// Recording an answer leaves the store providing what the run needs, and
/// skips nothing.
pub proof fn law_record_keeps_provision(
    run: RunView,
    before: Store,
    after: Store,
    outcome: RowOutcome,
    next: GenerationRun,
)
    requires
        run.provided_by(before),
        !(outcome is Skipped),
        settled(run, before, after, outcome, Ok(next)),
    ensures
        next@.provided_by(after),
        next@.skipped() == run.skipped(),
{
    lemma_count_push(run.log, outcome, crate::generator::is_skipped());
}

/// What happens to a later row leaves the rows before it alone: whichever
/// way the next row is settled, every row that the run had filled still has
/// its completed cell with the generated value.
pub proof fn law_settled_rows_stay(
    run: RunView,
    before: Store,
    after: Store,
    outcome: RowOutcome,
    next: GenerationRun,
    row: int,
)
    requires
        run.wf(),
        run.recorded_in(before),
        settled(run, before, after, outcome, Ok(next)),
        0 <= row < run.next_row(),
    ensures
        run.log[row] matches RowOutcome::Completed(text) ==> (match find_cell(
            after,
            run.key(row),
        ) {
            Some(cell) => cell.value == Some(text) && cell.status == CellStatus::Completed,
            None => false,
        }),
{
    assert(next@.log[row] == run.log[row]);
    assert(next@.key(row) == run.key(row));
}

/// Whether every record of `data` has as many fields as the first.
pub open spec fn rectangular(data: Seq<Seq<Seq<char>>>) -> bool {
    forall|r: int| 0 <= r < data.len() ==> (#[trigger] data[r]).len() == data[0].len()
}

/// Whether `after` is `before` with the rectangular table `data`, of at
/// least one header, imported into a dataset that had neither columns nor
/// cells.
pub open spec fn imported_afresh(
    before: Store,
    after: Store,
    dataset_id: Seq<char>,
    data: Seq<Seq<Seq<char>>>,
) -> bool {
    &&& consistent(before)
    &&& consistent(after)
    &&& find_dataset(before, dataset_id) is Some
    &&& columns_of(before, dataset_id).len() == 0
    &&& cells_of_dataset(before, dataset_id).len() == 0
    &&& imported(before, after, dataset_id, data)
    &&& !oversized(data)
    &&& rectangular(data)
    &&& data[0].len() > 0
}

/// Columns made of headers, put behind columns of which none belongs to the
/// dataset, are the columns of the dataset, in the order of the headers.
proof fn lemma_header_columns_listed(
    old_columns: Seq<ColumnView>,
    new_columns: Seq<ColumnView>,
    dataset_id: Seq<char>,
    headers: Seq<Seq<char>>,
)
    requires
        old_columns.filter(column_in(dataset_id)).len() == 0,
        new_columns.len() == headers.len(),
        forall|j: int|
            0 <= j < new_columns.len() ==> header_column(
                #[trigger] new_columns[j],
                dataset_id,
                headers[j],
                j,
            ),
    ensures
        sort_by_rank((old_columns + new_columns).filter(column_in(dataset_id)), by_position())
            == new_columns,
        new_columns.map_values(column_name()) == headers,
{
    let in_dataset = column_in(dataset_id);
    assert(old_columns.filter(in_dataset) =~= Seq::<ColumnView>::empty());
    Seq::filter_distributes_over_add(old_columns, new_columns, in_dataset);
    lemma_filter_all(new_columns, in_dataset);
    assert((old_columns + new_columns).filter(in_dataset) =~= new_columns);
    lemma_sort_by_rank_ascending(new_columns, by_position());
    assert(new_columns.map_values(column_name()) =~= headers);
}

/// After a fresh import the columns of the dataset are the columns made of
/// the headers, in the order of the headers.
proof fn lemma_imported_columns(
    before: Store,
    after: Store,
    dataset_id: Seq<char>,
    data: Seq<Seq<Seq<char>>>,
)
    requires
        imported_afresh(before, after, dataset_id, data),
    ensures
        columns_of(after, dataset_id).len() == data[0].len(),
        columns_of(after, dataset_id).map_values(column_name()) == data[0],
{
    let headers = data[0];
    let old_count = before.columns.len() as int;
    let added = after.columns.skip(old_count);
    lemma_sort_by_rank(before.columns.filter(column_in(dataset_id)), by_position());
    assert(after.columns =~= before.columns + added);
    assert forall|j: int| 0 <= j < added.len() implies header_column(
        #[trigger] added[j],
        dataset_id,
        headers[j],
        j,
    ) by {
        assert(header_column(after.columns[old_count + j], dataset_id, headers[j], j));
    }
    lemma_header_columns_listed(before.columns, added, dataset_id, headers);
}

/// After a fresh import a cell of the dataset stands in a row of the table.
proof fn lemma_imported_cell_in_table(
    before: Store,
    after: Store,
    dataset_id: Seq<char>,
    data: Seq<Seq<Seq<char>>>,
    i: int,
)
    requires
        imported_afresh(before, after, dataset_id, data),
        0 <= i < after.cells.len(),
        after.cells[i].dataset_id == dataset_id,
    ensures
        0 <= after.cells[i].row_index < data.len() - 1,
{
    let rows = data.skip(1);
    let m = rows.len() as int;
    let listed = columns_of(after, dataset_id);
    let cell = after.cells[i];
    let key = key_of(cell);
    lemma_cell_index_unique(after, key, i);
    if !written_key(listed, dataset_id, rows, m, 0, key) {
        assert(find_cell(before, key) == Some(cell));
        lemma_first_index(before.cells, cell_at_key(key));
        let k = first_index(before.cells, cell_at_key(key));
        assert(before.cells.contains(before.cells[k]));
        lemma_filter_member(before.cells, cell_in(dataset_id), before.cells[k]);
        let f = choose|f: int|
            0 <= f < cells_of_dataset(before, dataset_id).len() && cells_of_dataset(
                before,
                dataset_id,
            )[f] == before.cells[k];
    } else {
        let (r, c) = choose|r: int, c: int|
            in_table(listed, rows, r, c) && read_before(r, c, m, 0) && #[trigger] import_key(
                listed,
                dataset_id,
                r,
                c,
            ) == key;
        assert(cell.row_index == r as i32);
    }
}

/// After a fresh import every row of the table has a cell in the dataset.
proof fn lemma_imported_row_present(
    before: Store,
    after: Store,
    dataset_id: Seq<char>,
    data: Seq<Seq<Seq<char>>>,
    x: i32,
)
    requires
        imported_afresh(before, after, dataset_id, data),
        0 <= x < data.len() - 1,
    ensures
        row_index_set(after, dataset_id).contains(x),
{
    let rows = data.skip(1);
    let listed = columns_of(after, dataset_id);
    lemma_imported_columns(before, after, dataset_id, data);
    let r = x as int;
    assert(rows[r] == data[r + 1]);
    assert(in_table(listed, rows, r, 0));
    let key = import_key(listed, dataset_id, r, 0);
    assert(find_cell(after, key) is Some);
    lemma_first_index(after.cells, cell_at_key(key));
    lemma_row_index_set(after, dataset_id, x);
    let k = first_index(after.cells, cell_at_key(key));
    assert(after.cells[k].dataset_id == dataset_id && after.cells[k].row_index == x);
}

/// After a fresh import the rows of the dataset are the rows 0, 1, 2 and
/// so on of the table.
proof fn lemma_imported_rows(
    before: Store,
    after: Store,
    dataset_id: Seq<char>,
    data: Seq<Seq<Seq<char>>>,
)
    requires
        imported_afresh(before, after, dataset_id, data),
    ensures
        row_indices(after, dataset_id).len() == data.len() - 1,
        forall|i: int| 0 <= i < data.len() - 1 ==> #[trigger] row_indices(after, dataset_id)[i] == i,
{
    let m = data.len() - 1;
    let indices = row_indices(after, dataset_id);
    let found = row_index_set(after, dataset_id);
    lemma_sorted_distinct(cells_of_dataset(after, dataset_id).map_values(row_index_of()));
    let range = Set::new(|x: i32| 0 <= x < m);
    assert forall|x: i32| range.contains(x) implies found.contains(x) by {
        lemma_imported_row_present(before, after, dataset_id, data, x);
    }
    assert forall|x: i32| found.contains(x) implies range.contains(x) by {
        lemma_row_index_set(after, dataset_id, x);
        let i = choose|i: int|
            0 <= i < after.cells.len() && (#[trigger] after.cells[i]).dataset_id == dataset_id
                && after.cells[i].row_index == x;
        lemma_imported_cell_in_table(before, after, dataset_id, data, i);
    }
    assert(found =~= range);
    let counted = Seq::new(m as nat, |i: int| i as i32);
    assert(counted.to_set() =~= range) by {
        assert forall|x: i32| range.contains(x) implies counted.to_set().contains(x) by {
            assert(counted[x as int] == x);
        }
    }
    assert(counted.no_duplicates());
    counted.unique_seq_to_set();
    assert(indices.len() == m);
    assert forall|i: int| 0 <= i < indices.len() implies 0 <= #[trigger] indices[i]
        < indices.len() by {
        assert(indices.contains(indices[i]));
        assert(indices.to_set().contains(indices[i]));
    }
    lemma_ascending_is_range(indices);
}

/// After a fresh import a row shows for each column the field of its
/// record.
proof fn lemma_imported_field(
    before: Store,
    after: Store,
    dataset_id: Seq<char>,
    data: Seq<Seq<Seq<char>>>,
    r: int,
    c: int,
)
    requires
        imported_afresh(before, after, dataset_id, data),
        0 <= r < data.len() - 1,
        0 <= c < data[0].len(),
    ensures
        c < columns_of(after, dataset_id).len(),
        row_text(row_at(after, dataset_id, r as i32), columns_of(after, dataset_id)[c].id)
            == data[r + 1][c],
{
    let rows = data.skip(1);
    let listed = columns_of(after, dataset_id);
    lemma_imported_columns(before, after, dataset_id, data);
    assert(rows[r] == data[r + 1]);
    assert(in_table(listed, rows, r, c));
    let key = import_key(listed, dataset_id, r, c);
    lemma_row_at_cell(after, dataset_id, r as i32, listed[c].id);
    assert(find_cell(after, key) is Some);
}

/// What was imported is what is exported: a rectangular table with at
/// least one header, imported into a dataset that had neither columns nor
/// cells, comes back from the export of the whole dataset with the same
/// header, the same rows in the same order, and the same values.
pub proof fn law_import_then_export(
    before: Store,
    after: Store,
    dataset_id: Seq<char>,
    data: Seq<Seq<Seq<char>>>,
)
    requires
        imported_afresh(before, after, dataset_id, data),
    ensures
        table_view_of(after, dataset_id, None, None) is Some,
        exported(table_view_of(after, dataset_id, None, None)->0) == data,
{
    let rows = data.skip(1);
    let m = rows.len() as int;
    let listed = columns_of(after, dataset_id);
    lemma_imported_columns(before, after, dataset_id, data);
    lemma_imported_rows(before, after, dataset_id, data);
    let table = table_view_of(after, dataset_id, None, None)->0;
    assert(table.columns == listed);
    assert(table.rows =~= rows_of(after, dataset_id));
    assert(table.rows.len() == m);
    assert forall|r: int| 0 <= r < m implies exported_row(#[trigger] table.rows[r], listed)
        == rows[r] by {
        assert(table.rows[r] == row_at(after, dataset_id, r as i32));
        assert(rows[r] == data[r + 1]);
        assert forall|c: int| 0 <= c < listed.len() implies row_text(
            table.rows[r],
            (#[trigger] listed[c]).id,
        ) == rows[r][c] by {
            lemma_imported_field(before, after, dataset_id, data, r, c);
        }
        assert(exported_row(table.rows[r], listed) =~= rows[r]);
    }
    assert(table.rows.map_values(row_exporter(listed)) =~= rows);
    assert(exported(table) =~= data);
}

} // verus!
