//! Import of a rectangular table into a dataset, and export of a table view
//! as a rectangular table.

use crate::database::lemmas::{
    lemma_cells_refused, lemma_columns_refused, lemma_import_key_injective, lemma_listed_column,
    lemma_with_cell,
};
use crate::database::model::{
    columns_of, find_cell, find_dataset, header_column, holds_value, import_key, imported, in_table,
    cells_imported, columns_imported, field_cell, header_column_of, import_result, key_of,
    oversized, read_before, refusal_of, texts, width, written_key, CellKey, Import,
};
use crate::database::models::{Cell, Column, ColumnType, DrawnField, DrawnFieldView};
use crate::database::{Database, StorageError};
use crate::stamp::{fresh_id, now};
use vstd::prelude::*;

verus! {

impl Database {
    /// Imports a table into `dataset_id`. The first row holds the headers:
    /// each becomes an input column, at the positions 0, 1, 2 and so on.
    /// Each field of each further row becomes a completed cell with the
    /// field as its value, in the column that stands at the field's place
    /// among the columns of the dataset in order of position, at the row's
    /// index among the further rows; a field without such a column is
    /// dropped.
    ///
    /// Each field brings the identifier and the time of the record that it
    /// becomes.
    ///
    /// An empty table is refused, and so is one with more rows or headers
    /// than an index can number; the store is then unchanged. Else records
    /// are stored one after the other, and the import stops at the first
    /// that the store refuses: because the dataset is not stored, which
    /// leaves the store unchanged, or because an identifier is taken or the
    /// store is full, which leaves what was imported until then.
    pub fn import_drawn(&mut self, dataset_id: &str, table: Vec<Vec<DrawnField>>) -> (outcome:
        Result<(), StorageError>)
        requires
            old(self).wf(),
        ensures
            final(self).wf(),
            final(self)@.datasets == old(self)@.datasets,
            outcome is Ok ==> imported(
                old(self)@,
                final(self)@,
                dataset_id@,
                texts(table.deep_view()),
            ),
            outcome == Err::<(), StorageError>(StorageError::EmptyImport) <==> table.len() == 0,
            outcome == Err::<(), StorageError>(StorageError::OversizedImport) <==> oversized(
                texts(table.deep_view()),
            ),
            outcome matches Err(error) ==> {
                &&& error != StorageError::UnknownColumn
                &&& error == StorageError::EmptyImport || error == StorageError::OversizedImport
                    || error == StorageError::UnknownDataset ==> final(self)@ == old(self)@
                &&& error == StorageError::UnknownDataset ==> find_dataset(old(self)@, dataset_id@)
                    is None
            },
            find_dataset(old(self)@, dataset_id@) is None && table.len() > 0 && !oversized(
                texts(table.deep_view()),
            ) && table@[0].len() > 0 ==> outcome is Err,
            table.len() > 0 && !oversized(texts(table.deep_view())) && table@[0].len() == 0 && (
            table.len() == 1 || columns_of(old(self)@, dataset_id@).len() == 0) ==> outcome is Ok,
            import_result(old(self)@, dataset_id@, table.deep_view()) == (Import {
                store: final(self)@,
                refusal: refusal_of(outcome),
            }),
    {
        if table.len() == 0 {
            return Err(StorageError::EmptyImport);
        }
        let ghost fields = table.deep_view();
        let ghost data = texts(table.deep_view());
        let ghost headers = data[0];
        let ghost rows = data.skip(1);
        let ghost before = self@;
        if table.len() - 1 > 2147483647 || table[0].len() > 2147483647 {
            return Err(StorageError::OversizedImport);
        }
        let header_count = table[0].len();
        assert(data[0].len() == header_count);
        let mut i: usize = 0;
        while i < header_count
            invariant
                i <= header_count,
                table.len() > 0,
                !oversized(texts(table.deep_view())),
                header_count == table@[0].len(),
                header_count <= i32::MAX,
                data == texts(table.deep_view()),
                headers == data[0],
                self.wf(),
                before == old(self)@,
                self@.datasets == before.datasets,
                self@.cells == before.cells,
                fields == table.deep_view(),
                columns_imported(before, dataset_id@, fields[0], i as int) == (Import {
                    store: self@,
                    refusal: None,
                }),
                self@.columns.len() == before.columns.len() + i,
                self@.columns.take(before.columns.len() as int) == before.columns,
                i == 0 ==> self@ == before,
                i > 0 ==> find_dataset(before, dataset_id@) is Some,
                forall|k: int|
                    0 <= k < i ==> header_column(
                        #[trigger] self@.columns[before.columns.len() + k],
                        dataset_id@,
                        headers[k],
                        k,
                    ),
            decreases header_count - i,
        {
            let column = Column::with_id(
                table[0][i].id.clone(),
                String::from_str(dataset_id),
                table[0][i].text.clone(),
                ColumnType::Input,
                i as i32,
                table[0][i].at,
            );
            let ghost at_entry = self@;
            proof {
                assert(column@.name == headers[i as int]);
                assert(column@ == header_column_of(dataset_id@, fields[0][i as int], i as int));
            }
            match self.add_column(column) {
                Ok(stored) => {
                    proof {
                        let after = self@;
                        assert(after.columns == at_entry.columns.push(stored@));
                        assert(after.columns.take(before.columns.len() as int)
                            =~= at_entry.columns.take(before.columns.len() as int));
                        assert forall|k: int| 0 <= k < i + 1 implies header_column(
                            #[trigger] after.columns[before.columns.len() + k],
                            dataset_id@,
                            headers[k],
                            k,
                        ) by {
                            if k < i {
                                assert(after.columns[before.columns.len() + k]
                                    == at_entry.columns[before.columns.len() + k]);
                            }
                        }
                    }
                },
                Err(error) => {
                    proof {
                        lemma_columns_refused(
                            before,
                            dataset_id@,
                            fields[0],
                            i + 1,
                            header_count as int,
                        );
                    }
                    return Err(error);
                },
            }
            i += 1;
        }
        let ghost mid = self@;
        let ghost field_rows = fields.skip(1);
        let listed = self.list_columns(dataset_id);
        let row_count = table.len() - 1;
        let mut r: usize = 0;
        proof {
            assert(rows.len() == row_count);
        }
        while r < row_count
            invariant
                r <= row_count,
                !oversized(texts(table.deep_view())),
                row_count == table.len() - 1,
                row_count <= i32::MAX,
                data == texts(table.deep_view()),
                rows == data.skip(1),
                self.wf(),
                mid.columns.len() == before.columns.len() + header_count,
                self@.datasets == mid.datasets,
                self@.columns == mid.columns,
                mid.datasets == old(self)@.datasets,
                listed.deep_view() == columns_of(mid, dataset_id@),
                table@[0].len() == 0 ==> mid == old(self)@,
                fields == table.deep_view(),
                field_rows == fields.skip(1),
                table.len() > 0,
                columns_imported(old(self)@, dataset_id@, fields[0], fields[0].len() as int) == (
                Import { store: mid, refusal: None }),
                cells_imported(mid, listed.deep_view(), dataset_id@, field_rows, r as int, 0) == (
                Import { store: self@, refusal: None }),
                forall|y: int, x: int|
                    in_table(listed.deep_view(), rows, y, x) && read_before(y, x, r as int, 0)
                        ==> (match find_cell(
                        self@,
                        #[trigger] import_key(listed.deep_view(), dataset_id@, y, x),
                    ) {
                        Some(cell) => holds_value(cell, rows[y][x]),
                        None => false,
                    }),
                forall|key: CellKey|
                    !written_key(listed.deep_view(), dataset_id@, rows, r as int, 0, key)
                        ==> #[trigger] find_cell(self@, key) == find_cell(mid, key),
            decreases row_count - r,
        {
            let field_count = table[r + 1].len();
            let mut c: usize = 0;
            while c < field_count && c < listed.len()
                invariant
                    r < row_count,
                    !oversized(texts(table.deep_view())),
                    row_count == table.len() - 1,
                    row_count <= i32::MAX,
                    field_count == table@[r + 1].len(),
                    c <= field_count,
                    c <= listed.len(),
                    data == texts(table.deep_view()),
                    rows == data.skip(1),
                    self.wf(),
                    self@.datasets == mid.datasets,
                    self@.columns == mid.columns,
                    mid.datasets == old(self)@.datasets,
                    listed.deep_view() == columns_of(mid, dataset_id@),
                    table@[0].len() == 0 ==> mid == old(self)@,
                    fields == table.deep_view(),
                    field_rows == fields.skip(1),
                    table.len() > 0,
                    columns_imported(old(self)@, dataset_id@, fields[0], fields[0].len() as int)
                        == (Import { store: mid, refusal: None }),
                    cells_imported(
                        mid,
                        listed.deep_view(),
                        dataset_id@,
                        field_rows,
                        r as int,
                        c as int,
                    ) == (Import { store: self@, refusal: None }),
                    forall|y: int, x: int|
                        in_table(listed.deep_view(), rows, y, x) && read_before(
                            y,
                            x,
                            r as int,
                            c as int,
                        ) ==> (match find_cell(
                            self@,
                            #[trigger] import_key(listed.deep_view(), dataset_id@, y, x),
                        ) {
                            Some(cell) => holds_value(cell, rows[y][x]),
                            None => false,
                        }),
                    forall|key: CellKey|
                        !written_key(listed.deep_view(), dataset_id@, rows, r as int, c as int, key)
                            ==> #[trigger] find_cell(self@, key) == find_cell(mid, key),
                decreases field_count - c,
            {
                let cell = Cell::with_id(
                    table[r + 1][c].id.clone(),
                    String::from_str(dataset_id),
                    listed[c].id.clone(),
                    r as i32,
                    table[r + 1][c].at,
                ).with_value(table[r + 1][c].text.clone());
                let ghost at_entry = self@;
                let ghost views = listed.deep_view();
                let ghost key = import_key(views, dataset_id@, r as int, c as int);
                proof {
                    assert(rows[r as int] == data[r + 1]);
                    assert(fields.len() == table@.len());
                    assert(fields[r + 1] == table@[r + 1].deep_view());
                    assert(field_rows[r as int] == fields[r + 1]);
                    assert(field_rows[r as int][c as int] == table@[r + 1]@[c as int]@);
                    assert(views[c as int] == listed@[c as int]@);
                    assert(cell@ == field_cell(
                        dataset_id@,
                        views[c as int].id,
                        r as int,
                        field_rows[r as int][c as int],
                    ));
                    assert(key_of(cell@) == key);
                    assert(holds_value(cell@, rows[r as int][c as int]));
                    assert(columns_of(at_entry, dataset_id@) == views);
                    lemma_listed_column(at_entry, dataset_id@, c as int);
                }
                match self.upsert_cell(&cell) {
                    Ok(()) => {
                        proof {
                            lemma_with_cell(at_entry, cell@);
                            let after = self@;
                            assert forall|y: int, x: int|
                                in_table(views, rows, y, x) && read_before(
                                    y,
                                    x,
                                    r as int,
                                    c + 1,
                                ) implies (match find_cell(
                                after,
                                #[trigger] import_key(views, dataset_id@, y, x),
                            ) {
                                Some(cell) => holds_value(cell, rows[y][x]),
                                None => false,
                            }) by {
                                if y == r && x == c {
                                } else {
                                    if import_key(views, dataset_id@, y, x) == key {
                                        lemma_import_key_injective(
                                            views,
                                            dataset_id@,
                                            y,
                                            x,
                                            r as int,
                                            c as int,
                                        );
                                    }
                                    assert(read_before(y, x, r as int, c as int));
                                }
                            }
                            assert forall|other: CellKey|
                                !written_key(
                                    views,
                                    dataset_id@,
                                    rows,
                                    r as int,
                                    c + 1,
                                    other,
                                ) implies #[trigger] find_cell(after, other) == find_cell(
                                mid,
                                other,
                            ) by {
                                if other == key {
                                    assert(in_table(views, rows, r as int, c as int));
                                    assert(read_before(r as int, c as int, r as int, c + 1));
                                    assert(import_key(views, dataset_id@, r as int, c as int)
                                        == other);
                                }
                                if written_key(views, dataset_id@, rows, r as int, c as int, other) {
                                    let (y, x) = choose|y: int, x: int|
                                        in_table(views, rows, y, x) && read_before(
                                            y,
                                            x,
                                            r as int,
                                            c as int,
                                        ) && #[trigger] import_key(views, dataset_id@, y, x)
                                            == other;
                                    assert(read_before(y, x, r as int, c + 1));
                                }
                            }
                        }
                    },
                    Err(error) => {
                        proof {
                            lemma_cells_refused(
                                mid,
                                views,
                                dataset_id@,
                                field_rows,
                                r as int,
                                c + 1,
                                row_count as int,
                                0,
                            );
                        }
                        return Err(error);
                    },
                }
                c += 1;
            }
            proof {
                assert(fields.len() == table@.len());
                assert(fields[r + 1] == table@[r + 1].deep_view());
                assert(field_rows[r as int] == fields[r + 1]);
                assert(field_rows[r as int].len() == field_count);
                assert(listed.deep_view().len() == listed.len());
                assert(c == width(listed.deep_view(), field_rows[r as int]));
            }
            proof {
                let views = listed.deep_view();
                assert forall|y: int, x: int|
                    in_table(views, rows, y, x) && read_before(y, x, r + 1, 0) implies read_before(
                    y,
                    x,
                    r as int,
                    c as int,
                ) by {}
                assert forall|key: CellKey|
                    !written_key(
                        views,
                        dataset_id@,
                        rows,
                        r + 1,
                        0,
                        key,
                    ) implies #[trigger] find_cell(self@, key) == find_cell(mid, key) by {
                    if written_key(views, dataset_id@, rows, r as int, c as int, key) {
                        let (y, x) = choose|y: int, x: int|
                            in_table(views, rows, y, x) && read_before(y, x, r as int, c as int)
                                && #[trigger] import_key(views, dataset_id@, y, x) == key;
                        assert(read_before(y, x, r + 1, 0));
                    }
                }
            }
            r += 1;
        }
        proof {
            let after = self@;
            let views = listed.deep_view();
            assert(columns_of(after, dataset_id@) == views);
            assert forall|key: CellKey|
                !written_key(
                    views,
                    dataset_id@,
                    rows,
                    rows.len() as int,
                    0,
                    key,
                ) implies #[trigger] find_cell(after, key) == find_cell(before, key) by {
                assert(find_cell(mid, key) == find_cell(before, key));
            }
            assert forall|y: int, x: int| in_table(views, rows, y, x) implies (match find_cell(
                after,
                #[trigger] import_key(views, dataset_id@, y, x),
            ) {
                Some(cell) => holds_value(cell, rows[y][x]),
                None => false,
            }) by {
                assert(read_before(y, x, rows.len() as int, 0));
            }
        }
        Ok(())
    }

    /// Imports a table into `dataset_id`, as `import_drawn` does, with a
    /// freshly drawn identifier and the current time for each field. A
    /// table without headers uses nothing of what is drawn where it has no
    /// further rows or the dataset has no columns, and is then imported
    /// without fail.
    pub fn import_csv_data(&mut self, dataset_id: &str, csv_data: Vec<Vec<String>>) -> (outcome:
        Result<(), StorageError>)
        requires
            old(self).wf(),
        ensures
            final(self).wf(),
            final(self)@.datasets == old(self)@.datasets,
            outcome is Ok ==> imported(old(self)@, final(self)@, dataset_id@, csv_data.deep_view()),
            outcome == Err::<(), StorageError>(StorageError::EmptyImport) <==> csv_data.len() == 0,
            outcome == Err::<(), StorageError>(StorageError::OversizedImport) <==> oversized(
                csv_data.deep_view(),
            ),
            outcome matches Err(error) ==> {
                &&& error != StorageError::UnknownColumn
                &&& error == StorageError::EmptyImport || error == StorageError::OversizedImport
                    || error == StorageError::UnknownDataset ==> final(self)@ == old(self)@
                &&& error == StorageError::UnknownDataset ==> find_dataset(old(self)@, dataset_id@)
                    is None
            },
            find_dataset(old(self)@, dataset_id@) is None && csv_data.len() > 0 && !oversized(
                csv_data.deep_view(),
            ) && csv_data@[0].len() > 0 ==> outcome is Err,
            csv_data.len() > 0 && !oversized(csv_data.deep_view()) && csv_data@[0].len() == 0 && (
            csv_data.len() == 1 || columns_of(old(self)@, dataset_id@).len() == 0) ==> outcome is Ok,
            exists|table: Seq<Seq<DrawnFieldView>>|
                texts(table) == csv_data.deep_view() && #[trigger] import_result(
                    old(self)@,
                    dataset_id@,
                    table,
                ) == (Import { store: final(self)@, refusal: refusal_of(outcome) }),
    {
        let table = draw_fields(&csv_data);
        proof {
            if csv_data.len() > 0 {
                assert(texts(table.deep_view())[0].len() == table@[0].len());
                assert(csv_data.deep_view()[0].len() == csv_data@[0].len());
            }
            assert(texts(table.deep_view()).len() == table.len());
        }
        self.import_drawn(dataset_id, table)
    }
}

/// Draws an identifier and reads the clock for each field of `data`.
fn draw_fields(data: &Vec<Vec<String>>) -> (table: Vec<Vec<DrawnField>>)
    ensures
        texts(table.deep_view()) == data.deep_view(),
{
    let mut table: Vec<Vec<DrawnField>> = Vec::new();
    let mut r: usize = 0;
    while r < data.len()
        invariant
            r <= data.len(),
            texts(table.deep_view()) == data.deep_view().take(r as int),
        decreases data.len() - r,
    {
        let mut row: Vec<DrawnField> = Vec::new();
        let mut c: usize = 0;
        while c < data[r].len()
            invariant
                r < data.len(),
                c <= data@[r as int].len(),
                row.len() == c,
                forall|k: int| 0 <= k < c ==> (#[trigger] row@[k]).text@ == data@[r as int]@[k]@,
            decreases data@[r as int].len() - c,
        {
            row.push(DrawnField { id: fresh_id(), at: now(), text: data[r][c].clone() });
            c += 1;
        }
        let ghost before = table.deep_view();
        table.push(row);
        r += 1;
        proof {
            assert(table.deep_view() =~= before.push(row.deep_view()));
            assert(texts(before).len() == before.len());
            let shown = texts(table.deep_view());
            let wanted = data.deep_view().take(r as int);
            assert(shown.len() == wanted.len());
            assert forall|y: int| 0 <= y < shown.len() implies shown[y] == wanted[y] by {
                if y < r - 1 {
                    assert(shown[y] =~= texts(before)[y]);
                    assert(wanted[y] == data.deep_view().take(r - 1)[y]);
                } else {
                    assert(shown[y] =~= data.deep_view()[y]);
                }
            }
            assert(shown =~= wanted);
        }
    }
    assert(data.deep_view().take(data.len() as int) =~= data.deep_view());
    table
}

} // verus!
