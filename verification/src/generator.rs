//! The generation pipeline: fills an output column, row by row, from the
//! column's prompt template and a text generator.
//!
//! The library decides and records; the caller generates. A run is started
//! with `start_generation`. `GenerationRun::advance` then takes the next
//! row: it either settles the row itself (an empty row is skipped, a prompt
//! that cannot be materialized is recorded as an error), or hands out the
//! request for the generator, or reports the aggregate when no row is left.
//! `PendingGeneration::record` takes what the generator answered and
//! records it. The store is borrowed for each step alone, so that nothing
//! holds it while the generator works.

use crate::database::lemmas::{
    lemma_listed_column, lemma_single_row_page, lemma_with_cell, lemma_with_cell_keeps_rows,
};
use crate::database::model::{
    cell_refusal, column_is, columns_of, consistent, find_cell, holds_value, key_of, row_indices,
    table_view_of, with_cell, CellKey, Store,
};
use crate::database::models::{Cell, CellStatus, CellView, Column, ColumnType};
use crate::database::{storage_error_text, Database, StorageError};
use crate::prompt::materialize::{materialize_prompt, materialized, missing_message};
use crate::providers::{GenerateRequest, GenerateRequestView, GenerateResponse};
use crate::seqs::{
    find_first, first_index, lemma_deep_view_is_views, lemma_first_index, lemma_first_index_is,
};
use crate::stamp::{fresh_id, now, Timestamp};
use crate::text::str_eq;
use vstd::prelude::*;
use vstd::string::StringExecFns;

verus! {

/// How far a generation run has come: the rows it set out to fill, how
/// many it filled, how many failed, and the row it works on.
#[derive(Clone, Copy, Debug, PartialEq, Eq, Structural)]
pub struct GenerationProgress {
    pub total: usize,
    pub completed: usize,
    pub failed: usize,
    pub current_row: Option<i32>,
}

/// The most tokens that a generated cell may take.
pub const MAX_TOKENS: u32 = 500;

/// The temperature of every generation, in hundredths.
pub const TEMPERATURE_HUNDREDTHS: u32 = 70;

/// Why a run did not start, or stopped.
#[derive(Clone, Copy, Debug, PartialEq, Eq, Structural)]
pub enum GenerationError {
    /// The dataset has no column of the given identifier.
    ColumnNotFound,
    /// The column is no output column.
    NotOutputColumn,
    /// The output column has no prompt template.
    MissingPrompt,
    /// The dataset has no rows.
    NoRows,
    /// The dataset was not stored when a row was to be read.
    DatasetNotFound,
    /// The store refused a cell.
    Storage(StorageError),
}

/// The text of `GenerationError::message`.
pub open spec fn generation_error_text(error: GenerationError) -> Seq<char> {
    match error {
        GenerationError::ColumnNotFound => "Column not found"@,
        GenerationError::NotOutputColumn => "Can only generate cells for Output columns"@,
        GenerationError::MissingPrompt => "Output column has no prompt template"@,
        GenerationError::NoRows => "No rows to generate cells for"@,
        GenerationError::DatasetNotFound => "Failed to get table view"@,
        GenerationError::Storage(error) => "Failed to update cell: "@ + storage_error_text(error),
    }
}

impl GenerationError {
    /// A description of the error for people.
    pub fn message(&self) -> (text: String)
        ensures
            text@ == generation_error_text(*self),
    {
        match self {
            GenerationError::ColumnNotFound => String::from_str("Column not found"),
            GenerationError::NotOutputColumn => String::from_str(
                "Can only generate cells for Output columns",
            ),
            GenerationError::MissingPrompt => String::from_str(
                "Output column has no prompt template",
            ),
            GenerationError::NoRows => String::from_str("No rows to generate cells for"),
            GenerationError::DatasetNotFound => String::from_str("Failed to get table view"),
            GenerationError::Storage(error) => {
                let mut text = String::from_str("Failed to update cell: ");
                text.append(error.message().as_str());
                text
            },
        }
    }
}

/// How a row of a run ended.
pub enum RowOutcome {
    /// The generator answered and the answer was stored as the cell's value.
    Completed(Seq<char>),
    /// The prompt could not be materialized, or the generator failed; the
    /// message was stored as the cell's error.
    Failed(Seq<char>),
    /// The row was empty when it was read; nothing was stored.
    Skipped,
}

/// How many of `log` satisfy `p`.
pub open spec fn count_of(log: Seq<RowOutcome>, p: spec_fn(RowOutcome) -> bool) -> int
    decreases log.len(),
{
    if log.len() == 0 {
        0
    } else {
        count_of(log.drop_last(), p) + if p(log.last()) {
            1int
        } else {
            0int
        }
    }
}

pub open spec fn is_completed() -> spec_fn(RowOutcome) -> bool {
    |o: RowOutcome| o is Completed
}

pub open spec fn is_failed() -> spec_fn(RowOutcome) -> bool {
    |o: RowOutcome| o is Failed
}

pub open spec fn is_skipped() -> spec_fn(RowOutcome) -> bool {
    |o: RowOutcome| o is Skipped
}

/// A run as contracts see it. `log` holds the outcome of every row taken so
/// far, by row.
pub struct RunView {
    pub dataset_id: Seq<char>,
    pub column_id: Seq<char>,
    pub template: Seq<char>,
    pub total: int,
    pub log: Seq<RowOutcome>,
}

impl RunView {
    /// The row that the run takes next.
    pub open spec fn next_row(self) -> int {
        self.log.len() as int
    }

    /// How many rows were filled.
    pub open spec fn completed(self) -> int {
        count_of(self.log, is_completed())
    }

    /// How many rows failed.
    pub open spec fn failed(self) -> int {
        count_of(self.log, is_failed())
    }

    /// How many rows were skipped.
    pub open spec fn skipped(self) -> int {
        count_of(self.log, is_skipped())
    }

    /// Whether every row has been taken.
    pub open spec fn finished(self) -> bool {
        self.next_row() == self.total
    }

    /// The key of the run's cell at `row`.
    pub open spec fn key(self, row: int) -> CellKey {
        CellKey { dataset_id: self.dataset_id, column_id: self.column_id, row_index: row as i32 }
    }

    /// The run with one more row taken, which ended as `outcome`.
    pub open spec fn with_outcome(self, outcome: RowOutcome) -> RunView {
        RunView { log: self.log.push(outcome), ..self }
    }

    /// Whether the run is in order: it has taken no more rows than it set
    /// out to fill, and those are no more than a row index can number.
    pub open spec fn wf(self) -> bool {
        0 <= self.next_row() <= self.total <= i32::MAX
    }

    /// Whether `store` holds what the run recorded: for each row that was
    /// filled, a completed cell with the generated value; for each row that
    /// failed, an error cell with the message.
    pub open spec fn recorded_in(self, store: Store) -> bool {
        forall|row: int|
            0 <= row < self.log.len() ==> (match #[trigger] self.log[row] {
                RowOutcome::Completed(text) => match find_cell(store, self.key(row)) {
                    Some(cell) => holds_value(cell, text),
                    None => false,
                },
                RowOutcome::Failed(message) => match find_cell(store, self.key(row)) {
                    Some(cell) => holds_error(cell, message),
                    None => false,
                },
                RowOutcome::Skipped => true,
            })
    }

    /// Whether `store` still has what the run needs to take every row: the
    /// run's column, among the columns of its dataset, and as many rows as
    /// the run set out to fill.
    pub open spec fn provided_by(self, store: Store) -> bool {
        &&& consistent(store)
        &&& find_first(columns_of(store, self.dataset_id), column_is(self.column_id)) is Some
        &&& row_indices(store, self.dataset_id).len() >= self.total
    }
}

/// Whether `cell` is an error cell with the message `message` and no value.
pub open spec fn holds_error(cell: CellView, message: Seq<char>) -> bool {
    cell.error == Some(message) && cell.status == CellStatus::Error && cell.value is None
}

/// The counts of a log add up to its length.
pub proof fn lemma_counts_add_up(log: Seq<RowOutcome>)
    ensures
        count_of(log, is_completed()) + count_of(log, is_failed()) + count_of(log, is_skipped())
            == log.len(),
        count_of(log, is_completed()) >= 0,
        count_of(log, is_failed()) >= 0,
        count_of(log, is_skipped()) >= 0,
    decreases log.len(),
{
    if log.len() > 0 {
        lemma_counts_add_up(log.drop_last());
    }
}

/// What one more outcome does to a count.
pub proof fn lemma_count_push(log: Seq<RowOutcome>, outcome: RowOutcome, p: spec_fn(RowOutcome) -> bool)
    ensures
        count_of(log.push(outcome), p) == count_of(log, p) + if p(outcome) {
            1int
        } else {
            0int
        },
{
    assert(log.push(outcome).drop_last() =~= log);
}

/// The outcome that a generator's answer is recorded as.
pub open spec fn answer_outcome(answer: Result<GenerateResponse, String>) -> RowOutcome {
    match answer {
        Ok(response) => RowOutcome::Completed(response.text@),
        Err(reason) => RowOutcome::Failed(reason@),
    }
}

/// The request that is made of the generator for `prompt`: at most
/// `MAX_TOKENS` tokens at the fixed temperature, with no system message.
pub open spec fn request_for(prompt: Seq<char>) -> GenerateRequestView {
    GenerateRequestView {
        prompt,
        max_tokens: Some(MAX_TOKENS),
        temperature_hundredths: Some(TEMPERATURE_HUNDREDTHS),
        system_message: None,
    }
}

/// Why no run starts on `column_id` of `dataset_id`, if none does.
pub open spec fn start_refusal(store: Store, dataset_id: Seq<char>, column_id: Seq<char>) -> Option<
    GenerationError,
> {
    match find_first(columns_of(store, dataset_id), column_is(column_id)) {
        None => Some(GenerationError::ColumnNotFound),
        Some(column) => if column.column_type != ColumnType::Output {
            Some(GenerationError::NotOutputColumn)
        } else if column.prompt is None {
            Some(GenerationError::MissingPrompt)
        } else if row_indices(store, dataset_id).len() == 0 {
            Some(GenerationError::NoRows)
        } else {
            None
        },
    }
}

/// What a run does with its next row.
pub enum Decision {
    /// No row is left: the run reports its aggregate.
    Finish,
    /// The dataset is not stored: the run stops.
    Abort,
    /// The row is empty: it is skipped.
    Skip,
    /// The prompt cannot be materialized: the message is recorded.
    Fail(Seq<char>),
    /// The prompt is handed to the generator.
    Generate(Seq<char>),
}

/// What `run` does with its next row, given `store`: it reads the page of
/// one row at the row's index and materializes its template against that
/// row and the columns of the dataset.
pub open spec fn decision(run: RunView, store: Store) -> Decision {
    if run.finished() {
        Decision::Finish
    } else {
        match table_view_of(store, run.dataset_id, Some(1i32), Some(run.next_row() as i32)) {
            None => Decision::Abort,
            Some(table) => if table.rows.len() == 0 {
                Decision::Skip
            } else {
                match materialized(run.template, table.rows[0], table.columns) {
                    Ok(prompt) => Decision::Generate(prompt),
                    Err(missing) => Decision::Fail(missing_message(missing)),
                }
            },
        }
    }
}

/// Whether `after` is `before` with the cell under `key` written and
/// nothing else changed.
pub open spec fn only_cell_written(before: Store, after: Store, key: CellKey) -> bool {
    &&& after.datasets == before.datasets
    &&& after.columns == before.columns
    &&& find_cell(after, key) is Some
    &&& forall|other: CellKey| other != key ==> #[trigger] find_cell(after, other) == find_cell(before, other)
}

/// A generation run between two rows.
pub struct GenerationRun {
    dataset_id: String,
    column_id: String,
    prompt_template: String,
    total: usize,
    completed: usize,
    failed: usize,
    skipped: usize,
    next_row: i32,
    log: Ghost<Seq<RowOutcome>>,
}

impl View for GenerationRun {
    type V = RunView;

    closed spec fn view(&self) -> RunView {
        RunView {
            dataset_id: self.dataset_id@,
            column_id: self.column_id@,
            template: self.prompt_template@,
            total: self.total as int,
            log: self.log@,
        }
    }
}

impl GenerationRun {
    /// Whether the run is in order and its counters are those of its log.
    pub closed spec fn wf(&self) -> bool {
        &&& self@.wf()
        &&& self.next_row == self@.next_row()
        &&& self.completed == self@.completed()
        &&& self.failed == self@.failed()
        &&& self.skipped == self@.skipped()
    }

    /// A run that is in order has a view that is in order.
    pub proof fn lemma_view_wf(&self)
        requires
            self.wf(),
        ensures
            self@.wf(),
    {
    }

    /// The progress of a run as `view` describes it.
    pub open spec fn progress_of(view: RunView) -> GenerationProgress {
        GenerationProgress {
            total: view.total as usize,
            completed: view.completed() as usize,
            failed: view.failed() as usize,
            current_row: if view.finished() {
                None
            } else {
                Some(view.next_row() as i32)
            },
        }
    }

    /// How far the run has come. The current row is the row that the run
    /// takes next, and `None` once no row is left.
    pub fn progress(&self) -> (progress: GenerationProgress)
        requires
            self.wf(),
        ensures
            progress == Self::progress_of(self@),
    {
        proof {
            lemma_counts_add_up(self@.log);
        }
        GenerationProgress {
            total: self.total,
            completed: self.completed,
            failed: self.failed,
            current_row: if self.next_row as usize == self.total {
                None
            } else {
                Some(self.next_row)
            },
        }
    }

    /// How many rows the run skipped because they were empty when read.
    pub fn skipped(&self) -> (skipped: usize)
        requires
            self.wf(),
        ensures
            skipped == self@.skipped(),
    {
        self.skipped
    }

    /// The run with its next row settled as `outcome`, of the kind `tally`.
    fn settle(self, tally: Tally, Ghost(outcome): Ghost<RowOutcome>) -> (next: GenerationRun)
        requires
            self.wf(),
            !self@.finished(),
            tally == tally_of(outcome),
        ensures
            next.wf(),
            next@ == self@.with_outcome(outcome),
    {
        proof {
            lemma_counts_add_up(self@.log);
            lemma_count_push(self@.log, outcome, is_completed());
            lemma_count_push(self@.log, outcome, is_failed());
            lemma_count_push(self@.log, outcome, is_skipped());
        }
        let ghost log = self.log@.push(outcome);
        let (completed, failed, skipped) = match tally {
            Tally::Completed => (self.completed + 1, self.failed, self.skipped),
            Tally::Failed => (self.completed, self.failed + 1, self.skipped),
            Tally::Skipped => (self.completed, self.failed, self.skipped + 1),
        };
        GenerationRun {
            dataset_id: self.dataset_id,
            column_id: self.column_id,
            prompt_template: self.prompt_template,
            total: self.total,
            completed,
            failed,
            skipped,
            next_row: self.next_row + 1,
            log: Ghost(log),
        }
    }
}

/// The kind of a row's outcome.
#[derive(Clone, Copy, PartialEq, Eq, Structural)]
enum Tally {
    Completed,
    Failed,
    Skipped,
}

spec fn tally_of(outcome: RowOutcome) -> Tally {
    match outcome {
        RowOutcome::Completed(_) => Tally::Completed,
        RowOutcome::Failed(_) => Tally::Failed,
        RowOutcome::Skipped => Tally::Skipped,
    }
}

/// A run that waits for the generator's answer for its next row.
pub struct PendingGeneration {
    run: GenerationRun,
    request: GenerateRequest,
}

impl PendingGeneration {
    /// The run that waits.
    pub closed spec fn run(&self) -> RunView {
        self.run@
    }

    /// The request that the generator is to answer, as contracts see it.
    pub closed spec fn request_view(&self) -> GenerateRequestView {
        self.request@
    }

    /// Whether the waiting run is in order and has a row to take.
    pub closed spec fn wf(&self) -> bool {
        self.run.wf() && !self.run@.finished()
    }

    /// A waiting run that is in order is a run in order that has a row to
    /// take.
    pub proof fn lemma_run_wf(&self)
        requires
            self.wf(),
        ensures
            self.run().wf(),
            !self.run().finished(),
    {
    }

    /// The request that the generator is to answer.
    pub fn request(&self) -> (request: &GenerateRequest)
        ensures
            request@ == self.request_view(),
    {
        &self.request
    }

    /// The row for which the run waits.
    pub fn row_index(&self) -> (row: i32)
        requires
            self.wf(),
        ensures
            row == self.run().next_row(),
    {
        self.run.next_row
    }

    /// How far the waiting run has come.
    pub fn progress(&self) -> (progress: GenerationProgress)
        requires
            self.wf(),
        ensures
            progress == GenerationRun::progress_of(self.run()),
    {
        self.run.progress()
    }

    /// Records the generator's answer for the row in a cell with the given
    /// identifier and time: its text as the value of a completed cell, or
    /// its failure message as the error of an error cell. The run goes on
    /// if the store takes the cell, and stops with the store's refusal, the
    /// store unchanged, if it does not.
    pub fn record_as(
        self,
        db: &mut Database,
        answer: Result<GenerateResponse, String>,
        id: String,
        at: Timestamp,
    ) -> (outcome: Result<GenerationRun, GenerationError>)
        requires
            self.wf(),
            old(db).wf(),
        ensures
            final(db).wf(),
            settled_as(
                self.run(),
                old(db)@,
                final(db)@,
                outcome_cell(self.run(), answer_outcome(answer), id@, at),
                answer_outcome(answer),
                outcome,
            ),
            settled(self.run(), old(db)@, final(db)@, answer_outcome(answer), outcome),
    {
        let run = self.run;
        let pending = Cell::with_id(
            id,
            run.dataset_id.clone(),
            run.column_id.clone(),
            run.next_row,
            at,
        );
        match answer {
            Ok(response) => {
                let cell = pending.with_value(response.text);
                persist(run, db, cell, Tally::Completed, Ghost(answer_outcome(answer)))
            },
            Err(reason) => {
                let cell = pending.with_error(reason);
                persist(run, db, cell, Tally::Failed, Ghost(answer_outcome(answer)))
            },
        }
    }

    /// Records the generator's answer for the row, as `record_as` does, in
    /// a cell with a freshly drawn identifier, stamped now.
    pub fn record(self, db: &mut Database, answer: Result<GenerateResponse, String>) -> (outcome:
        Result<GenerationRun, GenerationError>)
        requires
            self.wf(),
            old(db).wf(),
        ensures
            final(db).wf(),
            settled(self.run(), old(db)@, final(db)@, answer_outcome(answer), outcome),
            exists|id: Seq<char>, at: Timestamp| #[trigger]
                settled_as(
                    self.run(),
                    old(db)@,
                    final(db)@,
                    outcome_cell(self.run(), answer_outcome(answer), id, at),
                    answer_outcome(answer),
                    outcome,
                ),
    {
        let id = fresh_id();
        let at = now();
        let ghost run = self.run();
        let outcome = self.record_as(db, answer, id, at);
        assert(settled_as(
            run,
            old(db)@,
            db@,
            outcome_cell(run, answer_outcome(answer), id@, at),
            answer_outcome(answer),
            outcome,
        ));
        outcome
    }
}

/// The cell in which a run records `outcome` for its next row, under the
/// identifier `id`, created and updated at `at`.
pub open spec fn outcome_cell(run: RunView, outcome: RowOutcome, id: Seq<char>, at: Timestamp) -> CellView {
    CellView {
        id,
        dataset_id: run.dataset_id,
        column_id: run.column_id,
        row_index: run.next_row() as i32,
        value: match outcome {
            RowOutcome::Completed(text) => Some(text),
            _ => None,
        },
        status: match outcome {
            RowOutcome::Completed(_) => CellStatus::Completed,
            RowOutcome::Failed(_) => CellStatus::Error,
            RowOutcome::Skipped => CellStatus::Pending,
        },
        error: match outcome {
            RowOutcome::Failed(message) => Some(message),
            _ => None,
        },
        created_at: at,
        updated_at: at,
    }
}

/// Whether the step from `before` to `after` that ended as `result` is the
/// attempt to store `cell` for the next row of `run`: the run goes on, with
/// `outcome` in its log and the cell in the store, exactly when the store
/// does not refuse the cell; otherwise the run has stopped with the store's
/// refusal and nothing has changed.
pub open spec fn settled_as(
    run: RunView,
    before: Store,
    after: Store,
    cell: CellView,
    outcome: RowOutcome,
    result: Result<GenerationRun, GenerationError>,
) -> bool {
    &&& result is Ok <==> cell_refusal(before, cell) is None
    &&& result matches Ok(next) ==> next.wf() && next@ == run.with_outcome(outcome) && after
        == with_cell(before, cell)
    &&& result matches Err(error) ==> after == before && (match cell_refusal(before, cell) {
        Some(refusal) => error == GenerationError::Storage(refusal),
        None => false,
    })
}

/// Whether `cell` holds what `outcome` says.
pub open spec fn cell_shows(cell: CellView, outcome: RowOutcome) -> bool {
    match outcome {
        RowOutcome::Completed(text) => holds_value(cell, text),
        RowOutcome::Failed(message) => holds_error(cell, message),
        RowOutcome::Skipped => false,
    }
}

/// Whether the next row of `run` was settled as `outcome` in the step from
/// `before` to `after` that ended as `result`. Where the store took the
/// cell, the cell under the row's key shows the outcome and nothing else
/// has changed; the run goes on with the outcome in its log; what the run
/// had recorded is still recorded, and what it needs is still provided.
/// Where the store refused the cell, nothing has changed and the run has
/// stopped. A store that provides what the run needs refuses a cell only
/// for an identifier that is taken or for want of room.
pub open spec fn settled(
    run: RunView,
    before: Store,
    after: Store,
    outcome: RowOutcome,
    result: Result<GenerationRun, GenerationError>,
) -> bool {
    match result {
        Ok(next) => {
            &&& next.wf()
            &&& next@ == run.with_outcome(outcome)
            &&& only_cell_written(before, after, run.key(run.next_row()))
            &&& cell_shows(find_cell(after, run.key(run.next_row()))->0, outcome)
            &&& run.recorded_in(before) ==> next@.recorded_in(after)
            &&& run.provided_by(before) ==> next@.provided_by(after)
        },
        Err(error) => {
            &&& after == before
            &&& error is Storage
            &&& run.provided_by(before) ==> error == GenerationError::Storage(
                StorageError::DuplicateId,
            ) || error == GenerationError::Storage(StorageError::Full)
        },
    }
}

/// Stores `cell` as the cell of the run's next row and settles the row.
fn persist(
    run: GenerationRun,
    db: &mut Database,
    cell: Cell,
    tally: Tally,
    Ghost(outcome): Ghost<RowOutcome>,
) -> (result: Result<GenerationRun, GenerationError>)
    requires
        run.wf(),
        !run@.finished(),
        old(db).wf(),
        key_of(cell@) == run@.key(run@.next_row()),
        tally == tally_of(outcome),
        cell_shows(cell@, outcome),
    ensures
        final(db).wf(),
        settled_as(run@, old(db)@, final(db)@, cell@, outcome, result),
        settled(run@, old(db)@, final(db)@, outcome, result),
{
    let ghost before = db@;
    let ghost view = run@;
    let ghost key = view.key(view.next_row());
    match db.upsert_cell(&cell) {
        Ok(()) => {
            let next = run.settle(tally, Ghost(outcome));
            proof {
                let after = db@;
                assert(cell_refusal(before, cell@) is None);
                lemma_with_cell(before, cell@);
                assert(only_cell_written(before, after, key));
                if view.recorded_in(before) {
                    assert forall|row: int| 0 <= row < next@.log.len() implies (
                    match #[trigger] next@.log[row] {
                        RowOutcome::Completed(text) => match find_cell(after, next@.key(row)) {
                            Some(cell) => holds_value(cell, text),
                            None => false,
                        },
                        RowOutcome::Failed(message) => match find_cell(after, next@.key(row)) {
                            Some(cell) => holds_error(cell, message),
                            None => false,
                        },
                        RowOutcome::Skipped => true,
                    }) by {
                        if row < view.log.len() {
                            assert(next@.log[row] == view.log[row]);
                            assert(view.key(row) != key);
                            assert(find_cell(after, view.key(row)) == find_cell(
                                before,
                                view.key(row),
                            ));
                        }
                    }
                }
                if view.provided_by(before) {
                    lemma_with_cell_keeps_rows(before, cell@, view.dataset_id);
                    assert(columns_of(after, view.dataset_id) == columns_of(
                        before,
                        view.dataset_id,
                    ));
                }
            }
            Ok(next)
        },
        Err(error) => {
            proof {
                if view.provided_by(before) {
                    lemma_first_index(
                        columns_of(before, view.dataset_id),
                        column_is(view.column_id),
                    );
                    let i = first_index(
                        columns_of(before, view.dataset_id),
                        column_is(view.column_id),
                    );
                    lemma_listed_column(before, view.dataset_id, i);
                }
            }
            Err(GenerationError::Storage(error))
        },
    }
}

/// What a run does next.
pub enum GenerationStep {
    /// The generator is to answer a request; the answer is then recorded.
    Generate(PendingGeneration),
    /// The row was settled without the generator; the run goes on.
    Continue(GenerationRun),
    /// No row is left; this is the aggregate.
    Finished(GenerationProgress),
}

/// Whether `step` is what `run` did with its next row in the step from
/// `before` to `after`, as `decision` says.
pub open spec fn advanced(
    run: RunView,
    before: Store,
    after: Store,
    step: Result<GenerationStep, GenerationError>,
) -> bool {
    match decision(run, before) {
        Decision::Finish => after == before && step == Ok::<GenerationStep, GenerationError>(
            GenerationStep::Finished(GenerationRun::progress_of(run)),
        ),
        Decision::Abort => after == before && step == Err::<GenerationStep, GenerationError>(
            GenerationError::DatasetNotFound,
        ),
        Decision::Skip => after == before && (match step {
            Ok(GenerationStep::Continue(next)) => next.wf() && next@ == run.with_outcome(
                RowOutcome::Skipped,
            ),
            _ => false,
        }),
        Decision::Generate(prompt) => after == before && (match step {
            Ok(GenerationStep::Generate(pending)) => pending.wf() && pending.run() == run
                && pending.request_view() == request_for(prompt),
            _ => false,
        }),
        Decision::Fail(message) => match step {
            Ok(GenerationStep::Continue(next)) => settled(
                run,
                before,
                after,
                RowOutcome::Failed(message),
                Ok(next),
            ),
            Err(error) => settled(run, before, after, RowOutcome::Failed(message), Err(error)),
            _ => false,
        },
    }
}

/// Whether `step` is what `run` did with its next row in the step from
/// `before` to `after`, with `id` and `at` at hand for the cell of a row
/// whose prompt cannot be materialized. As `advanced`, and the error cell
/// is stored exactly when the store does not refuse it.
pub open spec fn advanced_as(
    run: RunView,
    before: Store,
    after: Store,
    step: Result<GenerationStep, GenerationError>,
    id: Seq<char>,
    at: Timestamp,
) -> bool {
    &&& advanced(run, before, after, step)
    &&& decision(run, before) matches Decision::Fail(message) ==> settled_as(
        run,
        before,
        after,
        outcome_cell(run, RowOutcome::Failed(message), id, at),
        RowOutcome::Failed(message),
        match step {
            Ok(GenerationStep::Continue(next)) => Ok(next),
            Ok(_) => Err(GenerationError::DatasetNotFound),
            Err(error) => Err(error),
        },
    )
}

impl GenerationRun {
    /// Takes the next row. Reads the page of one row at the row's index and
    /// materializes the template against it. An empty page is skipped; a
    /// template that cannot be materialized is recorded as the row's error,
    /// in a cell with the given identifier and time; a prompt is handed out
    /// for the generator. When no row is left, the aggregate is reported.
    /// The run stops if the dataset is not stored or the store refuses the
    /// error cell.
    pub fn advance_as(self, db: &mut Database, id: String, at: Timestamp) -> (step: Result<
        GenerationStep,
        GenerationError,
    >)
        requires
            self.wf(),
            old(db).wf(),
        ensures
            final(db).wf(),
            advanced_as(self@, old(db)@, final(db)@, step, id@, at),
    {
        let ghost view = self@;
        let ghost before = db@;
        if self.next_row as usize == self.total {
            return Ok(GenerationStep::Finished(self.progress()));
        }
        let table = match db.get_table_view(
            self.dataset_id.as_str(),
            Some(1),
            Some(self.next_row),
        ) {
            Some(table) => table,
            None => {
                return Err(GenerationError::DatasetNotFound);
            },
        };
        if table.rows.len() == 0 {
            let next = self.settle(Tally::Skipped, Ghost(RowOutcome::Skipped));
            return Ok(GenerationStep::Continue(next));
        }
        proof {
            lemma_deep_view_is_views(table.columns);
        }
        match materialize_prompt(
            self.prompt_template.as_str(),
            &table.rows[0],
            table.columns.as_slice(),
        ) {
            Ok(prompt) => {
                let request = GenerateRequest {
                    prompt,
                    max_tokens: Some(MAX_TOKENS),
                    temperature_hundredths: Some(TEMPERATURE_HUNDREDTHS),
                    system_message: None,
                };
                Ok(GenerationStep::Generate(PendingGeneration { run: self, request }))
            },
            Err(error) => {
                let message = error.message();
                let ghost outcome = RowOutcome::Failed(message@);
                let cell = Cell::with_id(
                    id,
                    self.dataset_id.clone(),
                    self.column_id.clone(),
                    self.next_row,
                    at,
                ).with_error(message);
                match persist(self, db, cell, Tally::Failed, Ghost(outcome)) {
                    Ok(next) => Ok(GenerationStep::Continue(next)),
                    Err(error) => Err(error),
                }
            },
        }
    }

    /// Takes the next row, as `advance_as` does, with a freshly drawn
    /// identifier and the current time at hand for an error cell.
    pub fn advance(self, db: &mut Database) -> (step: Result<GenerationStep, GenerationError>)
        requires
            self.wf(),
            old(db).wf(),
        ensures
            final(db).wf(),
            advanced(self@, old(db)@, final(db)@, step),
            exists|id: Seq<char>, at: Timestamp| #[trigger]
                advanced_as(self@, old(db)@, final(db)@, step, id, at),
    {
        let id = fresh_id();
        let at = now();
        let ghost view = self@;
        let step = self.advance_as(db, id, at);
        assert(advanced_as(view, old(db)@, db@, step, id@, at));
        step
    }
}

/// Starts a run on the output column `column_id` of `dataset_id`. Fails if
/// the dataset has no such column, if the column is no output column or
/// has no prompt template, and if the dataset has no rows. The run sets out
/// to fill as many rows as the dataset has when it starts.
pub fn start_generation(db: &Database, dataset_id: &str, column_id: &str) -> (outcome: Result<
    GenerationRun,
    GenerationError,
>)
    requires
        db.wf(),
    ensures
        outcome is Ok <==> start_refusal(db@, dataset_id@, column_id@) is None,
        outcome matches Err(error) ==> Some(error) == start_refusal(db@, dataset_id@, column_id@),
        outcome matches Ok(run) ==> {
            &&& run.wf()
            &&& run@ == (RunView {
                dataset_id: dataset_id@,
                column_id: column_id@,
                template: find_first(columns_of(db@, dataset_id@), column_is(column_id@))->0.prompt->0,
                total: row_indices(db@, dataset_id@).len() as int,
                log: Seq::empty(),
            })
            &&& run@.recorded_in(db@)
            &&& run@.provided_by(db@)
        },
{
    let columns = db.list_columns(dataset_id);
    let mut i: usize = 0;
    while i < columns.len()
        invariant
            i <= columns.len(),
            forall|j: int| 0 <= j < i ==> !column_is(column_id@)(#[trigger] columns.deep_view()[j]),
        ensures
            i < columns.len() ==> column_is(column_id@)(columns.deep_view()[i as int]),
        decreases columns.len() - i,
    {
        if str_eq(columns[i].id.as_str(), column_id) {
            break;
        }
        i += 1;
    }
    proof {
        lemma_first_index_is(columns.deep_view(), column_is(column_id@), i as int);
    }
    if i >= columns.len() {
        return Err(GenerationError::ColumnNotFound);
    }
    let column = &columns[i];
    if column.column_type != ColumnType::Output {
        return Err(GenerationError::NotOutputColumn);
    }
    let prompt_template = match &column.prompt {
        Some(prompt) => prompt.clone(),
        None => {
            return Err(GenerationError::MissingPrompt);
        },
    };
    let total = db.count_rows(dataset_id);
    if total == 0 {
        return Err(GenerationError::NoRows);
    }
    let run = GenerationRun {
        dataset_id: String::from_str(dataset_id),
        column_id: String::from_str(column_id),
        prompt_template,
        total: total as usize,
        completed: 0,
        failed: 0,
        skipped: 0,
        next_row: 0,
        log: Ghost(Seq::empty()),
    };
    Ok(run)
}

/// The generation capability as the pipeline consumes it: a prompt and
/// its parameters go in, a text or a failure message comes out.
pub trait Generator {
    /// Generates a text for `request`, or says why it could not.
    fn generate(&mut self, request: &GenerateRequest) -> Result<GenerateResponse, String>;
}

/// Whether `progress` is the aggregate of the finished run `run`, which
/// skipped no row.
pub open spec fn aggregate_of(progress: GenerationProgress, run: RunView) -> bool {
    &&& run.wf()
    &&& run.finished()
    &&& run.skipped() == 0
    &&& progress == GenerationRun::progress_of(run)
}

/// `run` as it was before it took the row `row`.
pub open spec fn run_at(run: RunView, row: int) -> RunView {
    RunView { log: run.log.take(row), ..run }
}

/// Whether the step from `before` to `after` took the next row of `run`
/// and ended it as `outcome`: a cell that shows the outcome was put under
/// the row's key, and nothing else was changed. A row whose prompt cannot
/// be materialized failed with the message of the materializer; a row
/// whose prompt went to the generator was filled or failed.
pub open spec fn row_taken(run: RunView, before: Store, after: Store, outcome: RowOutcome) -> bool {
    &&& !run.finished()
    &&& exists|cell: CellView|
        {
            &&& #[trigger] key_of(cell) == run.key(run.next_row())
            &&& cell_shows(cell, outcome)
            &&& cell_refusal(before, cell) is None
            &&& after == with_cell(before, cell)
        }
    &&& match decision(run, before) {
        Decision::Fail(message) => outcome == RowOutcome::Failed(message),
        Decision::Generate(_) => !(outcome is Skipped),
        _ => false,
    }
}

/// Whether `stores` are the stores through which `run` went, row by row:
/// the store before the first row, then the store behind each row taken.
pub open spec fn rows_taken(run: RunView, stores: Seq<Store>) -> bool {
    &&& stores.len() == run.log.len() + 1
    &&& forall|row: int|
        0 <= row < run.log.len() ==> row_taken(
            run_at(run, row),
            #[trigger] stores[row],
            stores[row + 1],
            run.log[row],
        )
}

/// Whether `run`, on the column `column_id` of `dataset_id`, went from the
/// store `first` to the store `last` through `stores`, and `last` holds
/// what it recorded.
pub open spec fn run_went(
    run: RunView,
    stores: Seq<Store>,
    dataset_id: Seq<char>,
    column_id: Seq<char>,
    first: Store,
    last: Store,
) -> bool {
    &&& run.wf()
    &&& run.dataset_id == dataset_id
    &&& run.column_id == column_id
    &&& run.total == row_indices(first, dataset_id).len()
    &&& run.template == find_first(columns_of(first, dataset_id), column_is(column_id))->0.prompt->0
    &&& rows_taken(run, stores)
    &&& stores[0] == first
    &&& stores.last() == last
    &&& run.recorded_in(last)
}

/// Whether `run` stopped before its next row because the store `last`
/// refused `cell`, the cell of that row, with `refusal`.
pub open spec fn run_stopped(run: RunView, last: Store, cell: CellView, refusal: StorageError) -> bool {
    &&& !run.finished()
    &&& key_of(cell) == run.key(run.next_row())
    &&& cell_refusal(last, cell) == Some(refusal)
    &&& match decision(run, last) {
        Decision::Fail(message) => cell_shows(cell, RowOutcome::Failed(message)),
        Decision::Generate(_) => cell.status != CellStatus::Pending,
        _ => false,
    }
}

/// Whether `key` is outside the cells that a run on `column_id` of
/// `dataset_id` with `total` rows may write.
pub open spec fn outside_run(key: CellKey, dataset_id: Seq<char>, column_id: Seq<char>, total: int) -> bool {
    !(key.dataset_id == dataset_id && key.column_id == column_id && 0 <= key.row_index < total)
}

/// Fills the output column `column_id` of `dataset_id`, row by row, with
/// what `generator` makes of the column's prompt for each row, and reports
/// how many rows were filled and how many failed. A row whose prompt cannot
/// be materialized, or for which the generator fails, gets an error cell
/// with the message, and the run goes on with the next row.
///
/// The store is held for the whole run, so that every row is accounted
/// for: the filled rows and the failed rows are all the rows that the
/// dataset had at the start, and each has its cell when the run ends. A
/// caller that must not hold the store while the generator works takes the
/// steps of `GenerationRun` itself.
///
/// Nothing is changed if the run does not start. Once started, the run
/// stops only where the store refuses the cell of a row, because the
/// identifier drawn for it is taken or the store is full; the rows before
/// it keep their cells. No cell but those of the column at the rows of the
/// run is ever changed.
pub fn generate_column_cells<G: Generator>(
    db: &mut Database,
    dataset_id: &str,
    column_id: &str,
    generator: &mut G,
) -> (outcome: Result<GenerationProgress, GenerationError>)
    requires
        old(db).wf(),
    ensures
        final(db).wf(),
        final(db)@.datasets == old(db)@.datasets,
        final(db)@.columns == old(db)@.columns,
        forall|key: CellKey|
            outside_run(
                key,
                dataset_id@,
                column_id@,
                row_indices(old(db)@, dataset_id@).len() as int,
            ) ==> #[trigger] find_cell(final(db)@, key) == find_cell(old(db)@, key),
        start_refusal(old(db)@, dataset_id@, column_id@) matches Some(error) ==> outcome == Err::<
            GenerationProgress,
            GenerationError,
        >(error) && final(db)@ == old(db)@,
        outcome matches Ok(progress) ==> {
            &&& start_refusal(old(db)@, dataset_id@, column_id@) is None
            &&& progress.total == row_indices(old(db)@, dataset_id@).len()
            &&& progress.completed + progress.failed == progress.total
            &&& progress.current_row is None
            &&& exists|run: RunView, stores: Seq<Store>|
                {
                    &&& aggregate_of(progress, run)
                    &&& #[trigger] run_went(
                        run,
                        stores,
                        dataset_id@,
                        column_id@,
                        old(db)@,
                        final(db)@,
                    )
                }
        },
        outcome matches Err(error) ==> start_refusal(old(db)@, dataset_id@, column_id@) == Some(error)
            || error == GenerationError::Storage(StorageError::DuplicateId) || error
            == GenerationError::Storage(StorageError::Full),
        outcome matches Err(GenerationError::Storage(refusal)) ==> {
            &&& start_refusal(old(db)@, dataset_id@, column_id@) is None
            &&& exists|run: RunView, stores: Seq<Store>, cell: CellView|
                {
                    &&& #[trigger] run_went(
                        run,
                        stores,
                        dataset_id@,
                        column_id@,
                        old(db)@,
                        final(db)@,
                    )
                    &&& #[trigger] run_stopped(run, final(db)@, cell, refusal)
                }
        },
{
    let mut run = match start_generation(db, dataset_id, column_id) {
        Ok(run) => run,
        Err(error) => {
            return Err(error);
        },
    };
    let ghost start = db@;
    let ghost mut stores: Seq<Store> = seq![start];
    loop
        invariant
            db.wf(),
            run.wf(),
            run@.provided_by(db@),
            run@.skipped() == 0,
            run_went(run@, stores, dataset_id@, column_id@, start, db@),
            start == old(db)@,
            start_refusal(start, dataset_id@, column_id@) is None,
            db@.datasets == start.datasets,
            db@.columns == start.columns,
            forall|key: CellKey|
                outside_run(key, dataset_id@, column_id@, run@.next_row()) ==> #[trigger] find_cell(
                    db@,
                    key,
                ) == find_cell(start, key),
        decreases run@.total - run@.next_row(),
    {
        let ghost before = db@;
        let ghost view = run@;
        proof {
            lemma_counts_add_up(view.log);
            if !view.finished() {
                lemma_first_index(columns_of(before, view.dataset_id), column_is(view.column_id));
                lemma_single_row_page(before, view.dataset_id, view.next_row() as i32);
            }
        }
        let step = match run.advance(db) {
            Ok(step) => step,
            Err(error) => {
                proof {
                    let (id, at) = choose|id: Seq<char>, at: Timestamp| #[trigger]
                        advanced_as(view, before, db@, Err(error), id, at);
                    let message = decision(view, before)->Fail_0;
                    let cell = outcome_cell(view, RowOutcome::Failed(message), id, at);
                    assert(run_stopped(view, db@, cell, error->Storage_0));
                }
                return Err(error);
            },
        };
        let ghost result = Ok::<GenerationStep, GenerationError>(step);
        match step {
            GenerationStep::Finished(progress) => {
                proof {
                    assert(aggregate_of(progress, view));
                }
                return Ok(progress);
            },
            GenerationStep::Continue(next) => {
                proof {
                    let (id, at) = choose|id: Seq<char>, at: Timestamp| #[trigger]
                        advanced_as(view, before, db@, result, id, at);
                    let message = decision(view, before)->Fail_0;
                    let outcome = RowOutcome::Failed(message);
                    let cell = outcome_cell(view, outcome, id, at);
                    lemma_count_push(view.log, outcome, is_skipped());
                    lemma_row_joins(view, stores, before, db@, cell, outcome);
                    stores = stores.push(db@);
                }
                run = next;
            },
            GenerationStep::Generate(pending) => {
                let answer = generator.generate(pending.request());
                let ghost outcome = answer_outcome(answer);
                proof {
                    lemma_count_push(view.log, outcome, is_skipped());
                }
                run = match pending.record(db, answer) {
                    Ok(next) => {
                        proof {
                            let (id, at) = choose|id: Seq<char>, at: Timestamp| #[trigger]
                                settled_as(
                                    view,
                                    before,
                                    db@,
                                    outcome_cell(view, outcome, id, at),
                                    outcome,
                                    Ok(next),
                                );
                            let cell = outcome_cell(view, outcome, id, at);
                            lemma_row_joins(view, stores, before, db@, cell, outcome);
                            stores = stores.push(db@);
                        }
                        next
                    },
                    Err(error) => {
                        proof {
                            let (id, at) = choose|id: Seq<char>, at: Timestamp| #[trigger]
                                settled_as(
                                    view,
                                    before,
                                    db@,
                                    outcome_cell(view, outcome, id, at),
                                    outcome,
                                    Err(error),
                                );
                            let cell = outcome_cell(view, outcome, id, at);
                            assert(run_stopped(view, db@, cell, error->Storage_0));
                        }
                        return Err(error);
                    },
                };
            },
        }
    }
}

/// A row taken joins the rows taken before it, and leaves alone every cell
/// that is not the run's cell at that row.
proof fn lemma_row_joins(
    run: RunView,
    stores: Seq<Store>,
    before: Store,
    after: Store,
    cell: CellView,
    outcome: RowOutcome,
)
    requires
        run.wf(),
        !run.finished(),
        consistent(before),
        rows_taken(run, stores),
        stores.last() == before,
        cell == outcome_cell(run, outcome, cell.id, cell.created_at),
        !(outcome is Skipped),
        cell_refusal(before, cell) is None,
        after == with_cell(before, cell),
        match decision(run, before) {
            Decision::Fail(message) => outcome == RowOutcome::Failed(message),
            Decision::Generate(_) => true,
            _ => false,
        },
    ensures
        rows_taken(run.with_outcome(outcome), stores.push(after)),
        forall|key: CellKey|
            key != run.key(run.next_row()) ==> #[trigger] find_cell(after, key) == find_cell(
                before,
                key,
            ),
{
    let next = run.with_outcome(outcome);
    let longer = stores.push(after);
    lemma_with_cell(before, cell);
    assert(key_of(cell) == run.key(run.next_row()));
    assert(cell_shows(cell, outcome));
    assert forall|row: int| 0 <= row < next.log.len() implies row_taken(
        run_at(next, row),
        #[trigger] longer[row],
        longer[row + 1],
        next.log[row],
    ) by {
        if row < run.log.len() {
            assert(next.log.take(row) =~= run.log.take(row));
            assert(run_at(next, row) == run_at(run, row));
            assert(longer[row] == stores[row]);
            assert(longer[row + 1] == stores[row + 1]);
        } else {
            assert(next.log.take(row) =~= run.log);
            assert(run_at(next, row) == run);
            assert(longer[row] == before);
            assert(longer[row + 1] == after);
        }
    }
}

} // verus!
