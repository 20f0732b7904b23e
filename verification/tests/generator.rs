use braincells::database::models::{Cell, CellStatus, Column, ColumnType, Dataset};
use braincells::database::{Database, StorageError};
use braincells::generator::{
    generate_column_cells, start_generation, GenerationError, GenerationProgress, GenerationStep,
    Generator, MAX_TOKENS, TEMPERATURE_HUNDREDTHS,
};
use braincells::providers::{GenerateRequest, GenerateResponse};
use braincells::stamp::Timestamp;

fn input_cell(id: &str, column_id: &str, row_index: i32, value: &str) -> Cell {
    Cell::with_id(
        id.to_string(),
        "ds".to_string(),
        column_id.to_string(),
        row_index,
        Timestamp::from_micros(0),
    )
    .with_value(value.to_string())
}

fn column(id: &str, name: &str, column_type: ColumnType, position: i32) -> Column {
    Column::with_id(
        id.to_string(),
        "ds".to_string(),
        name.to_string(),
        column_type,
        position,
        Timestamp::from_micros(0),
    )
}

/// A dataset with the input column Product, the output column Pitch, and
/// one product per given name, in rows 0, 1, 2 and so on.
fn store_with_products(template: &str, products: &[&str]) -> Database {
    let mut db = Database::new();
    let dataset =
        Dataset::with_id("ds".to_string(), "Products".to_string(), None, Timestamp::from_micros(1));
    db.insert_dataset(dataset).unwrap();
    db.add_column(column("product", "Product", ColumnType::Input, 0)).unwrap();
    db.add_column(
        column("pitch", "Pitch", ColumnType::Output, 1).with_prompt(template.to_string()),
    )
    .unwrap();
    for (i, product) in products.iter().enumerate() {
        db.upsert_cell(&input_cell(&format!("in{}", i), "product", i as i32, product)).unwrap();
    }
    db
}

fn answer(text: &str) -> Result<GenerateResponse, String> {
    Ok(GenerateResponse {
        text: text.to_string(),
        model: "test".to_string(),
        finish_reason: None,
        tokens_used: None,
    })
}

/// Runs the pipeline to its end with `generate` as the generator.
fn run(
    db: &mut Database,
    column_id: &str,
    mut generate: impl FnMut(&GenerateRequest) -> Result<GenerateResponse, String>,
) -> Result<GenerationProgress, GenerationError> {
    let mut run = start_generation(db, "ds", column_id)?;
    loop {
        match run.advance(db)? {
            GenerationStep::Generate(pending) => {
                let answer = generate(pending.request());
                run = pending.record(db, answer)?;
            },
            GenerationStep::Continue(next) => run = next,
            GenerationStep::Finished(progress) => return Ok(progress),
        }
    }
}

#[test]
fn a_run_fills_every_row_of_the_output_column() {
    let mut db = store_with_products("Pitch {{Product}}!", &["iPhone", "Pixel", "Galaxy"]);
    let mut prompts = Vec::new();
    let progress = run(&mut db, "pitch", |request| {
        prompts.push(request.prompt.clone());
        assert_eq!(request.max_tokens, Some(500));
        assert_eq!(request.temperature_hundredths, Some(70));
        assert_eq!(request.system_message, None);
        answer(&format!("generated for <{}>", request.prompt))
    })
    .unwrap();

    assert_eq!(progress, GenerationProgress { total: 3, completed: 3, failed: 0, current_row: None });
    assert_eq!(prompts, vec!["Pitch iPhone!", "Pitch Pixel!", "Pitch Galaxy!"]);
    let cells = db.get_column_cells("pitch");
    assert_eq!(cells.len(), 3);
    for (i, cell) in cells.iter().enumerate() {
        assert_eq!(cell.row_index, i as i32);
        assert_eq!(cell.status, CellStatus::Completed);
        assert_eq!(cell.value, Some(format!("generated for <{}>", prompts[i])));
        assert_eq!(cell.error, None);
    }
    assert_eq!((MAX_TOKENS, TEMPERATURE_HUNDREDTHS), (500, 70));
}

#[test]
fn a_failing_row_is_recorded_and_the_run_goes_on() {
    let mut db = store_with_products("{{Product}}", &["a", "b", "c", "d"]);
    let progress = run(&mut db, "pitch", |request| {
        if request.prompt == "b" {
            Err("rate limited".to_string())
        } else {
            answer(&request.prompt.to_uppercase())
        }
    })
    .unwrap();

    assert_eq!(progress.total, 4);
    assert_eq!(progress.completed, 3);
    assert_eq!(progress.failed, 1);
    assert_eq!(progress.completed + progress.failed, progress.total);

    let cells = db.get_column_cells("pitch");
    assert_eq!(cells.len(), 4);
    assert_eq!(cells[0].value.as_deref(), Some("A"));
    assert_eq!(cells[0].status, CellStatus::Completed);
    assert_eq!(cells[1].status, CellStatus::Error);
    assert_eq!(cells[1].value, None);
    assert_eq!(cells[1].error.as_deref(), Some("rate limited"));
    assert_eq!(cells[2].value.as_deref(), Some("C"));
    assert_eq!(cells[3].value.as_deref(), Some("D"));
}

#[test]
fn a_template_with_a_missing_reference_fails_every_row_without_the_generator() {
    let mut db = store_with_products("{{Product}} by {{Brand}} and {{ Maker }}", &["a", "b"]);
    let progress =
        run(&mut db, "pitch", |_| unreachable!("no prompt can be materialized")).unwrap();
    assert_eq!(progress, GenerationProgress { total: 2, completed: 0, failed: 2, current_row: None });
    for cell in db.get_column_cells("pitch") {
        assert_eq!(cell.status, CellStatus::Error);
        assert_eq!(
            cell.error.as_deref(),
            Some("Referenced columns not found: Brand, Maker")
        );
    }
}

#[test]
fn a_second_run_overwrites_the_first() {
    let mut db = store_with_products("{{Product}}", &["a", "b"]);
    run(&mut db, "pitch", |_| Err("down".to_string())).unwrap();
    let progress = run(&mut db, "pitch", |request| answer(&request.prompt)).unwrap();
    assert_eq!(progress, GenerationProgress { total: 2, completed: 2, failed: 0, current_row: None });
    let cells = db.get_column_cells("pitch");
    assert_eq!(cells.len(), 2);
    assert!(cells.iter().all(|c| c.status == CellStatus::Completed && c.error.is_none()));
}

#[test]
fn the_total_is_the_row_count_at_the_start() {
    let mut db = store_with_products("{{Product}}", &["a", "b", "c"]);
    let before = db.count_rows("ds");
    let started = start_generation(&db, "ds", "pitch").unwrap();
    assert_eq!(started.progress().total, before as usize);
    assert_eq!(started.progress().current_row, Some(0));
    assert_eq!(started.skipped(), 0);
    let progress = run(&mut db, "pitch", |request| answer(&request.prompt)).unwrap();
    assert_eq!(progress.total, before as usize);
}

#[test]
fn rows_are_read_by_their_place_and_written_at_their_number() {
    // The rows 0 and 5: the second row read is the row of index 5, and its
    // answer is written at row 1.
    let mut db = store_with_products("{{Product}}", &["zero"]);
    db.upsert_cell(&input_cell("in5", "product", 5, "five")).unwrap();
    let progress = run(&mut db, "pitch", |request| answer(&request.prompt)).unwrap();
    assert_eq!(progress, GenerationProgress { total: 2, completed: 2, failed: 0, current_row: None });
    let cells = db.get_column_cells("pitch");
    let written: Vec<(i32, Option<&str>)> =
        cells.iter().map(|c| (c.row_index, c.value.as_deref())).collect();
    // Writing row 1 made a row of its own, which is then the second row read.
    assert_eq!(written, vec![(0, Some("zero")), (1, Some("five"))]);
    assert_eq!(db.count_rows("ds"), 3);
}

#[test]
fn a_run_does_not_start_on_anything_but_an_output_column_with_a_prompt_and_rows() {
    let mut db = store_with_products("{{Product}}", &["a"]);
    db.add_column(column("bare", "Bare", ColumnType::Output, 2)).unwrap();

    let refused = |db: &Database, column_id: &str| start_generation(db, "ds", column_id).err();
    assert_eq!(refused(&db, "nowhere"), Some(GenerationError::ColumnNotFound));
    assert_eq!(refused(&db, "product"), Some(GenerationError::NotOutputColumn));
    assert_eq!(refused(&db, "bare"), Some(GenerationError::MissingPrompt));
    assert_eq!(start_generation(&db, "elsewhere", "pitch").err(), Some(GenerationError::ColumnNotFound));

    let empty = store_with_products("{{Product}}", &[]);
    assert_eq!(refused(&empty, "pitch"), Some(GenerationError::NoRows));

    assert_eq!(GenerationError::ColumnNotFound.message(), "Column not found");
    assert_eq!(
        GenerationError::NotOutputColumn.message(),
        "Can only generate cells for Output columns"
    );
    assert_eq!(GenerationError::MissingPrompt.message(), "Output column has no prompt template");
    assert_eq!(GenerationError::NoRows.message(), "No rows to generate cells for");
    assert_eq!(GenerationError::DatasetNotFound.message(), "Failed to get table view");
    assert_eq!(
        GenerationError::Storage(StorageError::Full).message(),
        "Failed to update cell: cell capacity exhausted"
    );
}

#[test]
fn a_row_that_has_gone_is_skipped_and_counted_as_neither() {
    let mut db = store_with_products("{{Product}}", &["a", "b"]);
    let started = start_generation(&db, "ds", "pitch").unwrap();
    // Someone else deletes the input column, and with it every cell, between two steps.
    db.delete_column("product");
    let mut run = started;
    let progress = loop {
        match run.advance(&mut db).unwrap() {
            GenerationStep::Generate(_) => unreachable!("no row is left to read"),
            GenerationStep::Continue(next) => {
                assert!(next.skipped() > 0);
                run = next;
            },
            GenerationStep::Finished(progress) => break progress,
        }
    };
    assert_eq!(progress, GenerationProgress { total: 2, completed: 0, failed: 0, current_row: None });
    assert!(db.get_column_cells("pitch").is_empty());
}

#[test]
fn a_run_stops_when_its_dataset_is_gone() {
    let mut db = store_with_products("{{Product}}", &["a", "b"]);
    let run = start_generation(&db, "ds", "pitch").unwrap();
    db.delete_dataset("ds");
    assert!(matches!(run.advance(&mut db), Err(GenerationError::DatasetNotFound)));
}

#[test]
fn a_pending_generation_knows_its_row() {
    let mut db = store_with_products("{{Product}}", &["a", "b"]);
    let run = start_generation(&db, "ds", "pitch").unwrap();
    let pending = match run.advance(&mut db).unwrap() {
        GenerationStep::Generate(pending) => pending,
        _ => unreachable!("the first row has a prompt"),
    };
    assert_eq!(pending.row_index(), 0);
    assert_eq!(pending.progress().current_row, Some(0));
    assert_eq!(pending.request().prompt, "a");
    let run = pending.record(&mut db, answer("A")).unwrap();
    assert_eq!(run.progress(), GenerationProgress { total: 2, completed: 1, failed: 0, current_row: Some(1) });
}

#[test]
fn a_run_stops_when_the_store_refuses_its_cell() {
    let mut db = store_with_products("{{Product}}", &["a", "b"]);
    let run = start_generation(&db, "ds", "pitch").unwrap();
    let pending = match run.advance(&mut db).unwrap() {
        GenerationStep::Generate(pending) => pending,
        _ => unreachable!("the first row has a prompt"),
    };
    // Someone else deletes the output column while the generator works.
    db.delete_column("pitch");
    let stopped = pending.record(&mut db, answer("A")).err();
    assert_eq!(stopped, Some(GenerationError::Storage(StorageError::UnknownColumn)));
    assert_eq!(stopped.unwrap().message(), "Failed to update cell: column not found");
    assert_eq!(db.count_rows("ds"), 2);
}

/// A generator that answers with the prompt in upper case and fails on the
/// prompts it was told to fail on.
struct Shouting {
    failing: Vec<String>,
    asked: Vec<String>,
}

impl Generator for Shouting {
    fn generate(&mut self, request: &GenerateRequest) -> Result<GenerateResponse, String> {
        self.asked.push(request.prompt.clone());
        if self.failing.contains(&request.prompt) {
            Err(format!("cannot say {}", request.prompt))
        } else {
            answer(&request.prompt.to_uppercase())
        }
    }
}

#[test]
fn a_whole_run_accounts_for_every_row() {
    let mut db = store_with_products("{{Product}}", &["a", "b", "c", "d", "e"]);
    let mut generator = Shouting { failing: vec!["b".to_string(), "e".to_string()], asked: Vec::new() };
    let rows_at_start = db.count_rows("ds");

    let progress = generate_column_cells(&mut db, "ds", "pitch", &mut generator).unwrap();

    assert_eq!(progress, GenerationProgress { total: 5, completed: 3, failed: 2, current_row: None });
    assert_eq!(progress.total, rows_at_start as usize);
    assert_eq!(progress.completed + progress.failed, progress.total);
    assert_eq!(generator.asked, vec!["a", "b", "c", "d", "e"]);
    let cells = db.get_column_cells("pitch");
    let shown: Vec<(i32, CellStatus, Option<&str>, Option<&str>)> = cells
        .iter()
        .map(|c| (c.row_index, c.status, c.value.as_deref(), c.error.as_deref()))
        .collect();
    assert_eq!(
        shown,
        vec![
            (0, CellStatus::Completed, Some("A"), None),
            (1, CellStatus::Error, None, Some("cannot say b")),
            (2, CellStatus::Completed, Some("C"), None),
            (3, CellStatus::Completed, Some("D"), None),
            (4, CellStatus::Error, None, Some("cannot say e")),
        ]
    );
    // The input cells are what they were.
    let inputs: Vec<Option<String>> =
        db.get_column_cells("product").into_iter().map(|c| c.value).collect();
    assert_eq!(inputs, ["a", "b", "c", "d", "e"].map(|v| Some(v.to_string())));
}

#[test]
fn a_whole_run_that_does_not_start_changes_nothing() {
    let mut db = store_with_products("{{Product}}", &["a"]);
    let mut generator = Shouting { failing: Vec::new(), asked: Vec::new() };
    assert_eq!(
        generate_column_cells(&mut db, "ds", "product", &mut generator),
        Err(GenerationError::NotOutputColumn)
    );
    assert_eq!(
        generate_column_cells(&mut db, "ds", "nowhere", &mut generator),
        Err(GenerationError::ColumnNotFound)
    );
    assert!(generator.asked.is_empty());
    assert!(db.get_column_cells("pitch").is_empty());
    assert_eq!(db.count_rows("ds"), 1);
}

#[test]
fn a_whole_run_over_sparse_rows_fills_as_many_rows_as_there_were() {
    let mut db = store_with_products("{{Product}}", &["zero"]);
    db.upsert_cell(&input_cell("in9", "product", 9, "nine")).unwrap();
    let mut generator = Shouting { failing: Vec::new(), asked: Vec::new() };
    let progress = generate_column_cells(&mut db, "ds", "pitch", &mut generator).unwrap();
    assert_eq!(progress, GenerationProgress { total: 2, completed: 2, failed: 0, current_row: None });
    assert_eq!(generator.asked, vec!["zero", "nine"]);
}

#[test]
fn an_answer_is_recorded_under_the_identifier_and_time_given() {
    let mut db = store_with_products("{{Product}}", &["a", "b"]);
    let run = start_generation(&db, "ds", "pitch").unwrap();
    let pending = match run.advance(&mut db).unwrap() {
        GenerationStep::Generate(pending) => pending,
        _ => unreachable!("the first row has a prompt"),
    };
    let run = pending
        .record_as(&mut db, answer("A"), "first".to_string(), Timestamp::from_micros(11))
        .unwrap();
    let cells = db.get_column_cells("pitch");
    assert_eq!(cells.len(), 1);
    assert_eq!(cells[0].id, "first");
    assert_eq!((cells[0].created_at.micros, cells[0].updated_at.micros), (11, 11));
    assert_eq!(cells[0].value.as_deref(), Some("A"));

    // The identifier of another cell is refused, and nothing is changed.
    let pending = match run.advance(&mut db).unwrap() {
        GenerationStep::Generate(pending) => pending,
        _ => unreachable!("the second row has a prompt"),
    };
    let stopped = pending
        .record_as(&mut db, Err("down".to_string()), "first".to_string(), Timestamp::from_micros(12))
        .err();
    assert_eq!(stopped, Some(GenerationError::Storage(StorageError::DuplicateId)));
    assert_eq!(db.get_column_cells("pitch").len(), 1);
}

#[test]
fn a_failed_materialization_is_recorded_under_the_identifier_and_time_given() {
    let mut db = store_with_products("{{Nope}}", &["a", "b"]);
    let run = start_generation(&db, "ds", "pitch").unwrap();
    let run = match run.advance_as(&mut db, "e0".to_string(), Timestamp::from_micros(5)).unwrap() {
        GenerationStep::Continue(next) => next,
        _ => unreachable!("the prompt cannot be materialized"),
    };
    let cells = db.get_column_cells("pitch");
    assert_eq!(cells.len(), 1);
    assert_eq!((cells[0].id.as_str(), cells[0].created_at.micros), ("e0", 5));
    assert_eq!(cells[0].error.as_deref(), Some("Referenced columns not found: Nope"));
    assert_eq!(cells[0].status, CellStatus::Error);
    assert_eq!(cells[0].value, None);

    let stopped = run.advance_as(&mut db, "e0".to_string(), Timestamp::from_micros(6)).err();
    assert_eq!(stopped, Some(GenerationError::Storage(StorageError::DuplicateId)));
    assert_eq!(db.get_column_cells("pitch").len(), 1);
}

#[test]
fn a_whole_run_leaves_every_other_cell_alone() {
    let mut db = store_with_products("{{Product}}", &["a", "b"]);
    db.add_column(column("other", "Other", ColumnType::Output, 2)).unwrap();
    db.upsert_cell(&input_cell("o0", "other", 0, "kept")).unwrap();
    db.upsert_cell(&input_cell("p7", "pitch", 7, "beyond the run")).unwrap();
    let before_inputs = db.get_column_cells("product");
    let mut generator = Shouting { failing: Vec::new(), asked: Vec::new() };

    let progress = generate_column_cells(&mut db, "ds", "pitch", &mut generator).unwrap();

    // Rows 0, 1 and 7 were there at the start; the third row read is row 7.
    assert_eq!(progress.total, 3);
    assert_eq!(db.get_column_cells("product"), before_inputs);
    assert_eq!(db.get_column_cells("other"), vec![input_cell("o0", "other", 0, "kept")]);
    let pitch = db.get_column_cells("pitch");
    assert_eq!(pitch.last().unwrap(), &input_cell("p7", "pitch", 7, "beyond the run"));
}
