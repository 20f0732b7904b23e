//! The storage engine: datasets, their columns and their cells.
//!
//! The store lives in memory. Whoever persists it reads the three tables
//! out, writes them where it likes, and hands them back to `restore`.

pub mod lemmas;
pub mod models;
pub mod operations;
pub mod table;
pub mod transfer;
pub mod model;

use crate::database::models::{Cell, Column, Dataset};
use crate::database::model::{consistent, Store};
use vstd::prelude::*;

verus! {

/// Why the store refused a change.
#[derive(Clone, Copy, Debug, PartialEq, Eq, Structural, Hash)]
pub enum StorageError {
    /// A record of the table already has the identifier.
    DuplicateId,
    /// No dataset has the identifier that the record names as its dataset.
    UnknownDataset,
    /// No column has the identifier that the cell names as its column.
    UnknownColumn,
    /// The store holds as many cells as it can.
    Full,
    /// The table to import has no row, not even a header.
    EmptyImport,
    /// The table to import has more rows or more header fields than an index can number.
    OversizedImport,
}

/// The text of `StorageError::message`.
pub open spec fn storage_error_text(error: StorageError) -> Seq<char> {
    match error {
        StorageError::DuplicateId => "identifier already in use"@,
        StorageError::UnknownDataset => "dataset not found"@,
        StorageError::UnknownColumn => "column not found"@,
        StorageError::Full => "cell capacity exhausted"@,
        StorageError::EmptyImport => "CSV data is empty"@,
        StorageError::OversizedImport => "CSV data is too large"@,
    }
}

impl StorageError {
    /// A description of the error for people.
    pub fn message(&self) -> (text: String)
        ensures
            text@ == storage_error_text(*self),
    {
        match self {
            StorageError::DuplicateId => String::from_str("identifier already in use"),
            StorageError::UnknownDataset => String::from_str("dataset not found"),
            StorageError::UnknownColumn => String::from_str("column not found"),
            StorageError::Full => String::from_str("cell capacity exhausted"),
            StorageError::EmptyImport => String::from_str("CSV data is empty"),
            StorageError::OversizedImport => String::from_str("CSV data is too large"),
        }
    }
}

/// The store: three tables, kept consistent by every operation.
#[derive(Debug)]
pub struct Database {
    datasets: Vec<Dataset>,
    columns: Vec<Column>,
    cells: Vec<Cell>,
}

impl View for Database {
    type V = Store;

    closed spec fn view(&self) -> Store {
        Store {
            datasets: self.datasets.deep_view(),
            columns: self.columns.deep_view(),
            cells: self.cells.deep_view(),
        }
    }
}

impl Database {
    /// Whether the store meets its constraints. Every operation keeps it so.
    pub open spec fn wf(&self) -> bool {
        consistent(self@)
    }
}

} // verus!
