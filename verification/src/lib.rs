//! A spreadsheet-like dataset store whose output cells are produced by
//! resolving a per-column prompt template against the other cells of a row
//! and handing the prompt to a text generator.
//!
//! Every function here is verified against its contract, but for the few
//! that call outside code: those say in their documentation what is taken
//! on trust. Contracts speak of values through their views: strings as
//! `Seq<char>`, records as view structs, the store as three sequences of
//! record views.

pub mod csv_io;
pub mod database;
pub mod generator;
pub mod laws;
pub mod prompt;
pub mod providers;
pub mod seqs;
pub mod stamp;
pub mod text;
pub mod utils;
