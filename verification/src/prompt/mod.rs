//! The prompt materializer: resolves the `{{name}}` placeholders of a
//! template against the cells of one row.

pub mod materialize;
pub mod replace;
pub mod scan;
