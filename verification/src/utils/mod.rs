//! What the application needs to know of the machine it runs on.

pub mod installer;
pub mod paths;
