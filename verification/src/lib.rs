//! A miniature line-oriented table store: create a table, insert a row,
//! project columns, drop a table. Statements are plain text; all values
//! are opaque byte strings. Parsing and execution are verified; reading
//! lines and persisting snapshots live outside the library.

pub mod command;
pub mod laws;
pub mod model;
pub mod stmt;
pub mod text;
