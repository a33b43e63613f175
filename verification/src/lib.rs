//! Decision logic of a SQL console: cutting a submitted text into statements,
//! bounding the rows that a statement may return, choosing what to send over a
//! database session and reading names and object types out of what comes back.

pub mod access;
pub mod catalogs;
pub mod execute;
pub mod kill;
pub mod limit;
pub mod quote;
pub mod rows;
pub mod statement;
pub mod tables;
pub mod text;
