//! Bookkeeping for academic subject results: a textual record format,
//! a result set with exact grade-point totals, a command language and
//! the session that interprets it.

pub mod text;
pub mod fraction;
pub mod subject_result;
pub mod results;
pub mod command;
pub mod repl;
