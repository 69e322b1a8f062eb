//! A job-control engine for a command-line shell: the data model of
//! processes and jobs, pipeline construction, the reaping of child status
//! changes, and the foreground/background protocol.

pub mod builtin;
pub mod control;
pub mod eval;
pub mod expr;
pub mod parser;
pub mod process;
pub mod shell;
pub mod sys;
pub mod table;
pub mod text;
pub mod variable;
