//! An alias manager: short names bound to shell commands, kept as a flat text table,
//! with `**x` placeholders in a command filled in from a `key=value,...` argument.
//!
//! - [`subst`] fills placeholders and reads the substitution argument.
//! - [`table`] is the alias table, [`format`] the text that it is stored as, and
//!   [`table_laws`] what holds of the two.
//! - [`resolver`] adds, removes and resolves aliases on a table.
//! - [`store`] says where the table is kept and what a read of that place means.
//! - [`cli`] decides what one invocation does, from its arguments and the stored text.
//! - [`error`] names the kinds of failure and their exit statuses.
//! - [`text`] turns strings into characters and back.
//!
//! Reading and writing files, asking at the terminal and starting the shell are left to
//! the program that uses this library.

pub mod cli;
pub mod error;
pub mod format;
pub mod resolver;
pub mod store;
pub mod subst;
pub mod table;
pub mod table_laws;
pub mod text;
