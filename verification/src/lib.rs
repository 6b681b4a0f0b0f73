//! A macro-expansion engine for text.
//!
//! A text is read line by line. The commencement character `@` followed by
//! an opening bracket begins a call, `@(head argument ...)`, which may hold
//! further calls. When a call closes, its head is looked up as a command
//! and, failing that, as a variable, and the text this gives takes the
//! call's place: in the output, or among the arguments of the call around
//! it. Calls are resolved innermost first.
//!
//! - [`text`]: the characters of the grammar, and positions in UTF-8 text.
//! - [`token`] and [`exception`]: lexemes with their place, and errors.
//! - [`entries`]: entries by name, as the store and the commands keep
//!   them.
//! - [`store`]: the variables, a stack of scopes.
//! - [`scanner`]: the state machine that reads characters, and what an
//!   expansion is.
//! - [`executor`]: what the scanner hands its finds to, and the expansion
//!   of a text by any executor.
//! - [`context`]: variables and commands together, an executor.

pub mod context;
pub mod entries;
pub mod exception;
pub mod executor;
pub mod scanner;
pub mod store;
pub mod text;
pub mod token;
