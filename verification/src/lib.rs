//! The core of a language server: a session-scoped overlay of unsaved
//! edits, a controller for the compiled module set, a mapper between byte
//! offsets and editor positions, a node locator and the query handlers.

pub mod ast;
pub mod compiler;
pub mod error;
pub mod line_numbers;
pub mod overlay;
pub mod protocol;
pub mod server;
pub mod span;
pub mod text;
pub mod url;
