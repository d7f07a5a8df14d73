//! The failures that the server hands to its caller.

use vstd::prelude::*;

verus! {

/// A failure that a handler reports. None of them ends the session, and
/// none leaves the overlay or the compiled modules half changed.
#[derive(Debug)]
pub enum Error {
    /// The compiler rejected the project. The modules of the last
    /// compilation that succeeded stay in place.
    CompileFailure { message: String },
    /// A file has no override and could not be read from disk.
    FileUnavailable { path: String },
    /// The pretty-printer rejected the text.
    FormatError { message: String },
}

} // verus!
