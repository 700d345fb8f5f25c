//! The library's errors: the staged format failures of the parser, and
//! the compression failure of the cache.

use vstd::prelude::*;

verus! {

/// The stage at which an input text fails to parse.
#[derive(Clone, Copy, Debug, PartialEq, Eq, Structural)]
pub enum Stage {
    /// No first line boundary, or the header line does not carry the five
    /// job fields.
    Header,
    /// No second line boundary.
    Params,
    /// No line of the body matches the metric shape.
    Template,
}

/// An error of the library.
#[derive(Clone, Copy, Debug, PartialEq, Eq, Structural)]
pub enum Error {
    /// The input text failed to parse at the given stage.
    Format(Stage),
    /// A compressed payload could not be produced: the storage-class
    /// error that `Cache::set` carries in its result type. Compressing
    /// into memory does not fail, so `set` never actually returns it.
    Compression,
}

} // verus!
