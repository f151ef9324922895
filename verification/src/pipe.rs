//! The kinds of ends of a byte pipe.

use vstd::prelude::*;

verus! {

/// How the reading end of a byte pipe behaves when no data is available.
#[derive(Debug, Clone, Copy, PartialEq, Eq, Structural)]
pub enum ReaderType {
    Blocking,
    NonBlocking,
}

/// How the writing end of a byte pipe behaves when the pipe is full.
#[derive(Debug, Clone, Copy, PartialEq, Eq, Structural)]
pub enum WriterType {
    Blocking,
    NonBlocking,
}

} // verus!
