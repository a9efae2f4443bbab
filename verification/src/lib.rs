//! A toolchain core for a binary data description language: a dependently
//! typed core calculus with a distinguished universe of binary formats, an
//! operational semantics producing weak-head-normal values, a bidirectional
//! elaborator from surface syntax, and a backend lowering checked modules to
//! host-language readers.

use vstd::prelude::*;

pub mod integer;
pub mod term;
pub mod semantics;
pub mod laws;
pub mod target;
pub mod emit;
pub mod pretty;
pub mod core_to_pretty;
pub mod surface;
pub mod elaborate;
pub mod lower;

verus! {

/// A byte region in a source file. Ranges identify where a term came from;
/// they never influence definitional equality.
#[derive(Clone, Copy, Debug, PartialEq, Eq, Structural)]
pub struct Range {
    pub start: usize,
    pub end: usize,
}

impl Range {
    pub fn new(start: usize, end: usize) -> (r: Range)
        ensures
            r.start == start,
            r.end == end,
    {
        Range { start, end }
    }
}

} // verus!
