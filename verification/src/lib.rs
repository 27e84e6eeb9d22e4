//! A small recursive text-search library: a query over lines of text, a
//! directory-traversal state machine with `.gitignore`-style exclusion rules,
//! and per-line match reporting.
use vstd::prelude::*;

pub mod ignore;
pub mod options;
pub mod pattern;
pub mod report;
pub mod text;
pub mod traverse;

verus! {

/// Why a search could not be set up. Each is fatal: the caller aborts with a
/// diagnostic instead of producing partial results.
#[derive(Clone, Copy, Debug, PartialEq, Eq, Structural)]
pub enum SearchError {
    /// Neither a literal nor a pattern query was supplied.
    MissingQuery,
    /// The query pattern text does not compile.
    InvalidPattern,
    /// The combined exclude pattern built from the exclude tokens does not compile.
    InvalidExclude,
    /// The combined exclusion pattern built from an ignore file does not compile.
    InvalidIgnore,
}

} // verus!
