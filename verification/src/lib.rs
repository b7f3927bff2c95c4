//! A documentation-driven test runner.
//!
//! A test document is markdown text. Every line that begins a new top-level
//! list entry (a `*` right after a newline) opens a section; the lines of a
//! section that carry a bullet-with-backtick marker are its test items. An
//! item passes when it carries the `=>` separator and fails otherwise; a
//! section succeeds when it has at least one item and no failing one. The
//! report keeps the document's preamble and section order and rewrites each
//! section as a verdict line followed by its annotated items.

pub mod classify;
pub mod naming;
pub mod report;
pub mod section;
pub mod segment;
pub mod text;

use vstd::prelude::*;

verus! {

/// Why a run cannot produce a report.
#[derive(PartialEq, Eq, Structural, Clone, Copy, Debug)]
pub enum RunError {
    /// The document holds no section boundary: there is nothing to test.
    NoSections,
}

} // verus!
