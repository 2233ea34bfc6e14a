//! Lexical errors that end a scan.

use vstd::prelude::*;

verus! {

/// What went wrong while scanning.
#[derive(Copy, Clone, Debug, PartialEq, Eq, Structural)]
pub enum YamlError {
    /// A directive line was not followed by the document start marker `---`.
    MissingDocumentMarker,
}

} // verus!
