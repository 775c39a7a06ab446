//! Validation errors for TEI body content.

use vstd::prelude::*;

verus! {

/// Error raised when TEI body content fails validation.
#[derive(Clone, Debug, Eq, PartialEq)]
pub enum BodyContentError {
    /// A container (paragraph or utterance) was left empty after trimming.
    EmptyContent {
        /// Name of the container that failed validation.
        container: &'static str,
    },
    /// A text segment lacked visible characters.
    EmptySegment {
        /// Name of the container that received the invalid segment.
        container: &'static str,
    },
    /// A speaker reference was provided but contained no visible characters.
    EmptySpeaker,
    /// An `xml:id` attribute was provided but contained no visible
    /// characters.
    EmptyIdentifier {
        /// Name of the container that received the invalid identifier.
        container: &'static str,
    },
    /// An `xml:id` attribute contained internal whitespace, which is
    /// disallowed.
    InvalidIdentifier {
        /// Name of the container that received the invalid identifier.
        container: &'static str,
    },
}

} // verus!
