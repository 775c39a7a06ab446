//! Provides the validated document title type used by `FileDesc` and
//! `TeiHeader`, guaranteeing non-empty trimmed text for serialisation.

use vstd::prelude::*;

use crate::textnorm::{is_ws_char, trim_str, trimmed};

verus! {

/// Error raised when a [`DocumentTitle`] fails validation.
#[derive(Clone, Debug, Eq, PartialEq)]
pub enum DocumentTitleError {
    /// The provided title was empty after trimming whitespace.
    Empty,
}

/// Title metadata carried by a TEI document.
///
/// Titles are trimmed and must not be empty, ensuring downstream consumers
/// can always serialise a non-empty `<title>` element.
#[derive(Clone, Debug, Eq, PartialEq)]
pub struct DocumentTitle(String);

impl View for DocumentTitle {
    type V = Seq<char>;

    closed spec fn view(&self) -> Seq<char> {
        self.0@
    }
}

impl DocumentTitle {
    /// A valid title is non-empty and carries no leading or trailing
    /// whitespace.
    pub open spec fn wf(&self) -> bool {
        &&& self@.len() > 0
        &&& !is_ws_char(self@[0])
        &&& !is_ws_char(self@[self@.len() - 1])
    }

    /// Creates a validated document title.
    ///
    /// The input is trimmed; passing only whitespace returns
    /// [`DocumentTitleError::Empty`].
    pub fn new(value: &str) -> (r: Result<Self, DocumentTitleError>)
        ensures
            r matches Ok(t) ==> t@ == trimmed(value@) && t.wf(),
            r is Err <==> trimmed(value@).len() == 0,
            r matches Err(e) ==> e == DocumentTitleError::Empty,
    {
        let raw = trim_str(value);
        if raw.as_str().is_empty() {
            return Err(DocumentTitleError::Empty);
        }
        proof {
            crate::textnorm::lemma_trimmed_edges(value@);
        }
        Ok(DocumentTitle(raw))
    }

    /// Returns the title as a string slice.
    pub fn as_str(&self) -> (r: &str)
        ensures
            r@ == self@,
    {
        self.0.as_str()
    }
}

} // verus!
