//! Revision history metadata recorded in the TEI header.
//!
//! Captures revision notes alongside optional responsible parties while
//! enforcing trimmed, non-empty text for each recorded field.

use vstd::prelude::*;

use crate::header::{normalise_optional_text, HeaderValidationError};
use crate::textnorm::{trim_str, trimmed};

verus! {

/// Named agent responsible for a revision note.
#[derive(Clone, Debug, Eq, PartialEq)]
pub struct ResponsibleParty(pub(crate) String);

impl View for ResponsibleParty {
    type V = Seq<char>;

    closed spec fn view(&self) -> Seq<char> {
        self.0@
    }
}

impl ResponsibleParty {
    /// Builds a responsibility marker from the provided text.
    ///
    /// Fails exactly when the marker trims to an empty string.
    pub fn new(value: &str) -> (r: Result<Self, HeaderValidationError>)
        ensures
            r is Err <==> trimmed(value@).len() == 0,
            r matches Err(e) ==> e matches HeaderValidationError::EmptyField { field } && field@
                == "revision responsibility"@,
            r matches Ok(p) ==> p@ == trimmed(value@),
    {
        let raw = trim_str(value);
        if raw.as_str().is_empty() {
            Err(HeaderValidationError::EmptyField { field: "revision responsibility" })
        } else {
            Ok(ResponsibleParty(raw))
        }
    }

    /// Returns the marker as a string slice.
    pub fn as_str(&self) -> (r: &str)
        ensures
            r@ == self@,
    {
        self.0.as_str()
    }
}

/// Individual revision note captured in `<revisionDesc>`.
#[derive(Clone, Debug, PartialEq)]
pub struct RevisionChange {
    pub(crate) description: String,
    pub(crate) resp: Option<ResponsibleParty>,
}

impl RevisionChange {
    /// The note text.
    pub open(crate) spec fn spec_description(&self) -> Seq<char> {
        self.description@
    }

    /// The optional responsibility marker.
    pub open(crate) spec fn spec_resp(&self) -> Option<ResponsibleParty> {
        self.resp
    }

    /// Creates a revision note with an optional responsibility marker.
    ///
    /// Fails exactly when the description is empty after trimming; a blank
    /// responsibility marker is dropped.
    pub fn new(description: &str, resp: &str) -> (r: Result<Self, HeaderValidationError>)
        ensures
            r is Err <==> trimmed(description@).len() == 0,
            r matches Err(e) ==> e matches HeaderValidationError::EmptyField { field } && field@
                == "revision note"@,
            r matches Ok(c) ==> {
                &&& c.spec_description() == trimmed(description@)
                &&& (c.spec_resp() is Some <==> trimmed(resp@).len() > 0)
                &&& (c.spec_resp() matches Some(p) ==> p@ == trimmed(resp@))
            },
    {
        let normalised_description = trim_str(description);
        if normalised_description.as_str().is_empty() {
            return Err(HeaderValidationError::EmptyField { field: "revision note" });
        }
        let resp_marker = match normalise_optional_text(resp) {
            Some(text) => Some(ResponsibleParty(text)),
            None => None,
        };
        Ok(RevisionChange { description: normalised_description, resp: resp_marker })
    }

    /// Returns the note text.
    pub fn description(&self) -> (r: &str)
        ensures
            r@ == self.spec_description(),
    {
        self.description.as_str()
    }

    /// Returns the optional responsibility marker.
    pub fn resp(&self) -> (r: Option<&ResponsibleParty>)
        ensures
            r is Some <==> self.spec_resp() is Some,
            r matches Some(p) ==> Some(*p) == self.spec_resp(),
    {
        self.resp.as_ref()
    }
}

/// Revision history records.
#[derive(Clone, Debug, PartialEq)]
pub struct RevisionDesc {
    pub(crate) changes: Vec<RevisionChange>,
}

impl RevisionDesc {
    /// The recorded revision history.
    pub open(crate) spec fn spec_changes(&self) -> Seq<RevisionChange> {
        self.changes@
    }

    /// Creates an empty revision log.
    pub fn new() -> (r: Self)
        ensures
            r.spec_changes().len() == 0,
    {
        RevisionDesc { changes: Vec::new() }
    }

    /// Appends a revision note.
    pub fn add_change(&mut self, change: RevisionChange)
        ensures
            final(self).spec_changes() == old(self).spec_changes().push(change),
    {
        self.changes.push(change);
    }

    /// Returns the recorded revision history.
    pub fn changes(&self) -> (r: &[RevisionChange])
        ensures
            r@ == self.spec_changes(),
    {
        self.changes.as_slice()
    }

    /// Returns the recorded change at `index`.
    pub fn change_at(&self, index: usize) -> (r: &RevisionChange)
        requires
            index < self.spec_changes().len(),
        ensures
            *r == self.spec_changes()[index as int],
    {
        &self.changes[index]
    }

    /// Reports whether the revision log has entries.
    pub fn is_empty(&self) -> (r: bool)
        ensures
            r == (self.spec_changes().len() == 0),
    {
        self.changes.is_empty()
    }
}

} // verus!
