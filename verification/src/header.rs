//! TEI header model combining bibliographic, profile, encoding, and revision
//! metadata.
//!
//! Exposes the validation errors and helper types consumed throughout the
//! crate.

use vstd::prelude::*;

use crate::textnorm::{trim_str, trimmed};

mod encoding;
mod file;
mod profile;
mod revision;

pub use encoding::{AnnotationSystem, AnnotationSystemId, EncodingDesc};
pub use file::FileDesc;
pub use profile::{LanguageTag, ProfileDesc, SpeakerName};
pub use revision::{ResponsibleParty, RevisionChange, RevisionDesc};

verus! {

/// Error raised when TEI header metadata fails validation.
#[derive(Clone, Debug, Eq, PartialEq)]
pub enum HeaderValidationError {
    /// A textual field was empty once normalised.
    EmptyField {
        /// Name of the empty field.
        field: &'static str,
    },
}

/// Metadata container for TEI header information.
#[derive(Clone, Debug, PartialEq)]
pub struct TeiHeader {
    pub(crate) file: FileDesc,
    pub(crate) profile: Option<ProfileDesc>,
    pub(crate) encoding: Option<EncodingDesc>,
    pub(crate) revision: Option<RevisionDesc>,
}

impl TeiHeader {
    /// The file description held by the header.
    pub open(crate) spec fn spec_file_desc(&self) -> FileDesc {
        self.file
    }

    /// The optional profile description.
    pub open(crate) spec fn spec_profile_desc(&self) -> Option<ProfileDesc> {
        self.profile
    }

    /// The optional encoding description.
    pub open(crate) spec fn spec_encoding_desc(&self) -> Option<EncodingDesc> {
        self.encoding
    }

    /// The optional revision description.
    pub open(crate) spec fn spec_revision_desc(&self) -> Option<RevisionDesc> {
        self.revision
    }

    /// Creates a header from its mandatory file description.
    pub fn new(file_desc: FileDesc) -> (r: Self)
        ensures
            r.spec_file_desc() == file_desc,
            r.spec_profile_desc() is None,
            r.spec_encoding_desc() is None,
            r.spec_revision_desc() is None,
    {
        TeiHeader { file: file_desc, profile: None, encoding: None, revision: None }
    }

    /// Returns the file description.
    pub fn file_desc(&self) -> (r: &FileDesc)
        ensures
            *r == self.spec_file_desc(),
    {
        &self.file
    }

    /// Returns the profile description when provided.
    pub fn profile_desc(&self) -> (r: Option<&ProfileDesc>)
        ensures
            r is Some <==> self.spec_profile_desc() is Some,
            r matches Some(p) ==> Some(*p) == self.spec_profile_desc(),
    {
        self.profile.as_ref()
    }

    /// Returns the encoding description when provided.
    pub fn encoding_desc(&self) -> (r: Option<&EncodingDesc>)
        ensures
            r is Some <==> self.spec_encoding_desc() is Some,
            r matches Some(e) ==> Some(*e) == self.spec_encoding_desc(),
    {
        self.encoding.as_ref()
    }

    /// Returns the revision description when provided.
    pub fn revision_desc(&self) -> (r: Option<&RevisionDesc>)
        ensures
            r is Some <==> self.spec_revision_desc() is Some,
            r matches Some(d) ==> Some(*d) == self.spec_revision_desc(),
    {
        self.revision.as_ref()
    }

    /// Attaches a profile description.
    pub fn with_profile_desc(self, profile_desc: ProfileDesc) -> (r: Self)
        ensures
            r.spec_profile_desc() == Some(profile_desc),
            r.spec_file_desc() == self.spec_file_desc(),
            r.spec_encoding_desc() == self.spec_encoding_desc(),
            r.spec_revision_desc() == self.spec_revision_desc(),
    {
        let mut header = self;
        header.profile = Some(profile_desc);
        header
    }

    /// Attaches an encoding description.
    pub fn with_encoding_desc(self, encoding_desc: EncodingDesc) -> (r: Self)
        ensures
            r.spec_encoding_desc() == Some(encoding_desc),
            r.spec_file_desc() == self.spec_file_desc(),
            r.spec_profile_desc() == self.spec_profile_desc(),
            r.spec_revision_desc() == self.spec_revision_desc(),
    {
        let mut header = self;
        header.encoding = Some(encoding_desc);
        header
    }

    /// Attaches a revision description.
    pub fn with_revision_desc(self, revision_desc: RevisionDesc) -> (r: Self)
        ensures
            r.spec_revision_desc() == Some(revision_desc),
            r.spec_file_desc() == self.spec_file_desc(),
            r.spec_profile_desc() == self.spec_profile_desc(),
            r.spec_encoding_desc() == self.spec_encoding_desc(),
    {
        let mut header = self;
        header.revision = Some(revision_desc);
        header
    }
}

/// Trims the input and keeps it only when visible characters remain.
pub(crate) fn normalise_optional_text(value: &str) -> (r: Option<String>)
    ensures
        r is Some <==> trimmed(value@).len() > 0,
        r matches Some(t) ==> t@ == trimmed(value@),
{
    let t = trim_str(value);
    if t.as_str().is_empty() {
        None
    } else {
        Some(t)
    }
}

} // verus!
