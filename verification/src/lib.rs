//! Core data structures for a CPU-based Hierarchical Navigable Small World
//! (HNSW) index, together with the validated TEI document model that shares
//! this workspace.

use vstd::prelude::*;

mod datasource;
mod header;
pub mod hnsw;
mod support;
mod text;
mod textnorm;
mod title;
mod xml;

pub use datasource::{DataSource, DataSourceError, Distance};
pub use header::{
    AnnotationSystem, AnnotationSystemId, EncodingDesc, FileDesc, HeaderValidationError,
    LanguageTag, ProfileDesc, ResponsibleParty, RevisionChange, RevisionDesc, SpeakerName,
    TeiHeader,
};
pub use hnsw::{CpuHnsw, HnswError, HnswParams};
pub use support::{expect_markup, expect_validated_state};
pub use text::{
    BodyBlock, BodyContentError, Hi, IdentifierValidationError, Inline, Pause, Speaker,
    SpeakerValidationError, TeiBody, TeiText, Utterance, XmlId, P,
};
pub use title::{DocumentTitle, DocumentTitleError};
pub use xml::{
    escape_xml_text, first_forbidden_xml_char, is_forbidden_xml_char, serialize_document_title,
    serialize_title,
};

verus! {

/// Errors raised by TEI data model operations.
#[derive(Clone, Debug, Eq, PartialEq)]
#[non_exhaustive]
pub enum TeiError {
    /// Wrapper around [`DocumentTitleError`] values.
    DocumentTitle(DocumentTitleError),
    /// Wrapper around [`HeaderValidationError`] values.
    Header(HeaderValidationError),
    /// Wrapper around [`BodyContentError`] values.
    Body(BodyContentError),
    /// Wrapper around [`IdentifierValidationError`] values.
    Identifier(IdentifierValidationError),
    /// Wrapper around [`SpeakerValidationError`] values.
    Speaker(SpeakerValidationError),
}

impl From<DocumentTitleError> for TeiError {
    fn from(e: DocumentTitleError) -> (r: Self) {
        TeiError::DocumentTitle(e)
    }
}

impl vstd::std_specs::convert::FromSpecImpl<DocumentTitleError> for TeiError {
    open spec fn obeys_from_spec() -> bool {
        true
    }

    open spec fn from_spec(e: DocumentTitleError) -> Self {
        TeiError::DocumentTitle(e)
    }
}

impl From<HeaderValidationError> for TeiError {
    fn from(e: HeaderValidationError) -> (r: Self) {
        TeiError::Header(e)
    }
}

impl vstd::std_specs::convert::FromSpecImpl<HeaderValidationError> for TeiError {
    open spec fn obeys_from_spec() -> bool {
        true
    }

    open spec fn from_spec(e: HeaderValidationError) -> Self {
        TeiError::Header(e)
    }
}

impl From<BodyContentError> for TeiError {
    fn from(e: BodyContentError) -> (r: Self) {
        TeiError::Body(e)
    }
}

impl vstd::std_specs::convert::FromSpecImpl<BodyContentError> for TeiError {
    open spec fn obeys_from_spec() -> bool {
        true
    }

    open spec fn from_spec(e: BodyContentError) -> Self {
        TeiError::Body(e)
    }
}

impl From<IdentifierValidationError> for TeiError {
    fn from(e: IdentifierValidationError) -> (r: Self) {
        TeiError::Identifier(e)
    }
}

impl vstd::std_specs::convert::FromSpecImpl<IdentifierValidationError> for TeiError {
    open spec fn obeys_from_spec() -> bool {
        true
    }

    open spec fn from_spec(e: IdentifierValidationError) -> Self {
        TeiError::Identifier(e)
    }
}

impl From<SpeakerValidationError> for TeiError {
    fn from(e: SpeakerValidationError) -> (r: Self) {
        TeiError::Speaker(e)
    }
}

impl vstd::std_specs::convert::FromSpecImpl<SpeakerValidationError> for TeiError {
    open spec fn obeys_from_spec() -> bool {
        true
    }

    open spec fn from_spec(e: SpeakerValidationError) -> Self {
        TeiError::Speaker(e)
    }
}

/// Root TEI document combining metadata and textual content.
#[derive(Debug, PartialEq)]
pub struct TeiDocument {
    pub(crate) header: TeiHeader,
    pub(crate) text: TeiText,
}

impl TeiDocument {
    /// The document's header.
    pub open(crate) spec fn spec_header(&self) -> TeiHeader {
        self.header
    }

    /// The document's textual component.
    pub open(crate) spec fn spec_text(&self) -> TeiText {
        self.text
    }

    /// Builds a document from fully formed components.
    pub fn new(header: TeiHeader, text: TeiText) -> (r: Self)
        ensures
            r.spec_header() == header,
            r.spec_text() == text,
    {
        TeiDocument { header, text }
    }

    /// Validates an input title and constructs a skeletal document.
    ///
    /// Fails exactly when the supplied title trims to an empty string.
    pub fn from_title_str(value: &str) -> (r: Result<Self, TeiError>)
        ensures
            r is Err <==> crate::textnorm::trimmed(value@).len() == 0,
            r matches Err(e) ==> e == TeiError::DocumentTitle(DocumentTitleError::Empty),
            r matches Ok(d) ==> {
                &&& d.spec_header().spec_file_desc().spec_title()@ == crate::textnorm::trimmed(
                    value@,
                )
                &&& d.spec_header().spec_profile_desc() is None
                &&& d.spec_header().spec_encoding_desc() is None
                &&& d.spec_header().spec_revision_desc() is None
                &&& d.spec_text().spec_body().spec_blocks().len() == 0
            },
    {
        match FileDesc::from_title_str(value) {
            Ok(file_desc) => Ok(TeiDocument::new(TeiHeader::new(file_desc), TeiText::empty())),
            Err(e) => Err(TeiError::DocumentTitle(e)),
        }
    }

    /// Returns the TEI header.
    pub fn header(&self) -> (r: &TeiHeader)
        ensures
            *r == self.spec_header(),
    {
        &self.header
    }

    /// Returns the textual component.
    pub fn text(&self) -> (r: &TeiText)
        ensures
            *r == self.spec_text(),
    {
        &self.text
    }

    /// Returns the validated title.
    pub fn title(&self) -> (r: &DocumentTitle)
        ensures
            *r == self.spec_header().spec_file_desc().spec_title(),
    {
        self.header.file_desc().title()
    }
}

} // verus!
