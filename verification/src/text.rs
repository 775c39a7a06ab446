//! Models the textual body stored alongside the TEI header metadata.
//!
//! A `TeiText` owns a `TeiBody`, which in turn stores ordered blocks of
//! paragraphs and utterances. Each element validates that visible text is
//! present so downstream tooling can rely on non-empty content.

use vstd::prelude::*;

pub(crate) mod body;
mod inline;
mod types;

pub use body::{BodyBlock, BodyContentError, TeiBody, P, Utterance};
pub use inline::{Hi, Inline, Pause};
pub use types::{IdentifierValidationError, Speaker, SpeakerValidationError, XmlId};

verus! {

/// Body of a TEI document, including paragraphs and utterances.
#[derive(Debug, PartialEq)]
pub struct TeiText {
    pub(crate) body: TeiBody,
}

impl TeiText {
    /// The stored body.
    pub open(crate) spec fn spec_body(&self) -> TeiBody {
        self.body
    }

    /// Builds a text wrapper around the provided body.
    pub fn new(body: TeiBody) -> (r: Self)
        ensures
            r.spec_body() == body,
    {
        TeiText { body }
    }

    /// Returns an empty text node.
    pub fn empty() -> (r: Self)
        ensures
            r.spec_body().spec_blocks().len() == 0,
    {
        TeiText { body: TeiBody { blocks: Vec::new() } }
    }

    /// Reports whether any body content has been recorded.
    pub fn is_empty(&self) -> (r: bool)
        ensures
            r == (self.spec_body().spec_blocks().len() == 0),
    {
        self.body.is_empty()
    }

    /// Returns the stored body.
    pub fn body(&self) -> (r: &TeiBody)
        ensures
            *r == self.spec_body(),
    {
        &self.body
    }

    /// Appends a paragraph block to the underlying body.
    pub fn push_paragraph(&mut self, paragraph: P)
        ensures
            final(self).spec_body().spec_blocks() == old(self).spec_body().spec_blocks().push(
                BodyBlock::Paragraph(paragraph),
            ),
    {
        self.body.push_paragraph(paragraph);
    }

    /// Appends an utterance block to the underlying body.
    pub fn push_utterance(&mut self, utterance: Utterance)
        ensures
            final(self).spec_body().spec_blocks() == old(self).spec_body().spec_blocks().push(
                BodyBlock::Utterance(utterance),
            ),
    {
        self.body.push_utterance(utterance);
    }

    /// Extends the underlying body with additional blocks.
    pub fn extend(&mut self, blocks: Vec<BodyBlock>)
        ensures
            final(self).spec_body().spec_blocks() == old(self).spec_body().spec_blocks()
                + blocks@,
    {
        self.body.extend(blocks);
    }
}

} // verus!
