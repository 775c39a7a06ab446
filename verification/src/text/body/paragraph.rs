//! Paragraph body model handling inline content and identifier management.
//!
//! Defines the TEI `<p>` block with constructors that validate inline
//! segments and optional `xml:id` attributes.

use vstd::prelude::*;

use crate::text::body::{
    container_ok, content_error_for, ensure_container_content, push_validated_inline,
    push_validated_text_segment, set_optional_identifier, BodyContentError,
};
use crate::text::inline::{inline_ok, Inline};
use crate::text::types::XmlId;
use crate::textnorm::{is_ws_char, trimmed};

verus! {

/// Paragraph element containing inline content.
#[derive(Debug, PartialEq)]
pub struct P {
    pub(crate) id: Option<XmlId>,
    pub(crate) content: Vec<Inline>,
}

impl P {
    /// The optional `xml:id`.
    pub open(crate) spec fn spec_id(&self) -> Option<XmlId> {
        self.id
    }

    /// The inline content.
    pub open(crate) spec fn spec_content(&self) -> Seq<Inline> {
        self.content@
    }

    /// A paragraph always carries valid, non-empty inline content.
    pub open(crate) spec fn wf(&self) -> bool {
        container_ok(self.spec_content())
    }

    /// Builds a paragraph from the provided text segments.
    pub fn new(segments: Vec<String>) -> (r: Result<Self, BodyContentError>)
        ensures
            r is Ok <==> segments@.len() > 0 && (forall|i: int|
                0 <= i < segments@.len() ==> trimmed((#[trigger] segments@[i])@).len() > 0),
            r matches Ok(p) ==> p.spec_id() is None && p.wf() && p.spec_content().len()
                == segments@.len() && (forall|i: int|
                0 <= i < segments@.len() ==> ((#[trigger] p.spec_content()[i])
                    matches Inline::Text(t) && t@ == segments@[i]@)),
            r matches Err(e) ==> content_error_for(e, "paragraph"),
            r matches Err(e) ==> if segments@.len() == 0 {
                (e matches BodyContentError::EmptyContent { container: c } && c@ == "paragraph"@)
            } else {
                (e matches BodyContentError::EmptySegment { container: c } && c@ == "paragraph"@)
            },
    {
        P::from_text_segments(segments)
    }

    /// Builds a paragraph from text segments, validating each for visible
    /// characters; an empty list is rejected.
    pub fn from_text_segments(segments: Vec<String>) -> (r: Result<Self, BodyContentError>)
        ensures
            r is Ok <==> segments@.len() > 0 && (forall|i: int|
                0 <= i < segments@.len() ==> trimmed((#[trigger] segments@[i])@).len() > 0),
            r matches Ok(p) ==> p.spec_id() is None && p.wf() && p.spec_content().len()
                == segments@.len() && (forall|i: int|
                0 <= i < segments@.len() ==> ((#[trigger] p.spec_content()[i])
                    matches Inline::Text(t) && t@ == segments@[i]@)),
            r matches Err(e) ==> content_error_for(e, "paragraph"),
            r matches Err(e) ==> if segments@.len() == 0 {
                (e matches BodyContentError::EmptyContent { container: c } && c@ == "paragraph"@)
            } else {
                (e matches BodyContentError::EmptySegment { container: c } && c@ == "paragraph"@)
            },
    {
        let mut content: Vec<Inline> = Vec::new();
        let mut i: usize = 0;
        while i < segments.len()
            invariant
                i <= segments@.len(),
                content@.len() == i,
                forall|j: int|
                    0 <= j < i ==> ((#[trigger] content@[j]) matches Inline::Text(t) && t@
                        == segments@[j]@),
                forall|j: int| 0 <= j < i ==> trimmed((#[trigger] segments@[j])@).len() > 0,
            decreases segments@.len() - i,
        {
            match push_validated_text_segment(&mut content, segments[i].as_str(), "paragraph") {
                Ok(()) => {},
                Err(e) => {
                    return Err(e);
                },
            }
            i = i + 1;
        }
        match ensure_container_content(content.as_slice(), "paragraph") {
            Ok(()) => Ok(P { id: None, content }),
            Err(e) => Err(e),
        }
    }

    /// Builds a paragraph from pre-constructed inline content, validating
    /// that every node carries visible content.
    pub fn from_inline(content: Vec<Inline>) -> (r: Result<Self, BodyContentError>)
        ensures
            r is Ok <==> container_ok(content@),
            r matches Ok(p) ==> p.spec_id() is None && p.wf() && p.spec_content() == content@,
            r matches Err(e) ==> content_error_for(e, "paragraph"),
    {
        match ensure_container_content(content.as_slice(), "paragraph") {
            Ok(()) => Ok(P { id: None, content }),
            Err(e) => Err(e),
        }
    }

    /// Sets an `xml:id` attribute on the paragraph.
    pub fn set_id(&mut self, id: &str) -> (r: Result<(), BodyContentError>)
        ensures
            final(self).spec_content() == old(self).spec_content(),
            r is Err ==> final(self).spec_id() == old(self).spec_id(),
            r is Ok <==> trimmed(id@).len() > 0 && (forall|i: int|
                0 <= i < trimmed(id@).len() ==> !is_ws_char(#[trigger] trimmed(id@)[i])),
            r is Ok ==> (final(self).spec_id() matches Some(v) && v@ == trimmed(id@)),
            r matches Err(e) ==> if trimmed(id@).len() == 0 {
                (e matches BodyContentError::EmptyIdentifier { container: c } && c@
                    == "paragraph"@)
            } else {
                (e matches BodyContentError::InvalidIdentifier { container: c } && c@
                    == "paragraph"@)
            },
    {
        set_optional_identifier(&mut self.id, id, "paragraph")
    }

    /// Clears any associated `xml:id`.
    pub fn clear_id(&mut self)
        ensures
            final(self).spec_id() is None,
            final(self).spec_content() == old(self).spec_content(),
    {
        self.id = None;
    }

    /// Returns the paragraph identifier when present.
    pub fn id(&self) -> (r: Option<&XmlId>)
        ensures
            r is Some <==> self.spec_id() is Some,
            r matches Some(v) ==> Some(*v) == self.spec_id(),
    {
        self.id.as_ref()
    }

    /// Returns the inline content.
    pub fn content(&self) -> (r: &[Inline])
        ensures
            r@ == self.spec_content(),
    {
        self.content.as_slice()
    }

    /// Appends a text segment after validating it for visible characters.
    pub fn push_segment(&mut self, segment: &str) -> (r: Result<(), BodyContentError>)
        ensures
            final(self).spec_id() == old(self).spec_id(),
            r is Ok <==> trimmed(segment@).len() > 0,
            r is Err ==> *final(self) == *old(self),
            r matches Err(e) ==> e matches BodyContentError::EmptySegment { container: c } && c@
                == "paragraph"@,
            r is Ok ==> final(self).spec_content().len() == old(self).spec_content().len() + 1
                && (final(self).spec_content().last() matches Inline::Text(t) && t@ == segment@)
                && (forall|i: int|
                0 <= i < old(self).spec_content().len() ==> final(self).spec_content()[i] == old(
                    self,
                ).spec_content()[i]),
            old(self).wf() && r is Ok ==> final(self).wf(),
    {
        let r = push_validated_text_segment(&mut self.content, segment, "paragraph");
        proof {
            if old(self).wf() && r is Ok {
                assert forall|j: int|
                    0 <= j < self.spec_content().len() implies inline_ok(
                    #[trigger] self.spec_content()[j],
                ) by {
                    if j < old(self).spec_content().len() {
                        assert(self.spec_content()[j] == old(self).spec_content()[j]);
                    } else {
                        assert(self.spec_content()[j] == self.spec_content().last());
                    }
                }
            }
        }
        r
    }

    /// Appends an inline node after validating it.
    pub fn push_inline(&mut self, inline: Inline) -> (r: Result<(), BodyContentError>)
        ensures
            final(self).spec_id() == old(self).spec_id(),
            r is Ok <==> inline_ok(inline),
            r is Err ==> *final(self) == *old(self),
            r matches Err(e) ==> content_error_for(e, "paragraph"),
            r is Ok ==> final(self).spec_content() == old(self).spec_content().push(inline),
            old(self).wf() && r is Ok ==> final(self).wf(),
    {
        let r = push_validated_inline(&mut self.content, inline, "paragraph");
        proof {
            if old(self).wf() && r is Ok {
                assert forall|j: int|
                    0 <= j < self.spec_content().len() implies inline_ok(
                    #[trigger] self.spec_content()[j],
                ) by {
                    if j < old(self).spec_content().len() {
                        assert(self.spec_content()[j] == old(self).spec_content()[j]);
                    }
                }
            }
        }
        r
    }
}

} // verus!
