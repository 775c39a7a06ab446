//! Inline TEI content such as emphasised runs and pauses.
//!
//! Mixed content is modelled as an [`Inline`] enum so paragraphs and
//! utterances can hold either plain text or nested inline elements.

use vstd::prelude::*;

use crate::text::body::{ensure_container_content, push_validated_inline, BodyContentError};
use crate::textnorm::trimmed;

verus! {

/// Inline content occurring inside paragraphs and utterances.
#[derive(Debug, PartialEq)]
pub enum Inline {
    /// Plain text content.
    Text(String),
    /// Emphasised content wrapped in `<hi>`.
    Hi(Hi),
    /// A pause marker rendered as `<pause/>`.
    Pause(Pause),
}

/// Emphasised inline element corresponding to `<hi>`.
#[derive(Debug, PartialEq)]
pub struct Hi {
    pub(crate) rend: Option<String>,
    pub(crate) content: Vec<Inline>,
}

/// Pause marker rendered as `<pause/>`.
#[derive(Clone, Debug, PartialEq)]
pub struct Pause {
    pub(crate) duration: Option<String>,
    pub(crate) pause_type: Option<String>,
}

/// A single inline node carries visible content: text has non-blank
/// characters, an emphasis holds a non-empty list of valid children, and a
/// pause is always valid.
pub open(crate) spec fn inline_ok(i: Inline) -> bool
    decreases i,
{
    match i {
        Inline::Text(t) => trimmed(t@).len() > 0,
        Inline::Hi(h) => h.content@.len() > 0 && (forall|j: int|
            0 <= j < h.content@.len() ==> inline_ok(#[trigger] h.content@[j])),
        Inline::Pause(_) => true,
    }
}

impl Inline {
    /// Builds a plain text inline node, without validation.
    pub fn text(content: &str) -> (r: Self)
        ensures
            r matches Inline::Text(t) && t@ == content@,
    {
        Inline::Text(content.to_owned())
    }

    /// Builds an emphasised inline node, without validation.
    pub fn hi(content: Vec<Inline>) -> (r: Self)
        ensures
            r matches Inline::Hi(h) && h.spec_rend() is None && h.spec_content() == content@,
    {
        Inline::Hi(Hi::new(content))
    }

    /// Builds a pause marker.
    pub fn pause() -> (r: Self)
        ensures
            r matches Inline::Pause(p) && p.spec_duration() is None && p.spec_kind() is None,
    {
        Inline::Pause(Pause::new())
    }

    /// Returns the contained text when this variant is [`Inline::Text`].
    pub fn as_text(&self) -> (r: Option<&str>)
        ensures
            r is Some <==> self is Text,
            r matches Some(t) ==> *self matches Inline::Text(v) && t@ == v@,
    {
        match self {
            Inline::Text(value) => Some(value.as_str()),
            _ => None,
        }
    }
}

impl Hi {
    /// The optional rendering hint.
    pub open(crate) spec fn spec_rend(&self) -> Option<String> {
        self.rend
    }

    /// The inline children.
    pub open(crate) spec fn spec_content(&self) -> Seq<Inline> {
        self.content@
    }

    /// Builds an emphasised inline element without validating the content.
    pub fn new(content: Vec<Inline>) -> (r: Self)
        ensures
            r.spec_rend() is None,
            r.spec_content() == content@,
    {
        Hi { rend: None, content }
    }

    /// Builds an emphasised inline element with a rendering hint, without
    /// validating the content.
    pub fn with_rend(rend: &str, content: Vec<Inline>) -> (r: Self)
        ensures
            r.spec_rend() matches Some(t) && t@ == rend@,
            r.spec_content() == content@,
    {
        Hi { rend: Some(rend.to_owned()), content }
    }

    /// Builds an emphasised inline element, validating that the content
    /// holds at least one node and that every node carries visible content.
    pub fn try_new(content: Vec<Inline>) -> (r: Result<Self, BodyContentError>)
        ensures
            r is Ok <==> content@.len() > 0 && (forall|j: int|
                0 <= j < content@.len() ==> inline_ok(#[trigger] content@[j])),
            r matches Ok(h) ==> h.spec_rend() is None && h.spec_content() == content@,
            r matches Err(e) ==> e is EmptyContent || e is EmptySegment,
    {
        match ensure_container_content(content.as_slice(), "hi") {
            Ok(()) => Ok(Hi { rend: None, content }),
            Err(e) => Err(e),
        }
    }

    /// Like [`Hi::try_new`], with a rendering hint.
    pub fn try_with_rend(rend: &str, content: Vec<Inline>) -> (r: Result<Self, BodyContentError>)
        ensures
            r is Ok <==> content@.len() > 0 && (forall|j: int|
                0 <= j < content@.len() ==> inline_ok(#[trigger] content@[j])),
            r matches Ok(h) ==> (h.spec_rend() matches Some(t) && t@ == rend@)
                && h.spec_content() == content@,
            r matches Err(e) ==> e is EmptyContent || e is EmptySegment,
    {
        match ensure_container_content(content.as_slice(), "hi") {
            Ok(()) => Ok(Hi { rend: Some(rend.to_owned()), content }),
            Err(e) => Err(e),
        }
    }

    /// Returns the optional rendering hint.
    pub fn rend(&self) -> (r: Option<&str>)
        ensures
            r is Some <==> self.spec_rend() is Some,
            r matches Some(t) ==> self.spec_rend() matches Some(s) && t@ == s@,
    {
        match self.rend.as_ref() {
            Some(s) => Some(s.as_str()),
            None => None,
        }
    }

    /// Assigns a rendering hint.
    pub fn set_rend(&mut self, rend: &str)
        ensures
            final(self).spec_rend() matches Some(t) && t@ == rend@,
            final(self).spec_content() == old(self).spec_content(),
    {
        self.rend = Some(rend.to_owned());
    }

    /// Removes the rendering hint.
    pub fn clear_rend(&mut self)
        ensures
            final(self).spec_rend() is None,
            final(self).spec_content() == old(self).spec_content(),
    {
        self.rend = None;
    }

    /// Returns the inline children.
    pub fn content(&self) -> (r: &[Inline])
        ensures
            r@ == self.spec_content(),
    {
        self.content.as_slice()
    }

    /// Appends an inline child after validating it.
    ///
    /// Fails exactly when the child carries no visible content; the element
    /// is unchanged in that case.
    pub fn push_inline(&mut self, inline: Inline) -> (r: Result<(), BodyContentError>)
        ensures
            r is Ok <==> inline_ok(inline),
            r is Ok ==> final(self).spec_content() == old(self).spec_content().push(inline)
                && final(self).spec_rend() == old(self).spec_rend(),
            r is Err ==> *final(self) == *old(self),
            r matches Err(e) ==> e is EmptyContent || e is EmptySegment,
    {
        match push_validated_inline(&mut self.content, inline, "hi") {
            Ok(()) => Ok(()),
            Err(e) => Err(e),
        }
    }
}

impl Pause {
    /// The recorded duration.
    pub open(crate) spec fn spec_duration(&self) -> Option<String> {
        self.duration
    }

    /// The pause classification.
    pub open(crate) spec fn spec_kind(&self) -> Option<String> {
        self.pause_type
    }

    /// Creates an empty pause marker.
    pub fn new() -> (r: Self)
        ensures
            r.spec_duration() is None,
            r.spec_kind() is None,
    {
        Pause { duration: None, pause_type: None }
    }

    /// Returns the recorded duration.
    pub fn duration(&self) -> (r: Option<&str>)
        ensures
            r is Some <==> self.spec_duration() is Some,
            r matches Some(t) ==> self.spec_duration() matches Some(s) && t@ == s@,
    {
        match self.duration.as_ref() {
            Some(s) => Some(s.as_str()),
            None => None,
        }
    }

    /// Assigns a duration value.
    pub fn set_duration(&mut self, duration: &str)
        ensures
            final(self).spec_duration() matches Some(t) && t@ == duration@,
            final(self).spec_kind() == old(self).spec_kind(),
    {
        self.duration = Some(duration.to_owned());
    }

    /// Clears the recorded duration.
    pub fn clear_duration(&mut self)
        ensures
            final(self).spec_duration() is None,
            final(self).spec_kind() == old(self).spec_kind(),
    {
        self.duration = None;
    }

    /// Returns the pause classification.
    pub fn kind(&self) -> (r: Option<&str>)
        ensures
            r is Some <==> self.spec_kind() is Some,
            r matches Some(t) ==> self.spec_kind() matches Some(s) && t@ == s@,
    {
        match self.pause_type.as_ref() {
            Some(s) => Some(s.as_str()),
            None => None,
        }
    }

    /// Assigns a pause classification.
    pub fn set_kind(&mut self, kind: &str)
        ensures
            final(self).spec_kind() matches Some(t) && t@ == kind@,
            final(self).spec_duration() == old(self).spec_duration(),
    {
        self.pause_type = Some(kind.to_owned());
    }

    /// Clears the pause classification.
    pub fn clear_kind(&mut self)
        ensures
            final(self).spec_kind() is None,
            final(self).spec_duration() == old(self).spec_duration(),
    {
        self.pause_type = None;
    }
}

} // verus!
