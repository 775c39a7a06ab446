//! Spoken utterance body model with an optional speaker reference.

use vstd::prelude::*;

use crate::text::body::{
    container_ok, content_error_for, ensure_container_content, normalise_optional_speaker,
    push_validated_inline, push_validated_text_segment, set_optional_identifier, BodyContentError,
};
use crate::text::inline::{inline_ok, Inline};
use crate::text::types::{Speaker, SpeakerValidationError, XmlId};
use crate::textnorm::{is_ws_char, trimmed};

verus! {

/// Spoken utterance that may reference a speaker.
#[derive(Debug, PartialEq)]
pub struct Utterance {
    pub(crate) id: Option<XmlId>,
    pub(crate) speaker: Option<Speaker>,
    pub(crate) content: Vec<Inline>,
}

impl Utterance {
    /// The optional `xml:id`.
    pub open(crate) spec fn spec_id(&self) -> Option<XmlId> {
        self.id
    }

    /// The optional speaker reference.
    pub open(crate) spec fn spec_speaker(&self) -> Option<Speaker> {
        self.speaker
    }

    /// The inline content.
    pub open(crate) spec fn spec_content(&self) -> Seq<Inline> {
        self.content@
    }

    /// An utterance always carries valid, non-empty inline content.
    pub open(crate) spec fn wf(&self) -> bool {
        container_ok(self.spec_content())
    }

    /// Builds an utterance from the provided segments and optional speaker.
    ///
    /// A blank speaker is rejected before the segments are examined.
    pub fn new(speaker: Option<&str>, segments: Vec<String>) -> (r: Result<
        Self,
        BodyContentError,
    >)
        ensures
            r is Ok <==> (match speaker {
                Some(s) => trimmed(s@).len() > 0,
                None => true,
            }) && segments@.len() > 0 && (forall|i: int|
                0 <= i < segments@.len() ==> trimmed((#[trigger] segments@[i])@).len() > 0),
            r matches Ok(u) ==> {
                &&& u.spec_id() is None
                &&& u.wf()
                &&& u.spec_content().len() == segments@.len()
                &&& (forall|i: int|
                    0 <= i < segments@.len() ==> ((#[trigger] u.spec_content()[i])
                        matches Inline::Text(t) && t@ == segments@[i]@))
                &&& (u.spec_speaker() is Some <==> speaker is Some)
                &&& (u.spec_speaker() matches Some(p) ==> (speaker matches Some(s) && p@
                    == trimmed(s@)))
            },
            r matches Err(e) ==> e is EmptySpeaker || content_error_for(e, "utterance"),
            speaker matches Some(s) && trimmed(s@).len() == 0 ==> (r matches Err(e)
                && e is EmptySpeaker),
            (match speaker {
                Some(s) => trimmed(s@).len() > 0,
                None => true,
            }) && r is Err ==> (r matches Err(e) && if segments@.len() == 0 {
                (e matches BodyContentError::EmptyContent { container: c } && c@ == "utterance"@)
            } else {
                (e matches BodyContentError::EmptySegment { container: c } && c@ == "utterance"@)
            }),
    {
        let normalised_speaker = match normalise_optional_speaker(speaker) {
            Ok(v) => v,
            Err(e) => {
                return Err(e);
            },
        };
        let mut content: Vec<Inline> = Vec::new();
        let mut i: usize = 0;
        while i < segments.len()
            invariant
                match speaker {
                    Some(s) => trimmed(s@).len() > 0,
                    None => true,
                },
                i <= segments@.len(),
                content@.len() == i,
                forall|j: int|
                    0 <= j < i ==> ((#[trigger] content@[j]) matches Inline::Text(t) && t@
                        == segments@[j]@),
                forall|j: int| 0 <= j < i ==> trimmed((#[trigger] segments@[j])@).len() > 0,
            decreases segments@.len() - i,
        {
            match push_validated_text_segment(&mut content, segments[i].as_str(), "utterance") {
                Ok(()) => {},
                Err(e) => {
                    return Err(e);
                },
            }
            i = i + 1;
        }
        match ensure_container_content(content.as_slice(), "utterance") {
            Ok(()) => Ok(Utterance { id: None, speaker: normalised_speaker, content }),
            Err(e) => Err(e),
        }
    }

    /// Builds an utterance from pre-constructed inline content.
    pub fn from_inline(speaker: Option<&str>, content: Vec<Inline>) -> (r: Result<
        Self,
        BodyContentError,
    >)
        ensures
            r is Ok <==> (match speaker {
                Some(s) => trimmed(s@).len() > 0,
                None => true,
            }) && container_ok(content@),
            r matches Ok(u) ==> {
                &&& u.spec_id() is None
                &&& u.wf()
                &&& u.spec_content() == content@
                &&& (u.spec_speaker() is Some <==> speaker is Some)
                &&& (u.spec_speaker() matches Some(p) ==> (speaker matches Some(s) && p@
                    == trimmed(s@)))
            },
            r matches Err(e) ==> e is EmptySpeaker || content_error_for(e, "utterance"),
    {
        let normalised_speaker = match normalise_optional_speaker(speaker) {
            Ok(v) => v,
            Err(e) => {
                return Err(e);
            },
        };
        match ensure_container_content(content.as_slice(), "utterance") {
            Ok(()) => Ok(Utterance { id: None, speaker: normalised_speaker, content }),
            Err(e) => Err(e),
        }
    }

    /// Sets an `xml:id` attribute on the utterance.
    pub fn set_id(&mut self, id: &str) -> (r: Result<(), BodyContentError>)
        ensures
            final(self).spec_content() == old(self).spec_content(),
            final(self).spec_speaker() == old(self).spec_speaker(),
            r is Err ==> final(self).spec_id() == old(self).spec_id(),
            r is Ok <==> trimmed(id@).len() > 0 && (forall|i: int|
                0 <= i < trimmed(id@).len() ==> !is_ws_char(#[trigger] trimmed(id@)[i])),
            r is Ok ==> (final(self).spec_id() matches Some(v) && v@ == trimmed(id@)),
            r matches Err(e) ==> if trimmed(id@).len() == 0 {
                (e matches BodyContentError::EmptyIdentifier { container: c } && c@
                    == "utterance"@)
            } else {
                (e matches BodyContentError::InvalidIdentifier { container: c } && c@
                    == "utterance"@)
            },
    {
        set_optional_identifier(&mut self.id, id, "utterance")
    }

    /// Clears any associated `xml:id`.
    pub fn clear_id(&mut self)
        ensures
            final(self).spec_id() is None,
            final(self).spec_content() == old(self).spec_content(),
            final(self).spec_speaker() == old(self).spec_speaker(),
    {
        self.id = None;
    }

    /// Returns the utterance identifier when present.
    pub fn id(&self) -> (r: Option<&XmlId>)
        ensures
            r is Some <==> self.spec_id() is Some,
            r matches Some(v) ==> Some(*v) == self.spec_id(),
    {
        self.id.as_ref()
    }

    /// Assigns the speaker responsible for the utterance.
    ///
    /// Fails exactly when the provided speaker lacks visible characters.
    pub fn set_speaker(&mut self, speaker: &str) -> (r: Result<(), BodyContentError>)
        ensures
            final(self).spec_content() == old(self).spec_content(),
            final(self).spec_id() == old(self).spec_id(),
            r is Err ==> final(self).spec_speaker() == old(self).spec_speaker(),
            r is Ok <==> trimmed(speaker@).len() > 0,
            r matches Err(e) ==> e is EmptySpeaker,
            r is Ok ==> (final(self).spec_speaker() matches Some(p) && p@ == trimmed(
                speaker@,
            )),
    {
        match Speaker::new(speaker) {
            Ok(value) => {
                self.speaker = Some(value);
                Ok(())
            },
            Err(SpeakerValidationError::Empty) => Err(BodyContentError::EmptySpeaker),
        }
    }

    /// Clears the recorded speaker.
    pub fn clear_speaker(&mut self)
        ensures
            final(self).spec_speaker() is None,
            final(self).spec_content() == old(self).spec_content(),
            final(self).spec_id() == old(self).spec_id(),
    {
        self.speaker = None;
    }

    /// Returns the recorded speaker when present.
    pub fn speaker(&self) -> (r: Option<&Speaker>)
        ensures
            r is Some <==> self.spec_speaker() is Some,
            r matches Some(p) ==> Some(*p) == self.spec_speaker(),
    {
        self.speaker.as_ref()
    }

    /// Returns the inline content.
    pub fn content(&self) -> (r: &[Inline])
        ensures
            r@ == self.spec_content(),
    {
        self.content.as_slice()
    }

    /// Appends a text segment after validating it for visible characters.
    pub fn push_segment(&mut self, segment: &str) -> (r: Result<(), BodyContentError>)
        ensures
            final(self).spec_id() == old(self).spec_id(),
            final(self).spec_speaker() == old(self).spec_speaker(),
            r is Ok <==> trimmed(segment@).len() > 0,
            r is Err ==> *final(self) == *old(self),
            r matches Err(e) ==> e matches BodyContentError::EmptySegment { container: c } && c@
                == "utterance"@,
            r is Ok ==> final(self).spec_content().len() == old(self).spec_content().len() + 1
                && (final(self).spec_content().last() matches Inline::Text(t) && t@ == segment@)
                && (forall|i: int|
                0 <= i < old(self).spec_content().len() ==> final(self).spec_content()[i] == old(
                    self,
                ).spec_content()[i]),
            old(self).wf() && r is Ok ==> final(self).wf(),
    {
        let r = push_validated_text_segment(&mut self.content, segment, "utterance");
        proof {
            if old(self).wf() && r is Ok {
                assert forall|j: int|
                    0 <= j < self.spec_content().len() implies inline_ok(
                    #[trigger] self.spec_content()[j],
                ) by {
                    if j < old(self).spec_content().len() {
                        assert(self.spec_content()[j] == old(self).spec_content()[j]);
                    } else {
                        assert(self.spec_content()[j] == self.spec_content().last());
                    }
                }
            }
        }
        r
    }

    /// Appends an inline node after validating it.
    pub fn push_inline(&mut self, inline: Inline) -> (r: Result<(), BodyContentError>)
        ensures
            final(self).spec_id() == old(self).spec_id(),
            final(self).spec_speaker() == old(self).spec_speaker(),
            r is Ok <==> inline_ok(inline),
            r is Err ==> *final(self) == *old(self),
            r matches Err(e) ==> content_error_for(e, "utterance"),
            r is Ok ==> final(self).spec_content() == old(self).spec_content().push(inline),
            old(self).wf() && r is Ok ==> final(self).wf(),
    {
        let r = push_validated_inline(&mut self.content, inline, "utterance");
        proof {
            if old(self).wf() && r is Ok {
                assert forall|j: int|
                    0 <= j < self.spec_content().len() implies inline_ok(
                    #[trigger] self.spec_content()[j],
                ) by {
                    if j < old(self).spec_content().len() {
                        assert(self.spec_content()[j] == old(self).spec_content()[j]);
                    }
                }
            }
        }
        r
    }
}

} // verus!
