//! Validation helpers for TEI body content.
//!
//! These functions ensure inline sequences hold meaningful characters and
//! that identifiers and speaker references conform to TEI expectations.

use vstd::prelude::*;

use crate::text::body::BodyContentError;
use crate::text::inline::{inline_ok, Inline};
use crate::text::types::{
    IdentifierValidationError, Speaker, SpeakerValidationError, XmlId,
};
use crate::textnorm::{trim_str, trimmed};

verus! {

/// A container's inline content is valid: at least one node, and every node
/// carries visible content.
pub open(crate) spec fn container_ok(s: Seq<Inline>) -> bool {
    s.len() > 0 && (forall|j: int| 0 <= j < s.len() ==> inline_ok(#[trigger] s[j]))
}

/// The error names the given container and is one of the two content
/// failures.
pub open(crate) spec fn content_error_for(e: BodyContentError, container: &'static str) -> bool {
    match e {
        BodyContentError::EmptyContent { container: c } => c@ == container@,
        BodyContentError::EmptySegment { container: c } => c@ == container@,
        _ => false,
    }
}

/// Checks one inline node for visible content.
pub(crate) fn validate_inline(inline: &Inline, container: &'static str) -> (r: Result<
    (),
    BodyContentError,
>)
    ensures
        r is Ok <==> inline_ok(*inline),
        r matches Err(e) ==> content_error_for(e, container),
        *inline is Text ==> (r matches Err(e) && e matches BodyContentError::EmptySegment {
            container: c,
        } && c@ == container@) || r is Ok,
    decreases *inline,
{
    match inline {
        Inline::Text(text) => {
            let t = trim_str(text.as_str());
            if t.as_str().is_empty() {
                Err(BodyContentError::EmptySegment { container })
            } else {
                Ok(())
            }
        },
        Inline::Hi(hi) => {
            proof {
                assert(decreases_to!(*inline => hi.content));
            }
            ensure_container_content(hi.content.as_slice(), container)
        },
        Inline::Pause(_) => Ok(()),
    }
}

/// Checks that inline content is non-empty and that every node is valid.
///
/// An empty list yields `EmptyContent`; otherwise the first invalid node
/// decides the error.
pub(crate) fn ensure_container_content(content: &[Inline], container: &'static str) -> (r: Result<
    (),
    BodyContentError,
>)
    ensures
        r is Ok <==> container_ok(content@),
        r matches Err(e) ==> content_error_for(e, container),
        content@.len() == 0 ==> (r matches Err(e) && e matches BodyContentError::EmptyContent {
            container: c,
        } && c@ == container@),
        r matches Err(e) ==> (content@.len() > 0 ==> exists|j: int|
            0 <= j < content@.len() && !inline_ok(#[trigger] content@[j]) && (forall|i: int|
                0 <= i < j ==> inline_ok(#[trigger] content@[i])) && (content@[j] is Text ==> (
            e matches BodyContentError::EmptySegment { container: c } && c@ == container@))),
    decreases content@,
{
    if content.len() == 0 {
        return Err(BodyContentError::EmptyContent { container });
    }
    let mut j: usize = 0;
    while j < content.len()
        invariant
            j <= content@.len(),
            forall|i: int| 0 <= i < j ==> inline_ok(#[trigger] content@[i]),
        decreases content@.len() - j,
    {
        proof {
            assert(decreases_to!(content@ => content@[j as int]));
        }
        match validate_inline(&content[j], container) {
            Ok(()) => {},
            Err(e) => {
                proof {
                    assert(!inline_ok(content@[j as int]));
                }
                return Err(e);
            },
        }
        j = j + 1;
    }
    Ok(())
}

/// Validates an optional speaker reference, trimming it when present.
pub(crate) fn normalise_optional_speaker(speaker: Option<&str>) -> (r: Result<
    Option<Speaker>,
    BodyContentError,
>)
    ensures
        speaker is None ==> (r matches Ok(v) && v is None),
        speaker matches Some(s) ==> {
            &&& (r is Err <==> trimmed(s@).len() == 0)
            &&& (r matches Err(e) ==> e is EmptySpeaker)
            &&& (r matches Ok(v) ==> (v matches Some(p) && p@ == trimmed(s@)))
        },
{
    match speaker {
        None => Ok(None),
        Some(value) => match Speaker::new(value) {
            Ok(parsed) => Ok(Some(parsed)),
            Err(SpeakerValidationError::Empty) => Err(BodyContentError::EmptySpeaker),
        },
    }
}

/// Validates and stores an `xml:id` value for a container.
pub(crate) fn set_optional_identifier(
    field: &mut Option<XmlId>,
    value: &str,
    container: &'static str,
) -> (r: Result<(), BodyContentError>)
    ensures
        r is Err ==> *final(field) == *old(field),
        r matches Err(e) ==> if trimmed(value@).len() == 0 {
            (e matches BodyContentError::EmptyIdentifier { container: c } && c@ == container@)
        } else {
            (e matches BodyContentError::InvalidIdentifier { container: c } && c@ == container@)
        },
        r is Ok <==> trimmed(value@).len() > 0 && (forall|i: int|
            0 <= i < trimmed(value@).len() ==> !crate::textnorm::is_ws_char(
                #[trigger] trimmed(value@)[i],
            )),
        r is Ok ==> (*final(field) matches Some(id) && id@ == trimmed(value@)),
{
    match XmlId::new(value) {
        Ok(identifier) => {
            *field = Some(identifier);
            Ok(())
        },
        Err(IdentifierValidationError::Empty) => Err(
            BodyContentError::EmptyIdentifier { container },
        ),
        Err(IdentifierValidationError::ContainsWhitespace) => Err(
            BodyContentError::InvalidIdentifier { container },
        ),
    }
}

/// Validates a text segment and appends it as an inline node.
pub(crate) fn push_validated_text_segment(
    content: &mut Vec<Inline>,
    segment: &str,
    container: &'static str,
) -> (r: Result<(), BodyContentError>)
    ensures
        r is Ok <==> trimmed(segment@).len() > 0,
        r is Err ==> *final(content) == *old(content),
        r matches Err(e) ==> e matches BodyContentError::EmptySegment { container: c } && c@
            == container@,
        r is Ok ==> final(content)@.len() == old(content)@.len() + 1 && (final(content)@.last() matches Inline::Text(t) && t@ == segment@) && (forall|i: int|
            0 <= i < old(content)@.len() ==> final(content)@[i] == old(content)@[i]),
{
    let inline = Inline::text(segment);
    match validate_inline(&inline, container) {
        Ok(()) => {
            content.push(inline);
            Ok(())
        },
        Err(e) => {
            proof {
                assert(trimmed(segment@).len() == 0);
            }
            Err(BodyContentError::EmptySegment { container })
        },
    }
}

/// Validates an inline node and appends it.
pub(crate) fn push_validated_inline(
    content: &mut Vec<Inline>,
    inline: Inline,
    container: &'static str,
) -> (r: Result<(), BodyContentError>)
    ensures
        r is Ok <==> inline_ok(inline),
        r is Err ==> *final(content) == *old(content),
        r matches Err(e) ==> content_error_for(e, container),
        r is Ok ==> final(content)@ == old(content)@.push(inline),
{
    match validate_inline(&inline, container) {
        Ok(()) => {
            content.push(inline);
            Ok(())
        },
        Err(e) => Err(e),
    }
}

} // verus!
