//! Validated wrapper types for TEI identifier and speaker attributes.
//!
//! Provides `XmlId` and `Speaker` newtypes that enforce non-empty,
//! normalised values and reject invalid whitespace patterns.

use vstd::prelude::*;

use crate::textnorm::{contains_ws, is_ws_char, trim_str, trimmed};

verus! {

/// Errors raised when normalising identifier input.
#[derive(Clone, Debug, Eq, PartialEq)]
pub enum IdentifierValidationError {
    /// The identifier trimmed to an empty string.
    Empty,
    /// The identifier contained disallowed whitespace.
    ContainsWhitespace,
}

/// Validated wrapper for TEI `xml:id` attributes.
#[derive(Clone, Debug, Eq, PartialEq)]
pub struct XmlId(pub(crate) String);

impl View for XmlId {
    type V = Seq<char>;

    closed spec fn view(&self) -> Seq<char> {
        self.0@
    }
}

impl XmlId {
    /// Builds an identifier from user input: the input is trimmed, must not
    /// be empty afterwards, and must not contain interior whitespace.
    pub fn new(value: &str) -> (r: Result<Self, IdentifierValidationError>)
        ensures
            r matches Err(e) ==> if trimmed(value@).len() == 0 {
                e == IdentifierValidationError::Empty
            } else {
                e == IdentifierValidationError::ContainsWhitespace
            },
            r is Ok <==> trimmed(value@).len() > 0 && (forall|i: int|
                0 <= i < trimmed(value@).len() ==> !is_ws_char(#[trigger] trimmed(value@)[i])),
            r matches Ok(id) ==> id@ == trimmed(value@),
    {
        let t = trim_str(value);
        if t.as_str().is_empty() {
            return Err(IdentifierValidationError::Empty);
        }
        if contains_ws(t.as_str()) {
            return Err(IdentifierValidationError::ContainsWhitespace);
        }
        Ok(XmlId(t))
    }

    /// Returns the identifier as a string slice.
    pub fn as_str(&self) -> (r: &str)
        ensures
            r@ == self@,
    {
        self.0.as_str()
    }

    /// Consumes the identifier and returns the owned string.
    pub fn into_inner(self) -> (r: String)
        ensures
            r@ == self@,
    {
        self.0
    }

    /// Returns the identifier as an owned string.
    pub fn to_string(&self) -> (r: String)
        ensures
            r@ == self@,
    {
        self.0.as_str().to_owned()
    }
}

/// Errors raised when normalising speaker references.
#[derive(Clone, Debug, Eq, PartialEq)]
pub enum SpeakerValidationError {
    /// The speaker trimmed to an empty string.
    Empty,
}

/// Validated wrapper for utterance speaker references.
#[derive(Clone, Debug, Eq, PartialEq)]
pub struct Speaker(pub(crate) String);

impl View for Speaker {
    type V = Seq<char>;

    closed spec fn view(&self) -> Seq<char> {
        self.0@
    }
}

impl Speaker {
    /// Builds a speaker reference from user input.
    ///
    /// Fails exactly when the trimmed speaker reference is empty.
    pub fn new(value: &str) -> (r: Result<Self, SpeakerValidationError>)
        ensures
            r is Err <==> trimmed(value@).len() == 0,
            r matches Err(e) ==> e == SpeakerValidationError::Empty,
            r matches Ok(s) ==> s@ == trimmed(value@),
    {
        let t = trim_str(value);
        if t.as_str().is_empty() {
            Err(SpeakerValidationError::Empty)
        } else {
            Ok(Speaker(t))
        }
    }

    /// Returns the speaker reference as a string slice.
    pub fn as_str(&self) -> (r: &str)
        ensures
            r@ == self@,
    {
        self.0.as_str()
    }

    /// Consumes the speaker reference and returns the owned string.
    pub fn into_inner(self) -> (r: String)
        ensures
            r@ == self@,
    {
        self.0
    }
}

impl TryFrom<&str> for Speaker {
    type Error = SpeakerValidationError;

    fn try_from(value: &str) -> Result<Self, SpeakerValidationError> {
        Speaker::new(value)
    }
}

impl vstd::std_specs::convert::TryFromSpecImpl<&str> for Speaker {
    open spec fn obeys_try_from_spec() -> bool {
        false
    }

    open spec fn try_from_spec(value: &str) -> Result<Self, SpeakerValidationError> {
        vstd::pervasive::arbitrary()
    }
}

impl TryFrom<&str> for XmlId {
    type Error = IdentifierValidationError;

    fn try_from(value: &str) -> Result<Self, IdentifierValidationError> {
        XmlId::new(value)
    }
}

impl vstd::std_specs::convert::TryFromSpecImpl<&str> for XmlId {
    open spec fn obeys_try_from_spec() -> bool {
        false
    }

    open spec fn try_from_spec(value: &str) -> Result<Self, IdentifierValidationError> {
        vstd::pervasive::arbitrary()
    }
}

} // verus!
