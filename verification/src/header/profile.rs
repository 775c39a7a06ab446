//! Audience and linguistic profile metadata for TEI headers.
//!
//! Tracks speakers and languages while normalising optional fields.

use vstd::prelude::*;

use crate::header::{normalise_optional_text, HeaderValidationError};
use crate::textnorm::{trim_str, trimmed};

verus! {

/// Validated speaker name stored within [`ProfileDesc`].
#[derive(Clone, Debug, Eq, PartialEq)]
pub struct SpeakerName(pub(crate) String);

impl View for SpeakerName {
    type V = Seq<char>;

    closed spec fn view(&self) -> Seq<char> {
        self.0@
    }
}

impl SpeakerName {
    /// Builds a speaker name after trimming whitespace.
    ///
    /// Fails exactly when the name trims to an empty string.
    pub fn new(value: &str) -> (r: Result<Self, HeaderValidationError>)
        ensures
            r is Err <==> trimmed(value@).len() == 0,
            r matches Err(e) ==> e matches HeaderValidationError::EmptyField { field } && field@
                == "speaker"@,
            r matches Ok(n) ==> n@ == trimmed(value@),
    {
        let raw = trim_str(value);
        if raw.as_str().is_empty() {
            Err(HeaderValidationError::EmptyField { field: "speaker" })
        } else {
            Ok(SpeakerName(raw))
        }
    }

    /// Returns the speaker name as a string slice.
    pub fn as_str(&self) -> (r: &str)
        ensures
            r@ == self@,
    {
        self.0.as_str()
    }

    /// Consumes the wrapper and returns the owned string.
    pub fn into_inner(self) -> (r: String)
        ensures
            r@ == self@,
    {
        self.0
    }
}

/// Validated language identifier stored within [`ProfileDesc`].
#[derive(Clone, Debug, Eq, PartialEq)]
pub struct LanguageTag(pub(crate) String);

impl View for LanguageTag {
    type V = Seq<char>;

    closed spec fn view(&self) -> Seq<char> {
        self.0@
    }
}

impl LanguageTag {
    /// Builds a language identifier after trimming whitespace.
    ///
    /// Fails exactly when the tag trims to an empty string.
    pub fn new(value: &str) -> (r: Result<Self, HeaderValidationError>)
        ensures
            r is Err <==> trimmed(value@).len() == 0,
            r matches Err(e) ==> e matches HeaderValidationError::EmptyField { field } && field@
                == "language"@,
            r matches Ok(t) ==> t@ == trimmed(value@),
    {
        let raw = trim_str(value);
        if raw.as_str().is_empty() {
            Err(HeaderValidationError::EmptyField { field: "language" })
        } else {
            Ok(LanguageTag(raw))
        }
    }

    /// Returns the language identifier as a string slice.
    pub fn as_str(&self) -> (r: &str)
        ensures
            r@ == self@,
    {
        self.0.as_str()
    }

    /// Consumes the wrapper and returns the owned string.
    pub fn into_inner(self) -> (r: String)
        ensures
            r@ == self@,
    {
        self.0
    }
}

/// Audience and linguistic profile metadata.
#[derive(Clone, Debug, PartialEq)]
pub struct ProfileDesc {
    pub(crate) synopsis: Option<String>,
    pub(crate) speakers: Vec<SpeakerName>,
    pub(crate) languages: Vec<LanguageTag>,
}

impl ProfileDesc {
    /// The optional synopsis.
    pub open(crate) spec fn spec_synopsis(&self) -> Option<String> {
        self.synopsis
    }

    /// The recorded speakers.
    pub open(crate) spec fn spec_speakers(&self) -> Seq<SpeakerName> {
        self.speakers@
    }

    /// The recorded languages.
    pub open(crate) spec fn spec_languages(&self) -> Seq<LanguageTag> {
        self.languages@
    }

    /// Creates an empty profile description.
    pub fn new() -> (r: Self)
        ensures
            r.spec_synopsis() is None,
            r.spec_speakers().len() == 0,
            r.spec_languages().len() == 0,
    {
        ProfileDesc { synopsis: None, speakers: Vec::new(), languages: Vec::new() }
    }

    /// Assigns an optional synopsis; blank input clears it.
    pub fn with_synopsis(self, synopsis: &str) -> (r: Self)
        ensures
            r.spec_speakers() == self.spec_speakers(),
            r.spec_languages() == self.spec_languages(),
            r.spec_synopsis() is Some <==> trimmed(synopsis@).len() > 0,
            r.spec_synopsis() matches Some(t) ==> t@ == trimmed(synopsis@),
    {
        let mut desc = self;
        desc.synopsis = normalise_optional_text(synopsis);
        desc
    }

    /// Adds a speaker to the cast list.
    ///
    /// Fails exactly when the speaker name is empty after trimming; the
    /// profile is unchanged in that case.
    pub fn add_speaker(&mut self, speaker: &str) -> (r: Result<(), HeaderValidationError>)
        ensures
            r is Err <==> trimmed(speaker@).len() == 0,
            r is Err ==> *final(self) == *old(self),
            r is Ok ==> final(self).spec_speakers().len() == old(self).spec_speakers().len() + 1
                && final(self).spec_speakers().last()@ == trimmed(speaker@) && (forall|i: int|
                0 <= i < old(self).spec_speakers().len() ==> final(self).spec_speakers()[i] == old(
                    self,
                ).spec_speakers()[i]) && final(self).spec_languages() == old(
                self,
            ).spec_languages() && final(self).spec_synopsis() == old(self).spec_synopsis(),
    {
        match SpeakerName::new(speaker) {
            Ok(name) => {
                self.speakers.push(name);
                Ok(())
            },
            Err(e) => Err(e),
        }
    }

    /// Adds a language identifier to the profile.
    ///
    /// Fails exactly when the language tag is empty after trimming; the
    /// profile is unchanged in that case.
    pub fn add_language(&mut self, language: &str) -> (r: Result<(), HeaderValidationError>)
        ensures
            r is Err <==> trimmed(language@).len() == 0,
            r is Err ==> *final(self) == *old(self),
            r is Ok ==> final(self).spec_languages().len() == old(self).spec_languages().len() + 1
                && final(self).spec_languages().last()@ == trimmed(language@) && (forall|i: int|
                0 <= i < old(self).spec_languages().len() ==> final(self).spec_languages()[i]
                    == old(self).spec_languages()[i]) && final(self).spec_speakers() == old(
                self,
            ).spec_speakers() && final(self).spec_synopsis() == old(self).spec_synopsis(),
    {
        match LanguageTag::new(language) {
            Ok(tag) => {
                self.languages.push(tag);
                Ok(())
            },
            Err(e) => Err(e),
        }
    }

    /// Returns the synopsis when present.
    pub fn synopsis(&self) -> (r: Option<&str>)
        ensures
            r is Some <==> self.spec_synopsis() is Some,
            r matches Some(t) ==> self.spec_synopsis() matches Some(s) && t@ == s@,
    {
        match self.synopsis.as_ref() {
            Some(s) => Some(s.as_str()),
            None => None,
        }
    }

    /// Returns the registered speakers.
    pub fn speakers(&self) -> (r: &[SpeakerName])
        ensures
            r@ == self.spec_speakers(),
    {
        self.speakers.as_slice()
    }

    /// Returns the number of speakers recorded.
    pub fn len_speakers(&self) -> (r: usize)
        ensures
            r == self.spec_speakers().len(),
    {
        self.speakers.len()
    }

    /// Returns the recorded languages.
    pub fn languages(&self) -> (r: &[LanguageTag])
        ensures
            r@ == self.spec_languages(),
    {
        self.languages.as_slice()
    }

    /// Returns the number of language tags recorded.
    pub fn len_languages(&self) -> (r: usize)
        ensures
            r == self.spec_languages().len(),
    {
        self.languages.len()
    }

    /// Reports whether any metadata has been recorded.
    pub fn is_empty(&self) -> (r: bool)
        ensures
            r == (self.spec_synopsis() is None && self.spec_speakers().len() == 0
                && self.spec_languages().len() == 0),
    {
        self.synopsis.is_none() && self.speakers.is_empty() && self.languages.is_empty()
    }
}

} // verus!
