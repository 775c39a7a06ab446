//! Bibliographic file description (`<fileDesc>`) for TEI headers.
//! Validates the title and normalises optional series and synopsis text.

use vstd::prelude::*;

use crate::header::normalise_optional_text;
use crate::textnorm::trimmed;
use crate::title::{DocumentTitle, DocumentTitleError};

verus! {

/// Bibliographic metadata describing the TEI file.
#[derive(Clone, Debug, PartialEq)]
pub struct FileDesc {
    pub(crate) title: DocumentTitle,
    pub(crate) series: Option<String>,
    pub(crate) synopsis: Option<String>,
}

impl FileDesc {
    /// The validated title.
    pub open(crate) spec fn spec_title(&self) -> DocumentTitle {
        self.title
    }

    /// The optional series label.
    pub open(crate) spec fn spec_series(&self) -> Option<String> {
        self.series
    }

    /// The optional synopsis.
    pub open(crate) spec fn spec_synopsis(&self) -> Option<String> {
        self.synopsis
    }

    /// Builds a file description from a validated title.
    pub fn new(title: DocumentTitle) -> (r: Self)
        ensures
            r.spec_title() == title,
            r.spec_series() is None,
            r.spec_synopsis() is None,
    {
        FileDesc { title, series: None, synopsis: None }
    }

    /// Validates a raw title before creating the file description.
    ///
    /// Fails exactly when the supplied title trims to an empty string.
    pub fn from_title_str(value: &str) -> (r: Result<Self, DocumentTitleError>)
        ensures
            r is Err <==> trimmed(value@).len() == 0,
            r matches Err(e) ==> e == DocumentTitleError::Empty,
            r matches Ok(d) ==> d.spec_title()@ == trimmed(value@) && d.spec_series() is None
                && d.spec_synopsis() is None,
    {
        match DocumentTitle::new(value) {
            Ok(title) => Ok(FileDesc::new(title)),
            Err(e) => Err(e),
        }
    }

    /// Assigns an optional series label; blank input clears it.
    pub fn with_series(self, series: &str) -> (r: Self)
        ensures
            r.spec_title() == self.spec_title(),
            r.spec_synopsis() == self.spec_synopsis(),
            r.spec_series() is Some <==> trimmed(series@).len() > 0,
            r.spec_series() matches Some(t) ==> t@ == trimmed(series@),
    {
        let mut desc = self;
        desc.series = normalise_optional_text(series);
        desc
    }

    /// Assigns an optional synopsis; blank input clears it.
    pub fn with_synopsis(self, synopsis: &str) -> (r: Self)
        ensures
            r.spec_title() == self.spec_title(),
            r.spec_series() == self.spec_series(),
            r.spec_synopsis() is Some <==> trimmed(synopsis@).len() > 0,
            r.spec_synopsis() matches Some(t) ==> t@ == trimmed(synopsis@),
    {
        let mut desc = self;
        desc.synopsis = normalise_optional_text(synopsis);
        desc
    }

    /// Returns the document title.
    pub fn title(&self) -> (r: &DocumentTitle)
        ensures
            *r == self.spec_title(),
    {
        &self.title
    }

    /// Returns the series label when present.
    pub fn series(&self) -> (r: Option<&str>)
        ensures
            r is Some <==> self.spec_series() is Some,
            r matches Some(t) ==> self.spec_series() matches Some(s) && t@ == s@,
    {
        match self.series.as_ref() {
            Some(s) => Some(s.as_str()),
            None => None,
        }
    }

    /// Returns the synopsis when present.
    pub fn synopsis(&self) -> (r: Option<&str>)
        ensures
            r is Some <==> self.spec_synopsis() is Some,
            r matches Some(t) ==> self.spec_synopsis() matches Some(s) && t@ == s@,
    {
        match self.synopsis.as_ref() {
            Some(s) => Some(s.as_str()),
            None => None,
        }
    }
}

} // verus!
