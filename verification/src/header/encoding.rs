//! Encoding documentation (`<encodingDesc>`) and annotation system metadata.
//!
//! Validates identifiers and normalises optional descriptions to keep the
//! TEI header consistent.

use vstd::prelude::*;

use crate::header::{normalise_optional_text, HeaderValidationError};
use crate::textnorm::trimmed;

verus! {

/// Canonical identifier for an annotation system.
#[derive(Clone, Debug, Eq, PartialEq)]
pub struct AnnotationSystemId(pub(crate) String);

impl View for AnnotationSystemId {
    type V = Seq<char>;

    closed spec fn view(&self) -> Seq<char> {
        self.0@
    }
}

impl AnnotationSystemId {
    /// Validates the identifier text and constructs the domain wrapper.
    ///
    /// Fails exactly when the identifier is empty after normalisation.
    pub fn new(value: &str) -> (r: Result<Self, HeaderValidationError>)
        ensures
            r is Err <==> trimmed(value@).len() == 0,
            r matches Err(e) ==> e matches HeaderValidationError::EmptyField { field } && field@
                == "annotation system"@,
            r matches Ok(id) ==> id@ == trimmed(value@),
    {
        match normalise_optional_text(value) {
            Some(identifier) => Ok(AnnotationSystemId(identifier)),
            None => Err(HeaderValidationError::EmptyField { field: "annotation system" }),
        }
    }

    /// Returns the identifier as a string slice.
    pub fn as_str(&self) -> (r: &str)
        ensures
            r@ == self@,
    {
        self.0.as_str()
    }
}

/// Annotation toolkit metadata.
#[derive(Clone, Debug, PartialEq)]
pub struct AnnotationSystem {
    pub(crate) identifier: AnnotationSystemId,
    pub(crate) description: Option<String>,
}

impl AnnotationSystem {
    /// The canonical identifier.
    pub open(crate) spec fn spec_identifier(&self) -> AnnotationSystemId {
        self.identifier
    }

    /// The optional free-text description.
    pub open(crate) spec fn spec_description(&self) -> Option<String> {
        self.description
    }

    /// Validates the identifier and creates the annotation descriptor.
    ///
    /// Fails exactly when the identifier is empty after trimming; a blank
    /// description is dropped.
    pub fn new(identifier: &str, description: &str) -> (r: Result<Self, HeaderValidationError>)
        ensures
            r is Err <==> trimmed(identifier@).len() == 0,
            r matches Err(e) ==> e matches HeaderValidationError::EmptyField { field } && field@
                == "annotation system"@,
            r matches Ok(s) ==> {
                &&& s.spec_identifier()@ == trimmed(identifier@)
                &&& (s.spec_description() is Some <==> trimmed(description@).len() > 0)
                &&& (s.spec_description() matches Some(d) ==> d@ == trimmed(description@))
            },
    {
        match AnnotationSystemId::new(identifier) {
            Ok(canonical_identifier) => Ok(
                AnnotationSystem {
                    identifier: canonical_identifier,
                    description: normalise_optional_text(description),
                },
            ),
            Err(e) => Err(e),
        }
    }

    /// Returns the canonical identifier.
    pub fn identifier(&self) -> (r: &AnnotationSystemId)
        ensures
            *r == self.spec_identifier(),
    {
        &self.identifier
    }

    /// Returns the optional free-text description.
    pub fn description(&self) -> (r: Option<&str>)
        ensures
            r is Some <==> self.spec_description() is Some,
            r matches Some(t) ==> self.spec_description() matches Some(d) && t@ == d@,
    {
        match self.description.as_ref() {
            Some(d) => Some(d.as_str()),
            None => None,
        }
    }
}

/// Aggregates encoding metadata such as annotation systems.
#[derive(Clone, Debug, PartialEq)]
pub struct EncodingDesc {
    pub(crate) annotation_systems: Vec<AnnotationSystem>,
}

impl EncodingDesc {
    /// The registered annotation systems.
    pub open(crate) spec fn spec_systems(&self) -> Seq<AnnotationSystem> {
        self.annotation_systems@
    }

    /// Creates an empty encoding description.
    pub fn new() -> (r: Self)
        ensures
            r.spec_systems().len() == 0,
    {
        EncodingDesc { annotation_systems: Vec::new() }
    }

    /// Registers an annotation system.
    pub fn add_annotation_system(&mut self, system: AnnotationSystem)
        ensures
            final(self).spec_systems() == old(self).spec_systems().push(system),
    {
        self.annotation_systems.push(system);
    }

    /// Returns the registered systems.
    pub fn annotation_systems(&self) -> (r: &[AnnotationSystem])
        ensures
            r@ == self.spec_systems(),
    {
        self.annotation_systems.as_slice()
    }

    /// Reports whether any annotation systems were registered.
    pub fn is_empty(&self) -> (r: bool)
        ensures
            r == (self.spec_systems().len() == 0),
    {
        self.annotation_systems.is_empty()
    }

    /// Finds the first registered annotation system with the given
    /// identifier, in registration order.
    pub fn find(&self, id: &AnnotationSystemId) -> (r: Option<&AnnotationSystem>)
        ensures
            r is Some <==> exists|i: int|
                0 <= i < self.spec_systems().len() && (
                #[trigger] self.spec_systems()[i].spec_identifier())@ == id@,
            r matches Some(s) ==> exists|i: int|
                0 <= i < self.spec_systems().len() && *s == self.spec_systems()[i] && (
                #[trigger] self.spec_systems()[i].spec_identifier())@ == id@ && (forall|j: int|
                    0 <= j < i ==> (#[trigger] self.spec_systems()[j].spec_identifier())@ != id@),
    {
        self.find_str(id.as_str())
    }

    /// Finds the first registered annotation system by identifier text, in
    /// registration order.
    pub fn find_str(&self, id: &str) -> (r: Option<&AnnotationSystem>)
        ensures
            r is Some <==> exists|i: int|
                0 <= i < self.spec_systems().len() && (
                #[trigger] self.spec_systems()[i].spec_identifier())@ == id@,
            r matches Some(s) ==> exists|i: int|
                0 <= i < self.spec_systems().len() && *s == self.spec_systems()[i] && (
                #[trigger] self.spec_systems()[i].spec_identifier())@ == id@ && (forall|j: int|
                    0 <= j < i ==> (#[trigger] self.spec_systems()[j].spec_identifier())@ != id@),
    {
        let mut k: usize = 0;
        while k < self.annotation_systems.len()
            invariant
                k <= self.spec_systems().len(),
                forall|j: int|
                    0 <= j < k ==> (#[trigger] self.spec_systems()[j].spec_identifier())@ != id@,
            decreases self.spec_systems().len() - k,
        {
            let candidate = &self.annotation_systems[k];
            if str_eq(candidate.identifier.0.as_str(), id) {
                proof {
                    assert(self.spec_systems()[k as int].spec_identifier()@ == id@);
                }
                return Some(candidate);
            }
            proof {
                assert(self.spec_systems()[k as int].spec_identifier()@ != id@);
            }
            k = k + 1;
        }
        None
    }
}

/// Character-for-character string comparison.
fn str_eq(a: &str, b: &str) -> (r: bool)
    ensures
        r == (a@ == b@),
{
    let av = a.to_owned();
    let bv = b.to_owned();
    av.eq(&bv)
}

} // verus!
