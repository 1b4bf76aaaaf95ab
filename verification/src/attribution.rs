//! Provenance, source references and tags carried by records.
use vstd::prelude::*;

verus! {

/// A reference to a record in an upstream source (an original record id).
#[derive(Debug, PartialEq, Eq)]
pub struct SourceRef(pub String);

impl Clone for SourceRef {
    fn clone(&self) -> (r: Self)
        ensures
            r == *self,
    {
        SourceRef(self.0.clone())
    }
}

impl SourceRef {
    pub fn new(value: &str) -> (r: Self)
        ensures
            r.0@ == value@,
    {
        SourceRef(value.to_owned())
    }
}

/// A free-form tag attached to a record.
#[derive(Debug, PartialEq, Eq)]
pub struct Tag(pub String);

impl Clone for Tag {
    fn clone(&self) -> (r: Self)
        ensures
            r == *self,
    {
        Tag(self.0.clone())
    }
}

impl Tag {
    pub fn new(value: &str) -> (r: Self)
        ensures
            r.0@ == value@,
    {
        Tag(value.to_owned())
    }
}

/// Where an assertion came from: source references and tags.
#[derive(Debug, PartialEq, Eq)]
pub struct Provenance {
    pub sources: Vec<SourceRef>,
    pub tags: Vec<Tag>,
}

impl Clone for Provenance {
    fn clone(&self) -> (r: Self)
        ensures
            r.sources@ == self.sources@,
            r.tags@ == self.tags@,
    {
        let sources = self.sources.clone();
        let tags = self.tags.clone();
        assert(sources@ =~= self.sources@);
        assert(tags@ =~= self.tags@);
        Provenance { sources, tags }
    }
}

impl Provenance {
    pub open spec fn is_empty_spec(&self) -> bool {
        self.sources@.len() == 0 && self.tags@.len() == 0
    }

    /// Provenance with no sources and no tags.
    pub fn empty() -> (r: Self)
        ensures
            r.is_empty_spec(),
    {
        Provenance { sources: Vec::new(), tags: Vec::new() }
    }
}

impl Default for Provenance {
    fn default() -> (r: Self)
        ensures
            r.is_empty_spec(),
    {
        Provenance::empty()
    }
}

} // verus!
