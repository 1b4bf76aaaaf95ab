//! Where timeline documents are kept: file locations for JSON and TOML
//! documents. Loading and saving them is file work done by the caller.
use vstd::prelude::*;

verus! {

/// A timeline document kept as JSON in one file.
#[derive(Debug, Clone, PartialEq, Eq)]
pub struct JsonTimelineDocumentFileRepository {
    path: String,
}

impl JsonTimelineDocumentFileRepository {
    pub closed spec fn spec_path(&self) -> Seq<char> {
        self.path@
    }

    pub fn new(path: &str) -> (r: Self)
        ensures
            r.spec_path() == path@,
    {
        Self { path: path.to_owned() }
    }

    pub fn path(&self) -> (r: &str)
        ensures
            r@ == self.spec_path(),
    {
        self.path.as_str()
    }
}

/// A timeline document kept as TOML in one file.
#[derive(Debug, Clone, PartialEq, Eq)]
pub struct TomlTimelineDocumentFileRepository {
    path: String,
}

impl TomlTimelineDocumentFileRepository {
    pub closed spec fn spec_path(&self) -> Seq<char> {
        self.path@
    }

    pub fn new(path: &str) -> (r: Self)
        ensures
            r.spec_path() == path@,
    {
        Self { path: path.to_owned() }
    }

    pub fn path(&self) -> (r: &str)
        ensures
            r@ == self.spec_path(),
    {
        self.path.as_str()
    }
}

} // verus!
