//! Plans of files to write. Authoring commands decide what to create and
//! what each file holds; carrying the plan out on disk is left to the caller.
use vstd::prelude::*;
use crate::local_authoring::config::{WorkspaceConfig, WorldConfig};
use crate::local_authoring::error::{is_validation, LocalAuthoringError};
use crate::text::starts_with;

verus! {

/// What to do with a planned file that exists already.
#[derive(Debug, Clone, Copy, PartialEq, Eq, Structural)]
pub enum ExistingFile {
    /// Refuse, with an error that names the file.
    Fail,
    /// Leave the existing file as it is.
    Keep,
    /// Write the planned content over it.
    Replace,
}

/// The existing-file rule of a command run with or without `force`:
/// without it, commands either keep existing files or refuse them.
pub open spec fn spec_existing_rule(force: bool, refuse: bool) -> ExistingFile {
    if force {
        ExistingFile::Replace
    } else if refuse {
        ExistingFile::Fail
    } else {
        ExistingFile::Keep
    }
}

pub fn existing_rule(force: bool, refuse: bool) -> (r: ExistingFile)
    ensures
        r == spec_existing_rule(force, refuse),
{
    if force {
        ExistingFile::Replace
    } else if refuse {
        ExistingFile::Fail
    } else {
        ExistingFile::Keep
    }
}

/// The content of a planned file: text, or a configuration to be written
/// in TOML.
#[derive(Debug, PartialEq, Eq)]
pub enum PlannedContent {
    Text(String),
    WorkspaceConfig(WorkspaceConfig),
    WorldConfig(WorldConfig),
}

#[derive(Debug, PartialEq, Eq)]
pub struct PlannedFile {
    pub path: String,
    pub content: PlannedContent,
    pub existing: ExistingFile,
}

/// Directories to create (with their parents), then files to write, in order.
#[derive(Debug, PartialEq, Eq)]
pub struct WritePlan {
    pub root: String,
    pub dirs: Vec<String>,
    pub files: Vec<PlannedFile>,
}

/// `f` writes text `text` to `path` under rule `existing`.
pub open spec fn text_file(f: PlannedFile, path: Seq<char>, text: Seq<char>, existing: ExistingFile) -> bool {
    &&& f.path@ == path
    &&& f.content matches PlannedContent::Text(t) && t@ == text
    &&& f.existing == existing
}

pub fn text_file_new(path: String, text: String, existing: ExistingFile) -> (r: PlannedFile)
    ensures
        text_file(r, path@, text@, existing),
{
    PlannedFile { path, content: PlannedContent::Text(text), existing }
}

/// How a path is shown relative to a root (the path itself when it is not
/// under the root).
pub open spec fn spec_display_path(root: Seq<char>, path: Seq<char>) -> Seq<char> {
    if root.len() > 0 && root.last() == '/' {
        if root.len() <= path.len() && path.take(root.len() as int) == root {
            path.skip(root.len() as int)
        } else {
            path
        }
    } else if path == root {
        seq![]
    } else if root.len() + 1 <= path.len() && path.take(root.len() as int) == root && path[root.len() as int]
        == '/' {
        path.skip(root.len() as int + 1)
    } else {
        path
    }
}

pub fn display_path(root: &str, path: &str) -> (r: String)
    ensures
        r@ == spec_display_path(root@, path@),
{
    let n = root.unicode_len();
    let m = path.unicode_len();
    if n > 0 && root.get_char(n - 1) == '/' {
        if starts_with(path, root) {
            return path.substring_char(n, m).to_owned();
        }
        return path.to_owned();
    }
    if starts_with(path, root) {
        if m == n {
            assert(path@ =~= root@);
            return String::new();
        }
        if path.get_char(n) == '/' {
            return path.substring_char(n + 1, m).to_owned();
        }
    } else if m == n {
        assert(path@ != root@) by {
            if path@ == root@ {
                assert(path@.take(n as int) =~= root@);
            }
        }
    }
    path.to_owned()
}

/// Whether a planned file is written, given whether it exists: it is
/// written unless it exists and is kept; an existing file the plan refuses
/// is an error.
pub fn decide_write(root: &str, file: &PlannedFile, present: bool) -> (r: Result<bool, LocalAuthoringError>)
    ensures
        present && file.existing == ExistingFile::Fail ==> (r matches Err(e) && is_validation(
            e,
            spec_display_path(root@, file.path@) + " already exists; pass force/--force to overwrite"@,
        )),
        present && file.existing == ExistingFile::Keep ==> (r matches Ok(b) && !b),
        (!present || file.existing == ExistingFile::Replace) ==> (r matches Ok(b) && b),
{
    if present {
        match file.existing {
            ExistingFile::Fail => {
                let mut message = display_path(root, file.path.as_str());
                message.append(" already exists; pass force/--force to overwrite");
                Err(LocalAuthoringError::validation(message))
            },
            ExistingFile::Keep => Ok(false),
            ExistingFile::Replace => Ok(true),
        }
    } else {
        Ok(true)
    }
}

} // verus!
