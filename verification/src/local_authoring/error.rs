//! Errors of local authoring.
use vstd::prelude::*;

verus! {

/// What went wrong while reading, checking or writing local data. The
/// messages of outside failures (I/O, TOML, JSON) are kept as text.
#[derive(Debug, PartialEq, Eq)]
pub enum LocalAuthoringError {
    Io { path: String, message: String },
    Toml { path: String, message: String },
    TomlSerialize { path: String, message: String },
    Json { path: String, message: String },
    InvalidMarkdown { path: String, message: String },
    Validation { message: String },
}

impl Clone for LocalAuthoringError {
    fn clone(&self) -> (r: Self)
        ensures
            r == *self,
    {
        match self {
            LocalAuthoringError::Io { path, message } => LocalAuthoringError::Io {
                path: path.clone(),
                message: message.clone(),
            },
            LocalAuthoringError::Toml { path, message } => LocalAuthoringError::Toml {
                path: path.clone(),
                message: message.clone(),
            },
            LocalAuthoringError::TomlSerialize { path, message } => {
                LocalAuthoringError::TomlSerialize { path: path.clone(), message: message.clone() }
            },
            LocalAuthoringError::Json { path, message } => LocalAuthoringError::Json {
                path: path.clone(),
                message: message.clone(),
            },
            LocalAuthoringError::InvalidMarkdown { path, message } => {
                LocalAuthoringError::InvalidMarkdown { path: path.clone(), message: message.clone() }
            },
            LocalAuthoringError::Validation { message } => LocalAuthoringError::Validation {
                message: message.clone(),
            },
        }
    }
}

/// `e` is a validation error with message `message`.
pub open spec fn is_validation(e: LocalAuthoringError, message: Seq<char>) -> bool {
    e matches LocalAuthoringError::Validation { message: m } && m@ == message
}

/// `r` is a validation error with message `message`.
pub open spec fn fails_with<T>(r: Result<T, LocalAuthoringError>, message: Seq<char>) -> bool {
    r matches Err(e) && is_validation(e, message)
}

impl LocalAuthoringError {
    /// A validation error.
    pub fn validation(message: String) -> (r: Self)
        ensures
            is_validation(r, message@),
    {
        LocalAuthoringError::Validation { message }
    }

    pub open spec fn spec_display(&self) -> Seq<char> {
        match *self {
            LocalAuthoringError::Io { path, message } => path@ + ": "@ + message@,
            LocalAuthoringError::Toml { path, message } => path@ + ": invalid TOML: "@ + message@,
            LocalAuthoringError::TomlSerialize { path, message } => path@
                + ": TOML serialization failed: "@ + message@,
            LocalAuthoringError::Json { path, message } => path@ + ": JSON serialization failed: "@
                + message@,
            LocalAuthoringError::InvalidMarkdown { path, message } => path@
                + ": invalid Markdown record: "@ + message@,
            LocalAuthoringError::Validation { message } => "local data validation failed: "@
                + message@,
        }
    }

    /// The error as a sentence, as it is shown to users.
    pub fn display(&self) -> (r: String)
        ensures
            r@ == self.spec_display(),
    {
        let (head, sep, tail) = match self {
            LocalAuthoringError::Io { path, message } => (path.as_str(), ": ", message.as_str()),
            LocalAuthoringError::Toml { path, message } => (
                path.as_str(),
                ": invalid TOML: ",
                message.as_str(),
            ),
            LocalAuthoringError::TomlSerialize { path, message } => (
                path.as_str(),
                ": TOML serialization failed: ",
                message.as_str(),
            ),
            LocalAuthoringError::Json { path, message } => (
                path.as_str(),
                ": JSON serialization failed: ",
                message.as_str(),
            ),
            LocalAuthoringError::InvalidMarkdown { path, message } => (
                path.as_str(),
                ": invalid Markdown record: ",
                message.as_str(),
            ),
            LocalAuthoringError::Validation { message } => (
                "",
                "local data validation failed: ",
                message.as_str(),
            ),
        };
        let mut r = head.to_owned();
        r.append(sep);
        r.append(tail);
        proof {
            reveal_strlit("");
        }
        r
    }
}

} // verus!
