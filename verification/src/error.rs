//! Failures: [`VaultdbError`] for an operation that cannot go on, [`ParseError`]
//! for a single file that could not be read.

use crate::text::{cat2, cat4, cat5};
use vstd::prelude::*;

pub mod laws;

verus! {

/// A file whose frontmatter could not be read; the others still load.
#[derive(Debug, PartialEq, Eq)]
pub struct ParseError {
    pub file: String,
    pub message: String,
}

/// Why an operation failed.
#[derive(Debug, PartialEq, Eq)]
pub enum VaultdbError {
    VaultNotFound(String),
    FolderNotFound(String),
    NoFrontmatter(String),
    InvalidFrontmatter { file: String, reason: String },
    InvalidWhereExpr(String),
    TypeMismatch { field: String, actual: String, expected: String },
    RegexError { pattern: String, reason: String },
    SchemaError(String),
    SafetyRefused { reason: String },
    Io(String),
    Yaml(String),
    Internal(String),
}

/// A failure with its texts as sequences of characters.
pub enum Failure {
    VaultNotFound(Seq<char>),
    FolderNotFound(Seq<char>),
    NoFrontmatter(Seq<char>),
    InvalidFrontmatter { file: Seq<char>, reason: Seq<char> },
    InvalidWhereExpr(Seq<char>),
    TypeMismatch { field: Seq<char>, actual: Seq<char>, expected: Seq<char> },
    RegexError { pattern: Seq<char>, reason: Seq<char> },
    SchemaError(Seq<char>),
    SafetyRefused { reason: Seq<char> },
    Io(Seq<char>),
    Yaml(Seq<char>),
    Internal(Seq<char>),
}

impl View for VaultdbError {
    type V = Failure;

    open spec fn view(&self) -> Failure {
        match *self {
            VaultdbError::VaultNotFound(s) => Failure::VaultNotFound(s@),
            VaultdbError::FolderNotFound(s) => Failure::FolderNotFound(s@),
            VaultdbError::NoFrontmatter(s) => Failure::NoFrontmatter(s@),
            VaultdbError::InvalidFrontmatter { file, reason } => Failure::InvalidFrontmatter {
                file: file@,
                reason: reason@,
            },
            VaultdbError::InvalidWhereExpr(s) => Failure::InvalidWhereExpr(s@),
            VaultdbError::TypeMismatch { field, actual, expected } => Failure::TypeMismatch {
                field: field@,
                actual: actual@,
                expected: expected@,
            },
            VaultdbError::RegexError { pattern, reason } => Failure::RegexError {
                pattern: pattern@,
                reason: reason@,
            },
            VaultdbError::SchemaError(s) => Failure::SchemaError(s@),
            VaultdbError::SafetyRefused { reason } => Failure::SafetyRefused { reason: reason@ },
            VaultdbError::Io(s) => Failure::Io(s@),
            VaultdbError::Yaml(s) => Failure::Yaml(s@),
            VaultdbError::Internal(s) => Failure::Internal(s@),
        }
    }
}

/// The message a failure is shown with.
pub open spec fn message(e: Failure) -> Seq<char> {
    match e {
        Failure::VaultNotFound(s) => "vault not found: no .obsidian/ directory in "@ + s
            + " or any parent"@,
        Failure::FolderNotFound(s) => "folder not found: "@ + s,
        Failure::NoFrontmatter(s) => "no frontmatter in file: "@ + s,
        Failure::InvalidFrontmatter { file, reason } => "invalid frontmatter YAML in "@ + file + ": "@
            + reason,
        Failure::InvalidWhereExpr(s) => "invalid where expression: "@ + s,
        Failure::TypeMismatch { field, actual, expected } => "type mismatch: field '"@ + field
            + "' is "@ + actual + ", cannot compare as "@ + expected,
        Failure::RegexError { pattern, reason } => "regex error in pattern '"@ + pattern + "': "@
            + reason,
        Failure::SchemaError(s) => "schema error: "@ + s,
        Failure::SafetyRefused { reason } => "operation refused: "@ + reason,
        Failure::Io(s) => s,
        Failure::Yaml(s) => s,
        Failure::Internal(s) => s,
    }
}

impl VaultdbError {
    /// The message to show.
    pub fn to_string(&self) -> (r: String)
        ensures
            r@ == message(self@),
    {
        match self {
            VaultdbError::VaultNotFound(s) => {
                let mut r: String = cat2(
                    "vault not found: no .obsidian/ directory in ",
                    s.as_str(),
                );
                r.append(" or any parent");
                r
            },
            VaultdbError::FolderNotFound(s) => cat2("folder not found: ", s.as_str()),
            VaultdbError::NoFrontmatter(s) => cat2("no frontmatter in file: ", s.as_str()),
            VaultdbError::InvalidFrontmatter { file, reason } => cat4(
                "invalid frontmatter YAML in ",
                file.as_str(),
                ": ",
                reason.as_str(),
            ),
            VaultdbError::InvalidWhereExpr(s) => cat2("invalid where expression: ", s.as_str()),
            VaultdbError::TypeMismatch { field, actual, expected } => {
                let mut r: String = cat5(
                    "type mismatch: field '",
                    field.as_str(),
                    "' is ",
                    actual.as_str(),
                    ", cannot compare as ",
                );
                r.append(expected.as_str());
                r
            },
            VaultdbError::RegexError { pattern, reason } => cat4(
                "regex error in pattern '",
                pattern.as_str(),
                "': ",
                reason.as_str(),
            ),
            VaultdbError::SchemaError(s) => cat2("schema error: ", s.as_str()),
            VaultdbError::SafetyRefused { reason } => cat2("operation refused: ", reason.as_str()),
            VaultdbError::Io(s) => s.clone(),
            VaultdbError::Yaml(s) => s.clone(),
            VaultdbError::Internal(s) => s.clone(),
        }
    }
}

} // verus!
