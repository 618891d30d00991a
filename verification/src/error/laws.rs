//! What failures say.

use crate::error::{message, Failure};
use vstd::prelude::*;

verus! {

/// The message of a failure says what kind of failure it is and what it was about.
pub proof fn law_messages(
    s: Seq<char>,
    file: Seq<char>,
    field: Seq<char>,
    actual: Seq<char>,
    expected: Seq<char>,
)
    ensures
        message(Failure::VaultNotFound(s)) == "vault not found: no .obsidian/ directory in "@ + s
            + " or any parent"@,
        message(Failure::FolderNotFound(s)) == "folder not found: "@ + s,
        message(Failure::NoFrontmatter(s)) == "no frontmatter in file: "@ + s,
        message(Failure::InvalidFrontmatter { file, reason: s })
            == "invalid frontmatter YAML in "@ + file + ": "@ + s,
        message(Failure::InvalidWhereExpr(s)) == "invalid where expression: "@ + s,
        message(Failure::TypeMismatch { field, actual, expected }) == "type mismatch: field '"@
            + field + "' is "@ + actual + ", cannot compare as "@ + expected,
        message(Failure::RegexError { pattern: file, reason: s }) == "regex error in pattern '"@
            + file + "': "@ + s,
        message(Failure::SchemaError(s)) == "schema error: "@ + s,
        message(Failure::SafetyRefused { reason: s }) == "operation refused: "@ + s,
        message(Failure::Io(s)) == s && message(Failure::Yaml(s)) == s && message(
            Failure::Internal(s),
        ) == s,
{
}

} // verus!
