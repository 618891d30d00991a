//! What the tools are asked. Mappings are lists of pairs, the keys ascending.

use crate::json::Json;
use vstd::prelude::*;

verus! {

/// Where a result is written to, too.
#[derive(Debug, PartialEq, Eq)]
pub struct ExportOptions {
    /// A path below the vault.
    pub export: Option<String>,
    /// The separator of CSV: `comma`, `semicolon` or `tab`.
    pub csv_delimiter: Option<String>,
}

/// What the tool `query` is asked.
#[derive(Debug, PartialEq, Eq)]
pub struct QueryParams {
    pub folder: String,
    /// A condition on the notes.
    pub filter: Option<String>,
    /// Names of fields, separated by commas.
    pub select: Option<String>,
    pub sort: Option<String>,
    pub desc: bool,
    pub limit: Option<usize>,
    pub recursive: bool,
    pub export_opts: ExportOptions,
}

/// What the tool `find_by_name` is asked.
#[derive(Debug, PartialEq, Eq)]
pub struct FindByNameParams {
    pub folder: String,
    pub name: String,
    pub export_opts: ExportOptions,
}

/// What the tool `list_folders` is asked.
#[derive(Debug, PartialEq, Eq)]
pub struct ListFoldersParams {
    pub export_opts: ExportOptions,
}

/// What the tool `links` is asked.
#[derive(Debug, PartialEq, Eq)]
pub struct LinksParams {
    pub name: String,
    pub direction: String,
    pub export_opts: ExportOptions,
}

/// What the tool `traverse` is asked.
#[derive(Debug, PartialEq, Eq)]
pub struct TraverseParams {
    pub name: String,
    pub depth: usize,
    pub direction: String,
    pub export_opts: ExportOptions,
}

/// What the tool `unresolved` is asked.
#[derive(Debug, PartialEq, Eq)]
pub struct UnresolvedParams {
    pub export_opts: ExportOptions,
}

/// What the tool `schema_show` is asked.
#[derive(Debug, PartialEq, Eq)]
pub struct SchemaShowParams {
    /// The folder whose collections are shown; all of them where this is missing.
    pub folder: Option<String>,
    pub export_opts: ExportOptions,
}

/// What the tool `schema_infer` is asked.
#[derive(Debug, PartialEq, Eq)]
pub struct SchemaInferParams {
    pub folder: String,
    pub recursive: bool,
    /// Whether the collection is added to the schema of the vault.
    pub write: bool,
    pub export_opts: ExportOptions,
}

/// What the tools `plan_update` and `execute_update` are asked.
#[derive(Debug, PartialEq, Eq)]
pub struct PlanUpdateParams {
    pub folder: String,
    pub filter: String,
    /// Fields to be set, as `FIELD=VALUE`.
    pub set: Vec<String>,
    /// Fields to be set, with values that keep their kind; they come last.
    pub set_typed: Vec<(String, Json)>,
    pub unset: Vec<String>,
    pub add_tag: Vec<String>,
    pub remove_tag: Vec<String>,
    /// A new body.
    pub set_body: Option<String>,
    /// Texts to be added to the body.
    pub append_body: Vec<String>,
    /// Whether the body is emptied, before it is set or added to.
    pub clear_body: bool,
    /// What stands before each added text; a line break where this is missing.
    pub body_separator: Option<String>,
    pub recursive: bool,
}

/// What the tools `plan_delete` and `execute_delete` are asked.
#[derive(Debug, PartialEq, Eq)]
pub struct PlanDeleteParams {
    pub folder: String,
    pub filter: String,
    pub permanent: bool,
    pub recursive: bool,
}

/// What the tools `plan_move` and `execute_move` are asked.
#[derive(Debug, PartialEq, Eq)]
pub struct PlanMoveParams {
    pub folder: String,
    pub to: String,
    pub filter: String,
    pub recursive: bool,
}

/// What the tools `plan_rename` and `execute_rename` are asked.
#[derive(Debug, PartialEq, Eq)]
pub struct PlanRenameParams {
    pub folder: String,
    pub from: String,
    pub to: String,
}

/// What the tools `plan_create` and `execute_create` are asked.
#[derive(Debug, PartialEq, Eq)]
pub struct PlanCreateParams {
    pub folder: String,
    pub name: String,
    /// The path of a template below the vault.
    pub template: Option<String>,
    pub set: Vec<(String, Json)>,
    /// The body, in place of that of the template.
    pub body: Option<String>,
}

/// The direction of `links` where none is given.
pub fn default_both() -> (r: String)
    ensures
        r@ == "both"@,
{
    "both".to_owned()
}

/// The depth of `traverse` where none is given.
pub fn default_traverse_depth() -> (r: usize)
    ensures
        r == 2,
{
    2
}

/// The direction of `traverse` where none is given.
pub fn default_outgoing() -> (r: String)
    ensures
        r@ == "outgoing"@,
{
    "outgoing".to_owned()
}

} // verus!
