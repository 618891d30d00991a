//! The server: its vault, what it may do, and how it answers.

use crate::error::{message, Failure, VaultdbError};
use crate::json::{js, lemma_js_array, lemma_js_object, members, Js, Json};
use crate::mcp::params::ExportOptions;
use crate::record::{lemma_val_mapping, recs, Rec, Record, Val, Value};
use crate::render::{format_of, Format};
use crate::schema::text_view;
use crate::text::{cat3, same_text};
use crate::vault::Vault;
use vstd::prelude::*;

verus! {

/// Why a tool refuses to answer: what it was asked, or an inner failure.
#[derive(Debug, PartialEq, Eq)]
pub enum ToolError {
    InvalidParams(String),
    Internal(String),
}

/// Why a tool refuses to answer, with its text as a sequence of characters.
pub enum Refusal {
    InvalidParams(Seq<char>),
    Internal(Seq<char>),
}

impl View for ToolError {
    type V = Refusal;

    open spec fn view(&self) -> Refusal {
        match *self {
            ToolError::InvalidParams(m) => Refusal::InvalidParams(m@),
            ToolError::Internal(m) => Refusal::Internal(m@),
        }
    }
}

/// The refusal because of a failure, with what was being done.
pub open spec fn invalid_because(context: Seq<char>, e: Failure) -> Refusal {
    Refusal::InvalidParams(context + ": "@ + message(e))
}

/// Refuses because of a failure.
pub fn invalid(context: &str, e: &VaultdbError) -> (r: ToolError)
    ensures
        r@ == invalid_because(context@, e@),
{
    ToolError::InvalidParams(cat3(context, ": ", e.to_string().as_str()))
}

// ── Permissions ────────────────────────────────────────────────────────────

/// Which tools may change the vault. None may unless it is said so.
#[derive(Debug, Clone, Copy, PartialEq, Eq, Structural)]
pub struct ExecutePermissions {
    pub create: bool,
    pub update: bool,
    pub delete: bool,
    pub permanent_delete: bool,
}

impl Default for ExecutePermissions {
    fn default() -> (r: Self)
        ensures
            r == (ExecutePermissions {
                create: false,
                update: false,
                delete: false,
                permanent_delete: false,
            }),
    {
        ExecutePermissions { create: false, update: false, delete: false, permanent_delete: false }
    }
}

impl ExecutePermissions {
    /// Tells whether any tool may change the vault.
    pub fn any(&self) -> (r: bool)
        ensures
            r == (self.create || self.update || self.delete || self.permanent_delete),
    {
        self.create || self.update || self.delete || self.permanent_delete
    }
}

/// A tool that changes the vault.
#[derive(Debug, Clone, Copy, PartialEq, Eq, Structural)]
pub enum ExecuteTool {
    Create,
    Update,
    Move,
    Rename,
    /// A deletion, for good or not.
    Delete { permanent: bool },
}

/// The flag of the first permission that a tool lacks.
pub open spec fn missing_flag(p: ExecutePermissions, tool: ExecuteTool) -> Option<Seq<char>> {
    match tool {
        ExecuteTool::Create => if p.create {
            None
        } else {
            Some("dangerously-allow-create"@)
        },
        ExecuteTool::Update | ExecuteTool::Move | ExecuteTool::Rename => if p.update {
            None
        } else {
            Some("dangerously-allow-update"@)
        },
        ExecuteTool::Delete { permanent } => if !p.delete {
            Some("dangerously-allow-delete"@)
        } else if permanent && !p.permanent_delete {
            Some("dangerously-allow-permanent-delete"@)
        } else {
            None
        },
    }
}

/// The refusal of a tool that is not allowed.
pub open spec fn disabled(flag: Seq<char>) -> Refusal {
    Refusal::InvalidParams(
        "this tool is disabled. Launch vaultdb-mcp with --"@ + flag + " to enable it."@,
    )
}

/// The refusal of a tool that needs a vault, where there is none.
pub open spec fn no_vault() -> Refusal {
    Refusal::InvalidParams(
        "no vault configured: pass --vault <path>, set VAULTDB_VAULT, or run from inside a directory whose ancestors contain `.obsidian/`"@,
    )
}

/// The server. It starts without a vault, too; its tools then refuse to answer.
#[derive(Debug, PartialEq, Eq)]
pub struct VaultdbServer {
    pub vault: Option<Vault>,
    pub permissions: ExecutePermissions,
}

impl VaultdbServer {
    /// A server of a vault.
    pub fn new(vault: Option<Vault>, permissions: ExecutePermissions) -> (r: Self)
        ensures
            r.vault == vault,
            r.permissions == permissions,
    {
        VaultdbServer { vault, permissions }
    }

    /// The vault, where there is one.
    pub fn vault(&self) -> (r: Result<&Vault, ToolError>)
        ensures
            match r {
                Ok(v) => self.vault == Some(*v),
                Err(e) => self.vault is None && e@ == no_vault(),
            },
    {
        match &self.vault {
            Some(v) => Ok(v),
            None => Err(
                ToolError::InvalidParams(
                    "no vault configured: pass --vault <path>, set VAULTDB_VAULT, or run from inside a directory whose ancestors contain `.obsidian/`".to_owned(),
                ),
            ),
        }
    }

    /// Refuses what is not allowed, naming the flag that allows it.
    pub fn require(&self, allowed: bool, flag: &str) -> (r: Result<(), ToolError>)
        ensures
            match r {
                Ok(_) => allowed,
                Err(e) => !allowed && e@ == disabled(flag@),
            },
    {
        if allowed {
            Ok(())
        } else {
            Err(
                ToolError::InvalidParams(
                    cat3(
                        "this tool is disabled. Launch vaultdb-mcp with --",
                        flag,
                        " to enable it.",
                    ),
                ),
            )
        }
    }

    /// Refuses a tool that is not allowed to change the vault.
    pub fn permit(&self, tool: ExecuteTool) -> (r: Result<(), ToolError>)
        ensures
            match missing_flag(self.permissions, tool) {
                None => r is Ok,
                Some(flag) => r is Err && r->Err_0@ == disabled(flag),
            },
    {
        match tool {
            ExecuteTool::Create => self.require(
                self.permissions.create,
                "dangerously-allow-create",
            ),
            ExecuteTool::Update | ExecuteTool::Move | ExecuteTool::Rename => self.require(
                self.permissions.update,
                "dangerously-allow-update",
            ),
            ExecuteTool::Delete { permanent } => {
                match self.require(self.permissions.delete, "dangerously-allow-delete") {
                    Ok(_) => {},
                    Err(e) => {
                        return Err(e);
                    },
                }
                if permanent {
                    self.require(
                        self.permissions.permanent_delete,
                        "dangerously-allow-permanent-delete",
                    )
                } else {
                    Ok(())
                }
            },
        }
    }
}

/// Without permissions, no tool changes the vault.
pub proof fn law_nothing_by_default(p: ExecutePermissions, tool: ExecuteTool)
    requires
        !p.create && !p.update && !p.delete && !p.permanent_delete,
    ensures
        missing_flag(p, tool) is Some,
{
}

/// A deletion for good needs both permissions.
pub proof fn law_permanent_needs_both(p: ExecutePermissions)
    ensures
        missing_flag(p, ExecuteTool::Delete { permanent: true }) is None <==> p.delete
            && p.permanent_delete,
{
}

// ── Exports ────────────────────────────────────────────────────────────────

/// The separator that a name stands for.
pub open spec fn delimiter_of(name: Option<Seq<char>>) -> Result<u8, Refusal> {
    match name {
        None => Ok(44),
        Some(s) => if s == "comma"@ || s == ","@ {
            Ok(44)
        } else if s == "semicolon"@ || s == ";"@ {
            Ok(59)
        } else if s == "tab"@ || s == "\t"@ || s == "\\t"@ {
            Ok(9)
        } else {
            Err(
                Refusal::InvalidParams(
                    "csv_delimiter must be one of 'comma', 'semicolon', 'tab'; got '"@ + s + "'"@,
                ),
            )
        },
    }
}

/// Reads a separator; a comma where none is given.
pub fn parse_csv_delimiter(s: Option<&str>) -> (r: Result<u8, ToolError>)
    ensures
        match r {
            Ok(b) => delimiter_of(crate::cli::query::str_view(s)) == Ok::<u8, Refusal>(b),
            Err(e) => delimiter_of(crate::cli::query::str_view(s)) == Err::<u8, Refusal>(e@),
        },
{
    match s {
        None => Ok(44),
        Some(t) => if same_text(t, "comma") || same_text(t, ",") {
            Ok(44)
        } else if same_text(t, "semicolon") || same_text(t, ";") {
            Ok(59)
        } else if same_text(t, "tab") || same_text(t, "\t") || same_text(t, "\\t") {
            Ok(9)
        } else {
            Err(
                ToolError::InvalidParams(
                    cat3(
                        "csv_delimiter must be one of 'comma', 'semicolon', 'tab'; got '",
                        t,
                        "'",
                    ),
                ),
            )
        },
    }
}

/// The format that a result is exported in, where it is exported.
pub open spec fn export_format_of(export: Option<Seq<char>>, delimiter: Option<Seq<char>>) -> Result<
    Option<Format>,
    Refusal,
> {
    match export {
        None => Ok(None),
        Some(path) => match delimiter_of(delimiter) {
            Err(e) => Err(e),
            Ok(b) => match format_of(path) {
                Err(e) => Err(invalid_because("export format"@, e)),
                Ok(Format::Csv { .. }) => Ok(Some(Format::Csv { delimiter: b })),
                Ok(f) => Ok(Some(f)),
            },
        },
    }
}

/// Finds the format that a result is exported in.
pub fn export_format(opts: &ExportOptions) -> (r: Result<Option<Format>, ToolError>)
    ensures
        match r {
            Ok(f) => export_format_of(text_view(opts.export), text_view(opts.csv_delimiter)) == Ok::<
                Option<Format>,
                Refusal,
            >(f),
            Err(e) => export_format_of(text_view(opts.export), text_view(opts.csv_delimiter))
                == Err::<Option<Format>, Refusal>(e@),
        },
{
    let path: &str = match &opts.export {
        Some(p) => p.as_str(),
        None => {
            return Ok(None);
        },
    };
    let name: Option<&str> = match &opts.csv_delimiter {
        Some(d) => Some(d.as_str()),
        None => None,
    };
    let b: u8 = match parse_csv_delimiter(name) {
        Ok(b) => b,
        Err(e) => {
            return Err(e);
        },
    };
    match Format::from_path(path) {
        Ok(f) => Ok(Some(f.with_csv_delimiter(b))),
        Err(e) => Err(invalid("export format", &e)),
    }
}

/// An answer: the result, or with it where it was written to.
pub open spec fn answered_with(body: Js, exported_to: Option<Seq<char>>) -> Js {
    match exported_to {
        None => body,
        Some(path) => Js::Object(seq![("data"@, body), ("exported_to"@, Js::Text(path))]),
    }
}

/// Makes an answer.
pub fn respond(body: Json, exported_to: Option<String>) -> (r: Json)
    ensures
        js(r) == answered_with(js(body), text_view(exported_to)),
{
    match exported_to {
        None => body,
        Some(path) => {
            let mut m: Vec<(String, Json)> = Vec::new();
            m.push(("data".to_owned(), body));
            m.push(("exported_to".to_owned(), Json::Text(path)));
            assert(members(m@) =~= seq![("data"@, js(body)), ("exported_to"@, Js::Text(path@))]);
            proof {
                lemma_js_object(m);
            }
            Json::Object(m)
        },
    }
}

/// A note as it is answered: its fields and its path, and its text where it is there.
pub open spec fn record_js(r: Rec) -> Js {
    let head = seq![
        ("fields"@, crate::json::json_of(Val::Mapping(r.fields))),
        ("path"@, Js::Text(r.path)),
    ];
    match r.content {
        Some(t) => Js::Object(head.push(("raw_content"@, Js::Text(t)))),
        None => Js::Object(head),
    }
}

/// Makes an answer of a note.
pub fn record_json(r: &Record) -> (j: Json)
    ensures
        js(j) == record_js(r@),
{
    let fields: Value = Value::Mapping(crate::record::copy_fields(&r.fields));
    proof {
        lemma_val_mapping(fields->Mapping_0);
    }
    let mut m: Vec<(String, Json)> = Vec::new();
    let f: Json = crate::json::value_to_json(&fields);
    m.push(("fields".to_owned(), f));
    m.push(("path".to_owned(), Json::Text(r.path.clone())));
    let ghost head = seq![
        ("fields"@, crate::json::json_of(Val::Mapping(r@.fields))),
        ("path"@, Js::Text(r@.path)),
    ];
    assert(members(m@) =~= head);
    match &r.raw_content {
        Some(t) => {
            m.push(("raw_content".to_owned(), Json::Text(t.clone())));
            assert(members(m@) =~= head.push(("raw_content"@, Js::Text(t@))));
        },
        None => {},
    }
    proof {
        lemma_js_object(m);
    }
    Json::Object(m)
}

/// Notes as they are answered.
pub open spec fn records_js(rs: Seq<Rec>) -> Js {
    Js::Array(Seq::new(rs.len(), |i: int| record_js(rs[i])))
}

/// Makes an answer of notes.
pub fn records_json(records: &Vec<Record>) -> (j: Json)
    ensures
        js(j) == records_js(recs(records@)),
{
    let ghost rs = recs(records@);
    let ghost want = Seq::new(rs.len(), |i: int| record_js(rs[i]));
    let mut items: Vec<Json> = Vec::new();
    let mut i: usize = 0;
    assert(crate::json::jss(items@) =~= want.take(0));
    while i < records.len()
        invariant
            rs == recs(records@),
            want == Seq::new(rs.len(), |i: int| record_js(rs[i])),
            i <= records.len(),
            crate::json::jss(items@) == want.take(i as int),
        decreases records.len() - i,
    {
        let j: Json = record_json(&records[i]);
        let ghost before = crate::json::jss(items@);
        items.push(j);
        assert(crate::json::jss(items@) =~= before.push(js(j)));
        i += 1;
        assert(crate::json::jss(items@) =~= want.take(i as int));
    }
    assert(want.take(i as int) =~= want);
    proof {
        lemma_js_array(items);
    }
    Json::Array(items)
}

} // verus!
