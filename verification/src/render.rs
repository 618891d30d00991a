//! Exports: records and documents as CSV, JSON, YAML or sheets, and where they are
//! written.
//!
//! An export lies inside the vault: absolute paths and paths that lead upwards are
//! refused, and so is a folder that a link leads out of the vault. A file that is
//! there is not replaced.

use crate::error::{Failure, VaultdbError};
use crate::json::{
    json_as_yaml, json_of, json_pretty, json_to_table, js, row_views, held, table_of, to_pretty,
    to_yaml, value_to_json, Js, Json,
};
use crate::links::{graph_view, Graph, LinkGraph};
use crate::path::{
    below, components, extension, extension_of, file_name, file_name_of, is_absolute, join_path,
    lemma_components_below, path_components, stem, stem_of,
};
use crate::record::{
    entries, lemma_val_list, lemma_val_mapping, looked_up, recs, set_entry, shown, val, vals,
    with_entry, Rec, Record, Val, Value,
};
use crate::schema::field_names;
use crate::text::{
    cat2, cat3, cat4, decimal, from_chars, integer_of, is_text, lowered, number_text, parse_integer,
    same_text, split_by, string_views, to_ascii_lowercase, to_chars, views,
};
use crate::tree::{starts_at_root, Tree};
use crate::mutation::laws::{lemma_named, lemma_parts_lack};
use crate::mutation::relocate::{has_path, is_among};
use crate::vault::{ancestor, find_ancestor, with_all_texts, with_texts};
use crate::yaml::{float_reading, read_float};
use vstd::prelude::*;

pub mod laws;

verus! {

// ── Formats ────────────────────────────────────────────────────────────────

/// What an export looks like.
#[derive(Debug, Clone, Copy, PartialEq, Eq, Structural)]
pub enum Format {
    /// Values separated by a character, given as a byte.
    Csv { delimiter: u8 },
    /// A sheet of a workbook.
    Xlsx,
    Json,
    Yaml,
}

/// The extension of a path in lower case.
pub open spec fn lower_extension(path: Seq<char>) -> Option<Seq<char>> {
    match file_name(path) {
        Some(n) => match extension(n) {
            Some(e) => Some(lowered(e)),
            None => None,
        },
        None => None,
    }
}

/// The refusal to do something.
pub open spec fn refused(reason: Seq<char>) -> Failure {
    Failure::SafetyRefused { reason }
}

/// The format of an export at a path, or why there is none.
pub open spec fn format_of(path: Seq<char>) -> Result<Format, Failure> {
    match lower_extension(path) {
        Some(e) => if e == "csv"@ {
            Ok(Format::Csv { delimiter: 44 })
        } else if e == "tsv"@ {
            Ok(Format::Csv { delimiter: 9 })
        } else if e == "json"@ {
            Ok(Format::Json)
        } else if e == "yaml"@ || e == "yml"@ {
            Ok(Format::Yaml)
        } else if e == "xlsx"@ {
            Ok(Format::Xlsx)
        } else if e == "md"@ {
            Err(
                refused(
                    "refusing to export to '"@ + path
                        + "': .md is the vault's note format, not an export format"@,
                ),
            )
        } else {
            Err(
                refused(
                    "unsupported export extension '."@ + e
                        + "'; expected one of: csv, tsv, json, yaml, yml, xlsx"@,
                ),
            )
        },
        None => Err(
            refused(
                "export path '"@ + path
                    + "' has no extension; expected one of: csv, tsv, json, yaml, yml, xlsx"@,
            ),
        ),
    }
}

/// What a format, or the failure, is.
pub open spec fn format_view(r: Result<Format, VaultdbError>) -> Result<Format, Failure> {
    match r {
        Ok(f) => Ok(f),
        Err(e) => Err(e@),
    }
}

/// Reads the extension of a path in lower case.
fn read_extension(path: &str) -> (r: Option<String>)
    ensures
        crate::schema::text_view(r) == lower_extension(path@),
{
    match file_name_of(path) {
        Some(n) => match extension_of(n.as_str()) {
            Some(e) => Some(from_chars(&to_ascii_lowercase(&to_chars(e.as_str())))),
            None => None,
        },
        None => None,
    }
}

/// Makes a refusal.
fn refuse(reason: String) -> (e: VaultdbError)
    ensures
        e@ == refused(reason@),
{
    VaultdbError::SafetyRefused { reason }
}

impl Format {
    /// Finds the format of an export by the extension of its path.
    pub fn from_path(path: &str) -> (r: Result<Format, VaultdbError>)
        ensures
            format_view(r) == format_of(path@),
    {
        match read_extension(path) {
            Some(e) => {
                let ext: &str = e.as_str();
                if same_text(ext, "csv") {
                    Ok(Format::Csv { delimiter: 44 })
                } else if same_text(ext, "tsv") {
                    Ok(Format::Csv { delimiter: 9 })
                } else if same_text(ext, "json") {
                    Ok(Format::Json)
                } else if same_text(ext, "yaml") || same_text(ext, "yml") {
                    Ok(Format::Yaml)
                } else if same_text(ext, "xlsx") {
                    Ok(Format::Xlsx)
                } else if same_text(ext, "md") {
                    Err(
                        refuse(
                            cat3(
                                "refusing to export to '",
                                path,
                                "': .md is the vault's note format, not an export format",
                            ),
                        ),
                    )
                } else {
                    Err(
                        refuse(
                            cat3(
                                "unsupported export extension '.",
                                ext,
                                "'; expected one of: csv, tsv, json, yaml, yml, xlsx",
                            ),
                        ),
                    )
                }
            },
            None => Err(
                refuse(
                    cat3(
                        "export path '",
                        path,
                        "' has no extension; expected one of: csv, tsv, json, yaml, yml, xlsx",
                    ),
                ),
            ),
        }
    }

    /// The format with another separator, where it has one.
    pub fn with_csv_delimiter(self, delimiter: u8) -> (r: Format)
        ensures
            r == match self {
                Format::Csv { .. } => Format::Csv { delimiter },
                other => other,
            },
    {
        match self {
            Format::Csv { .. } => Format::Csv { delimiter },
            other => other,
        }
    }
}

// ── Where exports are written ──────────────────────────────────────────────

/// Why a path is none that an export can be written to.
pub open spec fn path_refusal(requested: Seq<char>) -> Option<Seq<char>> {
    if requested.len() == 0 {
        Some("export path is empty"@)
    } else if is_absolute(requested) {
        Some("export path must be vault-relative, got absolute path: "@ + requested)
    } else if components(requested).contains(".."@) {
        Some("export path must not contain '..': "@ + requested)
    } else if lower_extension(requested) == Some("md"@) {
        Some(
            "refusing to export to '"@ + requested
                + "': use a non-.md extension (csv, tsv, json, yaml, xlsx)"@,
        )
    } else {
        None
    }
}

/// The folder that an export goes to, or why there is none.
pub open spec fn export_folder(root: Seq<char>, requested: Seq<char>) -> Result<
    Seq<char>,
    Failure,
> {
    let candidate = below(root, requested);
    match path_refusal(requested) {
        Some(reason) => Err(refused(reason)),
        None => if components(candidate).len() == 0 {
            Err(refused("export path has no parent: "@ + requested))
        } else if file_name(candidate) is None {
            Err(refused("export path has no filename: "@ + requested))
        } else {
            Ok(ancestor(candidate, components(candidate).len() - 1))
        },
    }
}

/// Whether a path is a folder or lies below it.
pub open spec fn is_under(path: Seq<char>, folder: Seq<char>) -> bool {
    &&& is_absolute(path) == is_absolute(folder)
    &&& components(folder).len() <= components(path).len()
    &&& components(path).take(components(folder).len() as int) == components(folder)
}

/// The folder that names lead to from a folder.
pub open spec fn deepened(folder: Seq<char>, names: Seq<Seq<char>>) -> Seq<char>
    decreases names.len(),
{
    if names.len() == 0 {
        folder
    } else {
        below(deepened(folder, names.drop_last()), names.last())
    }
}

/// The folder of an export, of whose components the first `there` lead to a folder that
/// is there, or why the rest may not be made. The paths of the vault and of the folder
/// that is there are given without links in them.
pub open spec fn made_folder(
    root: Seq<char>,
    requested: Seq<char>,
    true_root: Seq<char>,
    there: nat,
    true_there: Seq<char>,
) -> Result<Seq<char>, Failure> {
    match export_folder(root, requested) {
        Err(e) => Err(e),
        Ok(folder) => {
            let path = deepened(true_there, components(folder).skip(there as int));
            if is_under(true_there, true_root) {
                Ok(path)
            } else {
                Err(
                    refused(
                        "export path escapes vault root: "@ + requested + " resolved to "@ + path,
                    ),
                )
            }
        },
    }
}

/// The path of an export at the `n`th try, once its own is taken.
pub open spec fn suffixed(folder: Seq<char>, name: Seq<char>, n: nat) -> Seq<char> {
    below(
        folder,
        stem(name) + " ("@ + decimal(n) + ")"@ + match extension(name) {
            Some(e) => "."@ + e,
            None => seq![],
        },
    )
}

/// The first free path from the `n`th try on.
pub open spec fn free_export(
    taken: Seq<Seq<char>>,
    folder: Seq<char>,
    name: Seq<char>,
    n: nat,
) -> Option<Seq<char>>
    decreases 10_001 - n,
{
    if n > 10_000 {
        None
    } else if has_path(taken, suffixed(folder, name, n)) {
        free_export(taken, folder, name, n + 1)
    } else {
        Some(suffixed(folder, name, n))
    }
}

/// Where an export is written, once the folder it goes to is there. The paths of the
/// vault and of that folder are given without links in them.
pub open spec fn export_path(
    root: Seq<char>,
    requested: Seq<char>,
    true_root: Seq<char>,
    true_folder: Seq<char>,
    taken: Seq<Seq<char>>,
) -> Result<Seq<char>, Failure> {
    match export_folder(root, requested) {
        Err(e) => Err(e),
        Ok(_) => {
            let name = file_name(below(root, requested))->0;
            let target = below(true_folder, name);
            if !is_under(true_folder, true_root) {
                Err(
                    refused(
                        "export path escapes vault root: "@ + requested + " resolved to "@
                            + true_folder,
                    ),
                )
            } else if !has_path(taken, target) {
                Ok(target)
            } else {
                match free_export(taken, true_folder, name, 1) {
                    Some(p) => Ok(p),
                    None => Err(
                        refused(
                            "export path collision could not be resolved after 10000 attempts: "@
                                + target,
                        ),
                    ),
                }
            }
        },
    }
}

/// Finds why a path is none that an export can be written to.
fn find_refusal(requested: &str) -> (r: Option<String>)
    ensures
        crate::schema::text_view(r) == path_refusal(requested@),
{
    let text: Vec<char> = to_chars(requested);
    if text.len() == 0 {
        return Some("export path is empty".to_owned());
    }
    if starts_at_root(requested) {
        return Some(
            cat2("export path must be vault-relative, got absolute path: ", requested),
        );
    }
    let cs: Vec<Vec<char>> = path_components(requested);
    let ghost cv = views(cs@);
    let mut i: usize = 0;
    while i < cs.len()
        invariant
            cv == views(cs@),
            cv == components(requested@),
            text@ == requested@,
            text.len() > 0,
            !is_absolute(requested@),
            i <= cs.len(),
            forall|k: int| 0 <= k < i ==> #[trigger] cv[k] != ".."@,
        decreases cs.len() - i,
    {
        assert(cv[i as int] == cs@[i as int]@);
        if is_text(&cs[i], "..") {
            assert(cv.contains(".."@));
            return Some(cat2("export path must not contain '..': ", requested));
        }
        i += 1;
    }
    assert(!cv.contains(".."@));
    match read_extension(requested) {
        Some(e) => {
            if same_text(e.as_str(), "md") {
                return Some(
                    cat3(
                        "refusing to export to '",
                        requested,
                        "': use a non-.md extension (csv, tsv, json, yaml, xlsx)",
                    ),
                );
            }
        },
        None => {},
    }
    None
}

/// Finds the folder that an export goes to. Where it is not there yet,
/// [`folder_to_make`] tells whether it may be made.
pub fn export_parent(vault_root: &str, requested: &str) -> (r: Result<String, VaultdbError>)
    ensures
        crate::vault::path_view(r) == export_folder(vault_root@, requested@),
{
    match find_refusal(requested) {
        Some(reason) => {
            return Err(refuse(reason));
        },
        None => {},
    }
    let candidate: String = join_path(vault_root, requested);
    let cs: Vec<Vec<char>> = path_components(candidate.as_str());
    assert(views(cs@).len() == cs.len());
    if cs.len() == 0 {
        return Err(refuse(cat2("export path has no parent: ", requested)));
    }
    if file_name_of(candidate.as_str()).is_none() {
        return Err(refuse(cat2("export path has no filename: ", requested)));
    }
    Ok(find_ancestor(candidate.as_str(), cs.len() - 1))
}

/// Tells whether a path is a folder or lies below it.
fn lies_under(path: &str, folder: &str) -> (r: bool)
    ensures
        r == is_under(path@, folder@),
{
    if starts_at_root(path) != starts_at_root(folder) {
        return false;
    }
    let cs: Vec<Vec<char>> = path_components(path);
    let fs: Vec<Vec<char>> = path_components(folder);
    assert(views(cs@).len() == cs.len() && views(fs@).len() == fs.len());
    if fs.len() > cs.len() {
        return false;
    }
    let head: Vec<Vec<char>> = crate::writer::copy_lines(&cs, 0, fs.len());
    assert(views(head@) =~= components(path@).take(fs.len() as int));
    crate::tree::same_lists(&head, &fs)
}

/// Finds the folder that an export goes to, and whether it may be made, before anything
/// is made. Of the components of the folder, the first `there` lead to a folder that is
/// there; its path and that of the vault are given without links in them.
pub fn folder_to_make(
    vault_root: &str,
    requested: &str,
    canonical_vault: &str,
    there: usize,
    canonical_there: &str,
) -> (r: Result<String, VaultdbError>)
    requires
        export_folder(vault_root@, requested@) matches Ok(folder) ==> there <= components(
            folder,
        ).len(),
    ensures
        crate::vault::path_view(r) == made_folder(
            vault_root@,
            requested@,
            canonical_vault@,
            there as nat,
            canonical_there@,
        ),
{
    let folder: String = match export_parent(vault_root, requested) {
        Err(e) => {
            return Err(e);
        },
        Ok(f) => f,
    };
    let cs: Vec<Vec<char>> = path_components(folder.as_str());
    let ghost names = components(folder@).skip(there as int);
    assert(views(cs@).len() == cs.len());
    let mut path: String = canonical_there.to_owned();
    let mut i: usize = there;
    assert(names.take(0) =~= seq![]);
    while i < cs.len()
        invariant
            views(cs@) == components(folder@),
            views(cs@).len() == cs.len(),
            names == components(folder@).skip(there as int),
            there <= i <= cs.len(),
            path@ == deepened(canonical_there@, names.take(i - there)),
        decreases cs.len() - i,
    {
        assert(names.take(i + 1 - there).drop_last() =~= names.take(i - there));
        assert(names[i - there] == views(cs@)[i as int]);
        path = join_path(path.as_str(), from_chars(&cs[i]).as_str());
        i += 1;
    }
    assert(names.take(cs.len() - there) =~= names);
    if lies_under(canonical_there, canonical_vault) {
        return Ok(path);
    }
    Err(
        refuse(
            cat4("export path escapes vault root: ", requested, " resolved to ", path.as_str()),
        ),
    )
}

/// Writes the path of an export at a later try.
fn suffix_path(folder: &str, name: &str, n: u64) -> (r: String)
    ensures
        r@ == suffixed(folder@, name@, n as nat),
{
    let mut t: String = cat4(stem_of(name).as_str(), " (", number_text(n).as_str(), ")");
    match extension_of(name) {
        Some(e) => {
            t.append(".");
            t.append(e.as_str());
            assert(t@ =~= stem(name@) + " ("@ + decimal(n as nat) + ")"@ + ("."@ + e@));
        },
        None => {
            assert(t@ =~= stem(name@) + " ("@ + decimal(n as nat) + ")"@ + seq![]);
        },
    }
    join_path(folder, t.as_str())
}

/// Finds where an export is written. The folder it goes to must be there; its path and
/// that of the vault are given without links in them, and `taken` is what is there.
pub fn resolve_export_path(
    vault_root: &str,
    requested: &str,
    canonical_vault: &str,
    canonical_parent: &str,
    taken: &Vec<String>,
) -> (r: Result<String, VaultdbError>)
    ensures
        crate::vault::path_view(r) == export_path(
            vault_root@,
            requested@,
            canonical_vault@,
            canonical_parent@,
            string_views(taken@),
        ),
{
    match export_parent(vault_root, requested) {
        Err(e) => {
            return Err(e);
        },
        Ok(_) => {},
    }
    let candidate: String = join_path(vault_root, requested);
    let name: String = match file_name_of(candidate.as_str()) {
        Some(n) => n,
        None => String::new(),
    };
    if !lies_under(canonical_parent, canonical_vault) {
        return Err(
            refuse(
                cat4(
                    "export path escapes vault root: ",
                    requested,
                    " resolved to ",
                    canonical_parent,
                ),
            ),
        );
    }
    let target: String = join_path(canonical_parent, name.as_str());
    if !is_among(taken, target.as_str()) {
        return Ok(target);
    }
    let ghost tv = string_views(taken@);
    let mut n: u64 = 1;
    while n <= 10_000
        invariant
            tv == string_views(taken@),
            1 <= n <= 10_001,
            export_folder(vault_root@, requested@) is Ok,
            name@ == file_name(below(vault_root@, requested@))->0,
            is_under(canonical_parent@, canonical_vault@),
            target@ == below(canonical_parent@, name@),
            has_path(tv, target@),
            free_export(tv, canonical_parent@, name@, 1) == free_export(
                tv,
                canonical_parent@,
                name@,
                n as nat,
            ),
        decreases 10_001 - n,
    {
        let p: String = suffix_path(canonical_parent, name.as_str(), n);
        if !is_among(taken, p.as_str()) {
            return Ok(p);
        }
        n += 1;
    }
    Err(
        refuse(
            cat2(
                "export path collision could not be resolved after 10000 attempts: ",
                target.as_str(),
            ),
        ),
    )
}

/// An export is never written where something is, and always below the folder that was
/// asked for, inside the vault.
pub proof fn law_export_is_safe(
    root: Seq<char>,
    requested: Seq<char>,
    true_root: Seq<char>,
    true_folder: Seq<char>,
    taken: Seq<Seq<char>>,
)
    requires
        export_path(root, requested, true_root, true_folder, taken) is Ok,
    ensures
        !has_path(taken, export_path(root, requested, true_root, true_folder, taken)->Ok_0),
        is_under(true_folder, true_root),
        path_refusal(requested) is None,
{
    let name = file_name(below(root, requested))->0;
    lemma_free_export(taken, true_folder, name, 1);
}

/// What `free_export` finds is free.
proof fn lemma_free_export(taken: Seq<Seq<char>>, folder: Seq<char>, name: Seq<char>, n: nat)
    ensures
        match free_export(taken, folder, name, n) {
            Some(p) => !has_path(taken, p),
            None => true,
        },
    decreases 10_001 - n,
{
    if n <= 10_000 && has_path(taken, suffixed(folder, name, n)) {
        lemma_free_export(taken, folder, name, n + 1);
    }
}

/// What names lead to below a folder of the vault lies in the vault.
proof fn lemma_deepened(folder: Seq<char>, names: Seq<Seq<char>>, root: Seq<char>)
    requires
        is_under(folder, root),
        forall|i: int| 0 <= i < names.len() ==> !is_absolute(#[trigger] names[i]),
    ensures
        is_under(deepened(folder, names), root),
    decreases names.len(),
{
    if names.len() > 0 {
        let init = names.drop_last();
        assert forall|i: int| 0 <= i < init.len() implies !is_absolute(#[trigger] init[i]) by {
            assert(init[i] == names[i]);
        }
        lemma_deepened(folder, init, root);
        let d = deepened(folder, init);
        let n = components(root).len() as int;
        lemma_components_below(d, names.last());
        assert(components(below(d, names.last())).take(n) =~= components(d).take(n));
    }
}

/// Nothing is made outside the vault for an export: each folder on the way to one that
/// may be made lies in the vault, and an export whose folder leads outside is refused
/// before anything is made.
pub proof fn law_export_makes_nothing_outside(
    root: Seq<char>,
    requested: Seq<char>,
    true_root: Seq<char>,
    there: nat,
    true_there: Seq<char>,
)
    requires
        export_folder(root, requested) is Ok,
        there <= components(export_folder(root, requested)->Ok_0).len(),
    ensures
        ({
            let names = components(export_folder(root, requested)->Ok_0).skip(there as int);
            match made_folder(root, requested, true_root, there, true_there) {
                Ok(path) => path == deepened(true_there, names) && forall|k: int|
                    0 <= k <= names.len() ==> is_under(
                        #[trigger] deepened(true_there, names.take(k)),
                        true_root,
                    ),
                Err(_) => !is_under(true_there, true_root),
            }
        }),
{
    let folder = export_folder(root, requested)->Ok_0;
    let names = components(folder).skip(there as int);
    if is_under(true_there, true_root) {
        let parts = split_by(folder, '/');
        lemma_parts_lack(folder, '/');
        lemma_named(parts);
        assert forall|k: int| 0 <= k <= names.len() implies is_under(
            #[trigger] deepened(true_there, names.take(k)),
            true_root,
        ) by {
            let some = names.take(k);
            assert forall|i: int| 0 <= i < some.len() implies !is_absolute(#[trigger] some[i]) by {
                let c = components(folder)[i + there];
                assert(some[i] == c);
                assert(parts.contains(c));
                if is_absolute(c) {
                    assert(c.contains('/'));
                }
            }
            lemma_deepened(true_there, some, true_root);
        }
    }
}

// ── What is written ────────────────────────────────────────────────────────

/// What is written to an export: a text, bytes, or the rows of a sheet, whose cells
/// keep their kind.
#[derive(Debug, PartialEq, Eq)]
pub enum Rendered {
    Text(String),
    Bytes(Vec<u8>),
    Sheet(Vec<Vec<Value>>),
}

/// An export with its texts as sequences of characters.
pub enum Export {
    Text(Seq<char>),
    Bytes(Seq<u8>),
    Sheet(Seq<Seq<Val>>),
}

/// What the rows of a sheet are.
pub open spec fn sheet_view(rows: Seq<Vec<Value>>) -> Seq<Seq<Val>> {
    Seq::new(rows.len(), |i: int| vals(rows[i]@))
}

impl View for Rendered {
    type V = Export;

    open spec fn view(&self) -> Export {
        match *self {
            Rendered::Text(t) => Export::Text(t@),
            Rendered::Bytes(b) => Export::Bytes(b@),
            Rendered::Sheet(rows) => Export::Sheet(sheet_view(rows@)),
        }
    }
}

/// What an export, or the failure, is.
pub open spec fn export_view(r: Result<Rendered, VaultdbError>) -> Result<Export, Failure> {
    match r {
        Ok(x) => Ok(x@),
        Err(e) => Err(e@),
    }
}

/// The columns of an export where none are asked for: the name of the note, then the
/// fields that occur.
pub open spec fn inferred_columns(rs: Seq<Rec>) -> Seq<Seq<char>> {
    seq!["_name"@] + field_names(rs).filter(|f: Seq<char>| f != "_name"@)
}

/// The columns of an export.
pub open spec fn columns(rs: Seq<Rec>, select: Option<Seq<Seq<char>>>) -> Seq<Seq<char>> {
    match select {
        Some(s) if s.len() > 0 => s,
        _ => inferred_columns(rs),
    }
}

/// The value in a column, null where the note has none.
pub open spec fn column_value(
    r: Rec,
    column: Seq<char>,
    root: Seq<char>,
    g: Option<Graph>,
) -> Val {
    match looked_up(r, column, root, g) {
        Some(v) => v,
        None => Val::Null,
    }
}

/// The values of a note in columns, as a mapping.
pub open spec fn column_mapping(
    r: Rec,
    fields: Seq<Seq<char>>,
    root: Seq<char>,
    g: Option<Graph>,
) -> Seq<(Seq<char>, Val)>
    decreases fields.len(),
{
    if fields.len() == 0 {
        seq![]
    } else {
        with_entry(
            column_mapping(r, fields.drop_last(), root, g),
            fields.last(),
            column_value(r, fields.last(), root, g),
        )
    }
}

/// The values of notes in columns, as a list of mappings.
pub open spec fn column_mappings(
    rs: Seq<Rec>,
    fields: Seq<Seq<char>>,
    root: Seq<char>,
    g: Option<Graph>,
) -> Val {
    Val::List(Seq::new(rs.len(), |i: int| Val::Mapping(column_mapping(rs[i], fields, root, g))))
}

/// The lines that show a note in YAML.
pub open spec fn yaml_lines(
    r: Rec,
    fields: Seq<Seq<char>>,
    root: Seq<char>,
    g: Option<Graph>,
) -> Seq<char>
    decreases fields.len(),
{
    if fields.len() == 0 {
        "---\n"@
    } else {
        yaml_lines(r, fields.drop_last(), root, g) + fields.last() + ": "@ + shown(
            column_value(r, fields.last(), root, g),
        ) + "\n"@
    }
}

/// The lines that show notes in YAML.
pub open spec fn yaml_text(
    rs: Seq<Rec>,
    fields: Seq<Seq<char>>,
    root: Seq<char>,
    g: Option<Graph>,
) -> Seq<char>
    decreases rs.len(),
{
    if rs.len() == 0 {
        seq![]
    } else {
        yaml_text(rs.drop_last(), fields, root, g) + yaml_lines(rs.last(), fields, root, g)
    }
}

/// The texts of a note in columns.
pub open spec fn text_row(
    r: Rec,
    fields: Seq<Seq<char>>,
    root: Seq<char>,
    g: Option<Graph>,
) -> Seq<Seq<char>> {
    Seq::new(fields.len(), |i: int| shown(column_value(r, fields[i], root, g)))
}

/// What a value is in a cell of a sheet: lists and mappings are shown as texts.
pub open spec fn cell_value(v: Val) -> Val {
    match v {
        Val::Null => Val::Text(seq![]),
        Val::List(_) | Val::Mapping(_) => Val::Text(shown(v)),
        other => other,
    }
}

/// The cells of a note in columns.
pub open spec fn cell_row(
    r: Rec,
    fields: Seq<Seq<char>>,
    root: Seq<char>,
    g: Option<Graph>,
) -> Seq<Val> {
    Seq::new(fields.len(), |i: int| cell_value(column_value(r, fields[i], root, g)))
}

/// The cells of a header.
pub open spec fn header_cells(fields: Seq<Seq<char>>) -> Seq<Val> {
    Seq::new(fields.len(), |i: int| Val::Text(fields[i]))
}

/// The line that `csv::Writer::write_record` writes first for a record with a
/// delimiter, or the message of its error.
pub uninterp spec fn csv_line(record: Seq<Seq<char>>, delimiter: u8) -> Result<
    Seq<u8>,
    Seq<char>,
>;

/// What a line, or the message, is.
pub open spec fn line_view(r: Result<Vec<u8>, String>) -> Result<Seq<u8>, Seq<char>> {
    match r {
        Ok(b) => Ok(b@),
        Err(m) => Err(m@),
    }
}

/// Calls `csv::Writer::write_record` on a new writer with the delimiter, and takes
/// what it has written. Claims that this depends on the record and the delimiter
/// alone.
#[verifier::external_body]
fn write_csv_line(record: &Vec<String>, delimiter: u8) -> (r: Result<Vec<u8>, String>)
    ensures
        line_view(r) == csv_line(string_views(record@), delimiter),
{
    let mut w = csv::WriterBuilder::new().delimiter(delimiter).from_writer(Vec::new());
    w.write_record(record).map_err(|e| e.to_string())?;
    w.into_inner().map_err(|e| e.to_string())
}

/// An inner failure.
pub open spec fn internal(what: Seq<char>, why: Seq<char>) -> Failure {
    Failure::Internal(what + why)
}

/// Lines of CSV, or why one cannot be written.
pub open spec fn csv_lines(rows: Seq<Seq<Seq<char>>>, delimiter: u8) -> Result<Seq<u8>, Failure>
    decreases rows.len(),
{
    if rows.len() == 0 {
        Ok(seq![])
    } else {
        match csv_lines(rows.drop_last(), delimiter) {
            Ok(before) => match csv_line(rows.last(), delimiter) {
                Ok(line) => Ok(before + line),
                Err(m) => Err(internal("csv row: "@, m)),
            },
            Err(e) => Err(e),
        }
    }
}

/// A table in CSV, or why it cannot be written.
pub open spec fn csv_table(
    header: Seq<Seq<char>>,
    rows: Seq<Seq<Seq<char>>>,
    delimiter: u8,
) -> Result<Seq<u8>, Failure> {
    match csv_line(header, delimiter) {
        Ok(line) => match csv_lines(rows, delimiter) {
            Ok(rest) => Ok(line + rest),
            Err(e) => Err(e),
        },
        Err(m) => Err(internal("csv header: "@, m)),
    }
}

/// The texts of notes in columns.
pub open spec fn text_rows(
    rs: Seq<Rec>,
    fields: Seq<Seq<char>>,
    root: Seq<char>,
    g: Option<Graph>,
) -> Seq<Seq<Seq<char>>> {
    Seq::new(rs.len(), |i: int| text_row(rs[i], fields, root, g))
}

/// The rows of a sheet of notes.
pub open spec fn sheet_rows(
    rs: Seq<Rec>,
    fields: Seq<Seq<char>>,
    root: Seq<char>,
    g: Option<Graph>,
) -> Seq<Seq<Val>> {
    seq![header_cells(fields)] + Seq::new(rs.len(), |i: int| cell_row(rs[i], fields, root, g))
}

/// What an export of notes holds, or why it cannot be made.
pub open spec fn records_export(
    rs: Seq<Rec>,
    fields: Seq<Seq<char>>,
    root: Seq<char>,
    g: Option<Graph>,
    format: Format,
) -> Result<Export, Failure> {
    match format {
        Format::Json => match json_pretty(held(json_of(column_mappings(rs, fields, root, g)))) {
            Ok(t) => Ok(Export::Text(t)),
            Err(m) => Err(internal("json serialize: "@, m)),
        },
        Format::Yaml => Ok(Export::Text(yaml_text(rs, fields, root, g))),
        Format::Csv { delimiter } => match csv_table(
            fields,
            text_rows(rs, fields, root, g),
            delimiter,
        ) {
            Ok(b) => Ok(Export::Bytes(b)),
            Err(e) => Err(e),
        },
        Format::Xlsx => Ok(Export::Sheet(sheet_rows(rs, fields, root, g))),
    }
}

/// What a text is in a cell of a sheet: a number or a boolean where it reads as one.
pub open spec fn typed(text: Seq<char>) -> Val {
    match integer_of(text) {
        Some(n) => Val::Int(n as i64),
        None => match float_reading(text) {
            Some(f) => Val::Float(f),
            None => if text == "true"@ {
                Val::Bool(true)
            } else if text == "false"@ {
                Val::Bool(false)
            } else {
                Val::Text(text)
            },
        },
    }
}

/// The rows of a sheet that shows a table.
pub open spec fn table_sheet(header: Seq<Seq<char>>, rows: Seq<Seq<Seq<char>>>) -> Seq<Seq<Val>> {
    seq![header_cells(header)] + Seq::new(
        rows.len(),
        |i: int| Seq::new(rows[i].len(), |j: int| typed(rows[i][j])),
    )
}

/// What an export of a document holds, or why it cannot be made.
pub open spec fn value_export(v: Js, format: Format) -> Result<Export, Failure> {
    match format {
        Format::Json => match json_pretty(held(v)) {
            Ok(t) => Ok(Export::Text(t)),
            Err(m) => Err(internal("json serialize: "@, m)),
        },
        Format::Yaml => match json_as_yaml(held(v)) {
            Ok(t) => Ok(Export::Text(t)),
            Err(m) => Err(internal("yaml serialize: "@, m)),
        },
        Format::Csv { delimiter } => match table_of(v) {
            None => Err(refused("cannot render this shape as CSV; use json or yaml"@)),
            Some((header, rows)) => match if header.len() == 0 {
                csv_lines(rows, delimiter)
            } else {
                csv_table(header, rows, delimiter)
            } {
                Ok(b) => Ok(Export::Bytes(b)),
                Err(e) => Err(e),
            },
        },
        Format::Xlsx => match table_of(v) {
            None => Err(refused("cannot render this shape as XLSX; use json or yaml"@)),
            Some((header, rows)) => Ok(Export::Sheet(table_sheet(header, rows))),
        },
    }
}

/// Finds the columns of an export where none are asked for.
pub fn infer_fields(records: &Vec<Record>) -> (r: Vec<String>)
    ensures
        string_views(r@) == inferred_columns(recs(records@)),
{
    let names: Vec<String> = crate::schema::collect_names(records);
    let ghost ns = string_views(names@);
    let ghost other = |f: Seq<char>| f != "_name"@;
    let mut out: Vec<String> = Vec::new();
    out.push("_name".to_owned());
    let mut i: usize = 0;
    assert(ns.take(0) =~= seq![]);
    reveal(Seq::filter);
    assert(string_views(out@) =~= seq!["_name"@] + ns.take(0).filter(other));
    while i < names.len()
        invariant
            ns == string_views(names@),
            other == (|f: Seq<char>| f != "_name"@),
            i <= names.len(),
            string_views(out@) == seq!["_name"@] + ns.take(i as int).filter(other),
        decreases names.len() - i,
    {
        reveal(Seq::filter);
        let ghost before = string_views(out@);
        assert(ns.take(i + 1).drop_last() =~= ns.take(i as int));
        assert(ns.take(i + 1).last() == names@[i as int]@);
        if !same_text(names[i].as_str(), "_name") {
            out.push(names[i].clone());
            assert(string_views(out@) =~= before.push(names@[i as int]@));
        }
        i += 1;
        assert(string_views(out@) =~= seq!["_name"@] + ns.take(i as int).filter(other));
    }
    assert(ns.take(i as int) =~= ns);
    out
}

/// Looks up the value in a column.
fn look_up(r: &Record, column: &str, root: &str, g: Option<&LinkGraph>) -> (v: Value)
    ensures
        val(v) == column_value(r@, column@, root@, graph_view(g)),
{
    match r.get_with_links(column, root, g) {
        Some(v) => v,
        None => Value::Null,
    }
}

/// Makes the mappings of notes in columns.
fn mappings(records: &Vec<Record>, fields: &Vec<String>, root: &str, g: Option<&LinkGraph>) -> (v:
    Value)
    ensures
        val(v) == column_mappings(recs(records@), string_views(fields@), root@, graph_view(g)),
{
    let ghost rs = recs(records@);
    let ghost fs = string_views(fields@);
    let ghost gv = graph_view(g);
    let ghost want = Seq::new(
        rs.len(),
        |i: int| Val::Mapping(column_mapping(rs[i], fs, root@, gv)),
    );
    let mut items: Vec<Value> = Vec::new();
    let mut i: usize = 0;
    assert(vals(items@) =~= want.take(0));
    while i < records.len()
        invariant
            rs == recs(records@),
            fs == string_views(fields@),
            gv == graph_view(g),
            want == Seq::new(
                rs.len(),
                |i: int| Val::Mapping(column_mapping(rs[i], fs, root@, gv)),
            ),
            i <= records.len(),
            vals(items@) == want.take(i as int),
        decreases records.len() - i,
    {
        let mut m: Vec<(String, Value)> = Vec::new();
        let mut j: usize = 0;
        assert(fs.take(0) =~= seq![]);
        assert(entries(m@) =~= seq![]);
        while j < fields.len()
            invariant
                rs == recs(records@),
                fs == string_views(fields@),
                gv == graph_view(g),
                i < records.len(),
                j <= fields.len(),
                entries(m@) == column_mapping(rs[i as int], fs.take(j as int), root@, gv),
            decreases fields.len() - j,
        {
            assert(fs.take(j + 1).drop_last() =~= fs.take(j as int));
            let v: Value = look_up(&records[i], fields[j].as_str(), root, g);
            set_entry(&mut m, fields[j].as_str(), v);
            j += 1;
        }
        assert(fs.take(j as int) =~= fs);
        let ghost before = vals(items@);
        proof {
            lemma_val_mapping(m);
        }
        let item: Value = Value::Mapping(m);
        items.push(item);
        assert(vals(items@) =~= before.push(val(item)));
        i += 1;
        assert(vals(items@) =~= want.take(i as int));
    }
    assert(want.take(i as int) =~= want);
    proof {
        lemma_val_list(items);
    }
    Value::List(items)
}

/// Writes notes in YAML.
fn yaml_records(records: &Vec<Record>, fields: &Vec<String>, root: &str, g: Option<&LinkGraph>) -> (r:
    String)
    ensures
        r@ == yaml_text(recs(records@), string_views(fields@), root@, graph_view(g)),
{
    let ghost rs = recs(records@);
    let ghost fs = string_views(fields@);
    let ghost gv = graph_view(g);
    let mut out: String = String::new();
    let mut i: usize = 0;
    assert(rs.take(0) =~= seq![]);
    assert(out@ =~= seq![]);
    while i < records.len()
        invariant
            rs == recs(records@),
            fs == string_views(fields@),
            gv == graph_view(g),
            i <= records.len(),
            out@ == yaml_text(rs.take(i as int), fs, root@, gv),
        decreases records.len() - i,
    {
        let ghost start = out@;
        out.append("---\n");
        let mut j: usize = 0;
        assert(fs.take(0) =~= seq![]);
        while j < fields.len()
            invariant
                rs == recs(records@),
                fs == string_views(fields@),
                gv == graph_view(g),
                i < records.len(),
                j <= fields.len(),
                out@ == start + yaml_lines(rs[i as int], fs.take(j as int), root@, gv),
            decreases fields.len() - j,
        {
            assert(fs.take(j + 1).drop_last() =~= fs.take(j as int));
            let v: Value = look_up(&records[i], fields[j].as_str(), root, g);
            let ghost before = out@;
            out.append(fields[j].as_str());
            out.append(": ");
            out.append(v.display_value().as_str());
            out.append("\n");
            j += 1;
            assert(out@ =~= start + yaml_lines(rs[i as int], fs.take(j as int), root@, gv));
        }
        assert(fs.take(j as int) =~= fs);
        assert(rs.take(i + 1).drop_last() =~= rs.take(i as int));
        i += 1;
    }
    assert(rs.take(i as int) =~= rs);
    out
}

/// Makes the texts of a note in columns.
fn texts_of(r: &Record, fields: &Vec<String>, root: &str, g: Option<&LinkGraph>) -> (row: Vec<String>)
    ensures
        string_views(row@) == text_row(r@, string_views(fields@), root@, graph_view(g)),
{
    let ghost want = text_row(r@, string_views(fields@), root@, graph_view(g));
    let mut row: Vec<String> = Vec::new();
    let mut j: usize = 0;
    assert(string_views(row@) =~= want.take(0));
    while j < fields.len()
        invariant
            want == text_row(r@, string_views(fields@), root@, graph_view(g)),
            j <= fields.len(),
            string_views(row@) == want.take(j as int),
        decreases fields.len() - j,
    {
        let v: Value = look_up(r, fields[j].as_str(), root, g);
        let t: String = v.display_value();
        let ghost before = string_views(row@);
        row.push(t);
        assert(string_views(row@) =~= before.push(t@));
        j += 1;
        assert(string_views(row@) =~= want.take(j as int));
    }
    assert(want.take(j as int) =~= want);
    row
}

/// Makes a cell of a value.
fn to_cell(v: Value) -> (r: Value)
    ensures
        val(r) == cell_value(val(v)),
{
    match &v {
        Value::Null => {
            let t: String = String::new();
            assert(t@ =~= seq![]);
            return Value::String(t);
        },
        Value::List(items) => {
            proof {
                lemma_val_list(*items);
            }
            return Value::String(v.display_value());
        },
        Value::Mapping(m) => {
            proof {
                lemma_val_mapping(*m);
            }
            return Value::String(v.display_value());
        },
        _ => {},
    }
    v
}

/// Makes the cells of a note in columns.
fn cells_of(r: &Record, fields: &Vec<String>, root: &str, g: Option<&LinkGraph>) -> (row: Vec<Value>)
    ensures
        vals(row@) == cell_row(r@, string_views(fields@), root@, graph_view(g)),
{
    let ghost want = cell_row(r@, string_views(fields@), root@, graph_view(g));
    let mut row: Vec<Value> = Vec::new();
    let mut j: usize = 0;
    assert(vals(row@) =~= want.take(0));
    while j < fields.len()
        invariant
            want == cell_row(r@, string_views(fields@), root@, graph_view(g)),
            j <= fields.len(),
            vals(row@) == want.take(j as int),
        decreases fields.len() - j,
    {
        let c: Value = to_cell(look_up(r, fields[j].as_str(), root, g));
        let ghost before = vals(row@);
        row.push(c);
        assert(vals(row@) =~= before.push(val(c)));
        j += 1;
        assert(vals(row@) =~= want.take(j as int));
    }
    assert(want.take(j as int) =~= want);
    row
}

/// Makes the cells of a header.
fn header_row(fields: &Vec<String>) -> (row: Vec<Value>)
    ensures
        vals(row@) == header_cells(string_views(fields@)),
{
    let ghost want = header_cells(string_views(fields@));
    let mut row: Vec<Value> = Vec::new();
    let mut j: usize = 0;
    assert(vals(row@) =~= want.take(0));
    while j < fields.len()
        invariant
            want == header_cells(string_views(fields@)),
            j <= fields.len(),
            vals(row@) == want.take(j as int),
        decreases fields.len() - j,
    {
        let c: Value = Value::String(fields[j].clone());
        let ghost before = vals(row@);
        row.push(c);
        assert(vals(row@) =~= before.push(val(c)));
        j += 1;
        assert(vals(row@) =~= want.take(j as int));
    }
    assert(want.take(j as int) =~= want);
    row
}

/// Appends bytes.
fn push_bytes(out: &mut Vec<u8>, more: &Vec<u8>)
    ensures
        final(out)@ == old(out)@ + more@,
{
    let ghost start = out@;
    let mut i: usize = 0;
    assert(out@ =~= start + more@.take(0));
    while i < more.len()
        invariant
            i <= more.len(),
            out@ == start + more@.take(i as int),
        decreases more.len() - i,
    {
        out.push(more[i]);
        i += 1;
        assert(out@ =~= start + more@.take(i as int));
    }
    assert(more@.take(i as int) =~= more@);
}

/// What bytes, or the failure, are.
pub open spec fn bytes_view(r: Result<Vec<u8>, VaultdbError>) -> Result<Seq<u8>, Failure> {
    match r {
        Ok(b) => Ok(b@),
        Err(e) => Err(e@),
    }
}

/// Where lines cannot be written, no more of them can be either.
proof fn lemma_csv_lines(rows: Seq<Seq<Seq<char>>>, n: int, delimiter: u8)
    requires
        0 <= n <= rows.len(),
        csv_lines(rows.take(n), delimiter) is Err,
    ensures
        csv_lines(rows, delimiter) == csv_lines(rows.take(n), delimiter),
    decreases rows.len() - n,
{
    if n < rows.len() {
        assert(rows.take(n + 1).drop_last() =~= rows.take(n));
        lemma_csv_lines(rows, n + 1, delimiter);
    } else {
        assert(rows.take(n) =~= rows);
    }
}

/// Writes lines of CSV.
fn write_csv_lines(rows: &Vec<Vec<String>>, delimiter: u8) -> (r: Result<Vec<u8>, VaultdbError>)
    ensures
        bytes_view(r) == csv_lines(row_views(rows@), delimiter),
{
    let ghost rv = row_views(rows@);
    let mut out: Vec<u8> = Vec::new();
    let mut i: usize = 0;
    assert(rv.take(0) =~= seq![]);
    assert(out@ =~= seq![]);
    while i < rows.len()
        invariant
            rv == row_views(rows@),
            i <= rows.len(),
            csv_lines(rv.take(i as int), delimiter) == Ok::<Seq<u8>, Failure>(out@),
        decreases rows.len() - i,
    {
        assert(rv.take(i + 1).drop_last() =~= rv.take(i as int));
        match write_csv_line(&rows[i], delimiter) {
            Ok(line) => {
                push_bytes(&mut out, &line);
            },
            Err(m) => {
                proof {
                    lemma_csv_lines(rv, i + 1, delimiter);
                }
                return Err(VaultdbError::Internal(cat2("csv row: ", m.as_str())));
            },
        }
        i += 1;
    }
    assert(rv.take(i as int) =~= rv);
    Ok(out)
}

/// Writes a table in CSV.
fn write_csv_table(header: &Vec<String>, rows: &Vec<Vec<String>>, delimiter: u8) -> (r: Result<
    Vec<u8>,
    VaultdbError,
>)
    ensures
        bytes_view(r) == csv_table(string_views(header@), row_views(rows@), delimiter),
{
    let mut out: Vec<u8> = match write_csv_line(header, delimiter) {
        Ok(line) => line,
        Err(m) => {
            return Err(VaultdbError::Internal(cat2("csv header: ", m.as_str())));
        },
    };
    match write_csv_lines(rows, delimiter) {
        Ok(rest) => {
            push_bytes(&mut out, &rest);
            Ok(out)
        },
        Err(e) => Err(e),
    }
}

/// Renders notes in columns. A graph of links is needed for the columns computed from
/// it.
pub fn render_records(
    records: &Vec<Record>,
    fields: &Vec<String>,
    vault_root: &str,
    link_index: Option<&LinkGraph>,
    format: Format,
) -> (r: Result<Rendered, VaultdbError>)
    ensures
        export_view(r) == records_export(
            recs(records@),
            string_views(fields@),
            vault_root@,
            graph_view(link_index),
            format,
        ),
{
    let ghost rs = recs(records@);
    let ghost fs = string_views(fields@);
    let ghost gv = graph_view(link_index);
    match format {
        Format::Json => {
            let v: Value = mappings(records, fields, vault_root, link_index);
            let doc: Json = value_to_json(&v);
            match to_pretty(&doc) {
                Ok(t) => Ok(Rendered::Text(t)),
                Err(m) => Err(VaultdbError::Internal(cat2("json serialize: ", m.as_str()))),
            }
        },
        Format::Yaml => Ok(Rendered::Text(yaml_records(records, fields, vault_root, link_index))),
        Format::Csv { delimiter } => {
            let ghost want = text_rows(rs, fs, vault_root@, gv);
            let mut rows: Vec<Vec<String>> = Vec::new();
            let mut i: usize = 0;
            assert(row_views(rows@) =~= want.take(0));
            while i < records.len()
                invariant
                    rs == recs(records@),
                    fs == string_views(fields@),
                    gv == graph_view(link_index),
                    want == text_rows(rs, fs, vault_root@, gv),
                    i <= records.len(),
                    row_views(rows@) == want.take(i as int),
                decreases records.len() - i,
            {
                let row: Vec<String> = texts_of(&records[i], fields, vault_root, link_index);
                let ghost before = row_views(rows@);
                rows.push(row);
                assert(row_views(rows@) =~= before.push(string_views(row@)));
                i += 1;
                assert(row_views(rows@) =~= want.take(i as int));
            }
            assert(want.take(i as int) =~= want);
            match write_csv_table(fields, &rows, delimiter) {
                Ok(b) => Ok(Rendered::Bytes(b)),
                Err(e) => Err(e),
            }
        },
        Format::Xlsx => {
            let ghost want = sheet_rows(rs, fs, vault_root@, gv);
            let mut rows: Vec<Vec<Value>> = Vec::new();
            rows.push(header_row(fields));
            let mut i: usize = 0;
            assert(sheet_view(rows@) =~= want.take(1));
            while i < records.len()
                invariant
                    rs == recs(records@),
                    fs == string_views(fields@),
                    gv == graph_view(link_index),
                    want == sheet_rows(rs, fs, vault_root@, gv),
                    i <= records.len(),
                    sheet_view(rows@) == want.take(i + 1),
                decreases records.len() - i,
            {
                let row: Vec<Value> = cells_of(&records[i], fields, vault_root, link_index);
                let ghost before = sheet_view(rows@);
                rows.push(row);
                assert(sheet_view(rows@) =~= before.push(vals(row@)));
                i += 1;
                assert(sheet_view(rows@) =~= want.take(i + 1));
            }
            assert(want.take(i + 1) =~= want);
            Ok(Rendered::Sheet(rows))
        },
    }
}

/// Renders the notes of an export: in the columns asked for, or else in those that
/// occur.
pub fn export_records(
    records: &Vec<Record>,
    select: &Option<Vec<String>>,
    vault_root: &str,
    link_index: Option<&LinkGraph>,
    format: Format,
) -> (r: Result<Rendered, VaultdbError>)
    ensures
        export_view(r) == records_export(
            recs(records@),
            columns(recs(records@), crate::vault::list_view(*select)),
            vault_root@,
            graph_view(link_index),
            format,
        ),
{
    match select {
        Some(s) => {
            assert(string_views(s@).len() == s.len());
            if s.len() > 0 {
                return render_records(records, s, vault_root, link_index, format);
            }
        },
        None => {},
    }
    render_records(records, &infer_fields(records), vault_root, link_index, format)
}

/// Renders the notes of an export as [`export_records`] does, with their texts: a query
/// leaves those out, and columns such as `_length` need them.
pub fn export_notes(
    records: &Vec<Record>,
    tree: &Tree,
    select: &Option<Vec<String>>,
    vault_root: &str,
    link_index: Option<&LinkGraph>,
    format: Format,
) -> (r: Result<Rendered, VaultdbError>)
    ensures
        export_view(r) == records_export(
            with_all_texts(recs(records@), tree@),
            columns(with_all_texts(recs(records@), tree@), crate::vault::list_view(*select)),
            vault_root@,
            graph_view(link_index),
            format,
        ),
{
    export_records(&with_texts(records, tree), select, vault_root, link_index, format)
}

/// Reads a text as the content of a cell.
fn type_cell(text: &str) -> (v: Value)
    ensures
        val(v) == typed(text@),
{
    match parse_integer(text) {
        Some(n) => Value::Integer(n),
        None => match read_float(text) {
            Some(f) => Value::Float(f),
            None => if same_text(text, "true") {
                Value::Bool(true)
            } else if same_text(text, "false") {
                Value::Bool(false)
            } else {
                Value::String(text.to_owned())
            },
        },
    }
}

/// Makes the rows of a sheet that shows a table.
fn table_rows(header: &Vec<String>, rows: &Vec<Vec<String>>) -> (r: Vec<Vec<Value>>)
    ensures
        sheet_view(r@) == table_sheet(string_views(header@), row_views(rows@)),
{
    let ghost rv = row_views(rows@);
    let ghost want = table_sheet(string_views(header@), rv);
    let mut out: Vec<Vec<Value>> = Vec::new();
    out.push(header_row(header));
    let mut i: usize = 0;
    assert(sheet_view(out@) =~= want.take(1));
    while i < rows.len()
        invariant
            rv == row_views(rows@),
            want == table_sheet(string_views(header@), rv),
            i <= rows.len(),
            sheet_view(out@) == want.take(i + 1),
        decreases rows.len() - i,
    {
        let ghost cells = Seq::new(rv[i as int].len(), |j: int| typed(rv[i as int][j]));
        let mut row: Vec<Value> = Vec::new();
        let mut j: usize = 0;
        assert(vals(row@) =~= cells.take(0));
        while j < rows[i].len()
            invariant
                rv == row_views(rows@),
                i < rows.len(),
                cells == Seq::new(rv[i as int].len(), |j: int| typed(rv[i as int][j])),
                j <= rows@[i as int].len(),
                vals(row@) == cells.take(j as int),
            decreases rows@[i as int].len() - j,
        {
            let c: Value = type_cell(rows[i][j].as_str());
            let ghost before = vals(row@);
            row.push(c);
            assert(vals(row@) =~= before.push(val(c)));
            j += 1;
            assert(vals(row@) =~= cells.take(j as int));
        }
        assert(cells.take(j as int) =~= cells);
        let ghost before = sheet_view(out@);
        out.push(row);
        assert(sheet_view(out@) =~= before.push(cells));
        i += 1;
        assert(sheet_view(out@) =~= want.take(i + 1));
    }
    assert(want.take(i + 1) =~= want);
    out
}

/// Renders a document. Only a table has a form as CSV and as a sheet: an array of
/// objects, an array of scalars, or an object.
pub fn render_value(value: &Json, format: Format) -> (r: Result<Rendered, VaultdbError>)
    ensures
        export_view(r) == value_export(js(*value), format),
{
    match format {
        Format::Json => match to_pretty(value) {
            Ok(t) => Ok(Rendered::Text(t)),
            Err(m) => Err(VaultdbError::Internal(cat2("json serialize: ", m.as_str()))),
        },
        Format::Yaml => match to_yaml(value) {
            Ok(t) => Ok(Rendered::Text(t)),
            Err(m) => Err(VaultdbError::Internal(cat2("yaml serialize: ", m.as_str()))),
        },
        Format::Csv { delimiter } => match json_to_table(value) {
            None => Err(
                refuse("cannot render this shape as CSV; use json or yaml".to_owned()),
            ),
            Some((header, rows)) => {
                assert(string_views(header@).len() == header.len());
                let lines: Result<Vec<u8>, VaultdbError> = if header.len() == 0 {
                    write_csv_lines(&rows, delimiter)
                } else {
                    write_csv_table(&header, &rows, delimiter)
                };
                match lines {
                    Ok(b) => Ok(Rendered::Bytes(b)),
                    Err(e) => Err(e),
                }
            },
        },
        Format::Xlsx => match json_to_table(value) {
            None => Err(
                refuse("cannot render this shape as XLSX; use json or yaml".to_owned()),
            ),
            Some((header, rows)) => Ok(Rendered::Sheet(table_rows(&header, &rows))),
        },
    }
}

} // verus!
