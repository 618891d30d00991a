//! Creating notes.

use crate::error::{message, Failure, VaultdbError};
use crate::frontmatter::{extracted, parse_frontmatter, parsed_fields, split_note};
use crate::mutation::{
    all_violations, check_schema, changes_view, errors_view, noticed, push_change, push_error,
    push_violations, report_view, schema_errors, schema_view, set_all, with_all, MutationError,
    MutationReport, PlannedChange, Report, Write,
};
use crate::path::{below, join_path};
use crate::record::{
    copy_fields, copy_value, entries, find_key, key_at, lemma_entries_push, lemma_val_mapping,
    set_entry, val, with_entry, Rec, Record, Val, Value,
};
use crate::schema::{
    applying, by_depth, collection_views, ref_views, resolve_default_expr, resolved, rules,
    CollectionRule, CollectionSchema, FieldRule, FieldSchema, VaultSchema,
};
use crate::text::{
    cat2, cat3, cat4, decimal, join_strings, joined, lemma_string_views_push, number_text,
    string_views,
};
use crate::tree::{file_at, is_taken, Picture, Tree};
use crate::vault::Vault;
use crate::writer::{WriteOptions, WriteResult};
use crate::yaml::{render_value, value_yaml};
use vstd::prelude::*;

verus! {

/// A new note of a folder.
///
/// Its fields are those of the template, with those that are set in their place, and
/// with the defaults of the schema for the others. A note that would not meet the
/// schema is not made.
pub struct CreateBuilder {
    pub folder: String,
    pub name: String,
    /// The path of the template below the vault.
    pub template: Option<String>,
    pub set_fields: Vec<(String, Value)>,
    /// The body, in place of that of the template.
    pub body: Option<String>,
    pub vault_schema: Option<VaultSchema>,
    pub write_options: WriteOptions,
}

/// A new note, as sequences.
pub struct Creation {
    pub folder: Seq<char>,
    pub name: Seq<char>,
    pub template: Option<Seq<char>>,
    pub sets: Seq<(Seq<char>, Val)>,
    pub body: Option<Seq<char>>,
    pub schema: Option<Seq<(Seq<char>, CollectionRule)>>,
    pub fsync: bool,
}

impl View for CreateBuilder {
    type V = Creation;

    open spec fn view(&self) -> Creation {
        Creation {
            folder: self.folder@,
            name: self.name@,
            template: crate::schema::text_view(self.template),
            sets: entries(self.set_fields@),
            body: crate::schema::text_view(self.body),
            schema: schema_view(self.vault_schema),
            fsync: self.write_options.fsync,
        }
    }
}

/// The fields and the body of a template. One without frontmatter, or with one that
/// cannot be read, has no fields.
pub open spec fn template_parts(raw: Seq<char>) -> (Seq<(Seq<char>, Val)>, Seq<char>) {
    match extracted(raw) {
        Some((fm, at)) => (
            match parsed_fields(fm) {
                Ok(fields) => fields,
                Err(_) => seq![],
            },
            raw.skip(at),
        ),
        None => (seq![], raw),
    }
}

/// Takes a template apart.
pub fn split_template(raw: &str) -> (r: (Vec<(String, Value)>, String))
    ensures
        (entries(r.0@), r.1@) == template_parts(raw@),
{
    let none: Vec<(String, Value)> = Vec::new();
    assert(entries(none@) =~= seq![]);
    match split_note(raw) {
        Some((fm, _, body)) => match parse_frontmatter(fm.as_str()) {
            Ok(fields) => (fields, body),
            Err(_) => (none, body),
        },
        None => (none, raw.to_owned()),
    }
}

// ── Defaults ───────────────────────────────────────────────────────────────

/// Fields, and the failures to find a default.
pub type Filled = (Seq<(Seq<char>, Val)>, Seq<(Seq<char>, Seq<char>)>);

/// Fields with the default of one more field, unless it is among those given.
pub open spec fn with_default(
    given: Seq<(Seq<char>, Val)>,
    so_far: Filled,
    name: Seq<char>,
    rule: FieldRule,
    path: Seq<char>,
    now: u64,
) -> Filled {
    if key_at(given, name, 0) is Some {
        so_far
    } else {
        match rule.default {
            Some(v) => (with_entry(so_far.0, name, v), so_far.1),
            None => match rule.default_expr {
                None => so_far,
                Some(e) => match resolved(e, now) {
                    Ok(v) => (with_entry(so_far.0, name, v), so_far.1),
                    Err(f) => (
                        so_far.0,
                        so_far.1.push(
                            (path, "resolving default_expr for '"@ + name + "': "@ + message(f)),
                        ),
                    ),
                },
            },
        }
    }
}

/// Fields with the defaults of some fields.
pub open spec fn with_rules(
    given: Seq<(Seq<char>, Val)>,
    so_far: Filled,
    rs: Seq<(Seq<char>, FieldRule)>,
    path: Seq<char>,
    now: u64,
) -> Filled
    decreases rs.len(),
{
    if rs.len() == 0 {
        so_far
    } else {
        with_default(
            given,
            with_rules(given, so_far, rs.drop_last(), path, now),
            rs.last().0,
            rs.last().1,
            path,
            now,
        )
    }
}

/// Fields with the defaults of some collections, each overriding those before it.
pub open spec fn with_defaults(
    given: Seq<(Seq<char>, Val)>,
    cs: Seq<CollectionRule>,
    path: Seq<char>,
    now: u64,
) -> Filled
    decreases cs.len(),
{
    if cs.len() == 0 {
        (given, seq![])
    } else {
        with_rules(
            given,
            with_defaults(given, cs.drop_last(), path, now),
            cs.last().fields,
            path,
            now,
        )
    }
}

/// Adds the default of a field.
fn add_default(
    given: &Vec<(String, Value)>,
    fields: &mut Vec<(String, Value)>,
    errors: &mut Vec<MutationError>,
    name: &str,
    rule: &FieldSchema,
    path: &str,
    now: u64,
)
    ensures
        (entries(final(fields)@), errors_view(final(errors)@)) == with_default(
            entries(given@),
            (entries(old(fields)@), errors_view(old(errors)@)),
            name@,
            rule@,
            path@,
            now,
        ),
{
    if find_key(given, name).is_some() {
        return ;
    }
    match &rule.default {
        Some(v) => {
            set_entry(fields, name, copy_value(v));
        },
        None => match &rule.default_expr {
            None => {},
            Some(e) => match resolve_default_expr(e.as_str(), now) {
                Ok(v) => {
                    set_entry(fields, name, v);
                },
                Err(f) => {
                    push_error(
                        errors,
                        path,
                        cat4(
                            "resolving default_expr for '",
                            name,
                            "': ",
                            f.to_string().as_str(),
                        ),
                    );
                },
            },
        },
    }
}

/// Adds the defaults of some collections.
fn add_defaults(
    given: &Vec<(String, Value)>,
    cols: &Vec<&CollectionSchema>,
    path: &str,
    now: u64,
) -> (r: (Vec<(String, Value)>, Vec<MutationError>))
    ensures
        (entries(r.0@), errors_view(r.1@)) == with_defaults(
            entries(given@),
            ref_views(cols@),
            path@,
            now,
        ),
{
    let ghost gv = entries(given@);
    let ghost cs = ref_views(cols@);
    let mut fields: Vec<(String, Value)> = copy_fields(given);
    let mut errors: Vec<MutationError> = Vec::new();
    let mut i: usize = 0;
    assert(cs.take(0) =~= seq![]);
    assert(errors_view(errors@) =~= seq![]);
    while i < cols.len()
        invariant
            gv == entries(given@),
            cs == ref_views(cols@),
            i <= cols.len(),
            (entries(fields@), errors_view(errors@)) == with_defaults(
                gv,
                cs.take(i as int),
                path@,
                now,
            ),
        decreases cols.len() - i,
    {
        assert(cs.take(i + 1).drop_last() =~= cs.take(i as int));
        let ghost start = (entries(fields@), errors_view(errors@));
        let col: &CollectionSchema = cols[i];
        let ghost rs = rules(col.fields@);
        let mut j: usize = 0;
        assert(rs.take(0) =~= seq![]);
        while j < col.fields.len()
            invariant
                gv == entries(given@),
                rs == rules(col.fields@),
                j <= col.fields.len(),
                (entries(fields@), errors_view(errors@)) == with_rules(
                    gv,
                    start,
                    rs.take(j as int),
                    path@,
                    now,
                ),
            decreases col.fields.len() - j,
        {
            assert(rs.take(j + 1).drop_last() =~= rs.take(j as int));
            add_default(
                given,
                &mut fields,
                &mut errors,
                col.fields[j].0.as_str(),
                &col.fields[j].1,
                path,
                now,
            );
            j += 1;
        }
        assert(rs.take(j as int) =~= rs);
        i += 1;
    }
    assert(cs.take(i as int) =~= cs);
    (fields, errors)
}

// ── The new note ───────────────────────────────────────────────────────────

/// Where the new note lies.
pub open spec fn new_path(c: Creation, root: Seq<char>) -> Seq<char> {
    below(below(root, c.folder), c.name + ".md"@)
}

/// The names of fields, listed.
pub open spec fn name_list(fields: Seq<(Seq<char>, Val)>) -> Seq<char> {
    joined(Seq::new(fields.len(), |i: int| fields[i].0), ", "@)
}

/// How the new note is described.
pub open spec fn new_description(fields: Seq<(Seq<char>, Val)>) -> Seq<char> {
    if fields.len() == 0 {
        "create (no frontmatter fields)"@
    } else {
        "create with "@ + decimal(fields.len()) + " field(s): "@ + name_list(fields)
    }
}

/// The text of the new note, or why it cannot be written.
pub open spec fn new_text(fields: Seq<(Seq<char>, Val)>, body: Seq<char>) -> Result<
    Seq<char>,
    Failure,
> {
    if fields.len() == 0 {
        Ok("---\n---\n"@ + body)
    } else {
        match value_yaml(Val::Mapping(fields)) {
            Ok(y) => Ok(
                if y.len() == 0 {
                    "---\n---\n"@ + body
                } else {
                    "---\n"@ + y + "---\n"@ + body
                },
            ),
            Err(e) => Err(Failure::SchemaError("rendering frontmatter: "@ + e)),
        }
    }
}

/// A report of failures only.
pub open spec fn only_errors(errors: Seq<(Seq<char>, Seq<char>)>) -> (Report, Option<Write>) {
    (Report { changes: seq![], errors }, None)
}

/// What a creation comes to once its fields are known.
pub open spec fn created(
    path: Seq<char>,
    fields: Seq<(Seq<char>, Val)>,
    body: Seq<char>,
) -> Result<(Report, Option<Write>), Failure> {
    match new_text(fields, body) {
        Err(e) => Err(e),
        Ok(text) => Ok(
            (
                Report { changes: seq![(path, new_description(fields))], errors: seq![] },
                Some(Write { path, original: seq![], modified: text, changes: seq![] }),
            ),
        ),
    }
}

/// What a creation comes to once the fields that are given are known.
pub open spec fn create_with(
    c: Creation,
    given: Seq<(Seq<char>, Val)>,
    body: Seq<char>,
    root: Seq<char>,
    now: u64,
) -> Result<(Report, Option<Write>), Failure> {
    let path = new_path(c, root);
    match c.schema {
        None => created(path, given, body),
        Some(all) => match applying(
            all,
            c.folder,
            Rec { path, fields: given, content: None, modified: None, created: None },
            root,
        ) {
            Err(e) => Ok(only_errors(seq![(path, "evaluating schema applicability: "@ + message(e))])),
            Ok(v) => {
                let (fields, failures) = with_defaults(given, by_depth(v), path, now);
                let errors = failures + schema_errors(
                    path,
                    noticed(all_violations(c.name + ".md"@, fields, by_depth(v))),
                );
                if errors.len() > 0 {
                    Ok(only_errors(errors))
                } else {
                    created(path, fields, body)
                }
            },
        },
    }
}

/// The body of the new note: the one that is given, or else another.
pub open spec fn body_or(c: Creation, other: Seq<char>) -> Seq<char> {
    match c.body {
        Some(b) => b,
        None => other,
    }
}

/// What a creation comes to on a vault at a time.
pub open spec fn create_plan(c: Creation, p: Picture, root: Seq<char>, now: u64) -> Result<
    (Report, Option<Write>),
    Failure,
> {
    let path = new_path(c, root);
    if is_taken(p, path) {
        Ok(only_errors(seq![(path, "file already exists: "@ + path)]))
    } else {
        match c.template {
            None => create_with(
                c,
                with_all(seq![], c.sets),
                body_or(c, "\n# "@ + c.name + "\n"@),
                root,
                now,
            ),
            Some(t) => match file_at(p.files, below(root, t), 0) {
                None => Ok(
                    only_errors(
                        seq![(below(root, t), "template not found: "@ + below(root, t))],
                    ),
                ),
                Some(i) => match p.files[i].content {
                    Err(e) => Err(Failure::Io(e)),
                    Ok(raw) => create_with(
                        c,
                        with_all(template_parts(raw).0, c.sets),
                        body_or(c, template_parts(raw).1),
                        root,
                        now,
                    ),
                },
            },
        }
    }
}

/// What a creation, with what is to be written, is.
pub open spec fn creation_view(r: Result<(MutationReport, Option<WriteResult>), VaultdbError>) -> Result<
    (Report, Option<Write>),
    Failure,
> {
    match r {
        Ok((report, Some(w))) => Ok((report@, Some(w@))),
        Ok((report, None)) => Ok((report@, None)),
        Err(e) => Err(e@),
    }
}

/// Makes a report of one failure.
fn one_error(path: &str, message: String) -> (r: MutationReport)
    ensures
        r@ == only_errors(seq![(path@, message@)]).0,
{
    let changes: Vec<PlannedChange> = Vec::new();
    let mut errors: Vec<MutationError> = Vec::new();
    assert(changes_view(changes@) =~= seq![]);
    push_error(&mut errors, path, message);
    assert(errors_view(errors@) =~= seq![(path@, message@)]);
    MutationReport { changes, errors }
}

/// Lists the names of fields.
fn list_names(fields: &Vec<(String, Value)>) -> (r: String)
    ensures
        r@ == name_list(entries(fields@)),
{
    let ghost all = Seq::new(entries(fields@).len(), |i: int| entries(fields@)[i].0);
    let mut out: Vec<String> = Vec::new();
    let mut i: usize = 0;
    assert(string_views(out@) =~= all.take(0));
    while i < fields.len()
        invariant
            all == Seq::new(entries(fields@).len(), |i: int| entries(fields@)[i].0),
            i <= fields.len(),
            string_views(out@) == all.take(i as int),
        decreases fields.len() - i,
    {
        let t: String = fields[i].0.clone();
        proof {
            lemma_string_views_push(out@, t);
            assert(string_views(out@).push(t@) =~= all.take(i + 1));
        }
        out.push(t);
        i += 1;
    }
    assert(all.take(i as int) =~= all);
    join_strings(&out, ", ")
}

/// Writes the new note once its fields are known.
fn finish(path: String, fields: Vec<(String, Value)>, body: &str) -> (r: Result<
    (MutationReport, Option<WriteResult>),
    VaultdbError,
>)
    ensures
        creation_view(r) == created(path@, entries(fields@), body@),
{
    let ghost fs = entries(fields@);
    assert(fs.len() == fields.len());
    let mut description: String = "create (no frontmatter fields)".to_owned();
    let mut text: String = cat2("---\n---\n", body);
    if fields.len() > 0 {
        let names: String = list_names(&fields);
        description =
        cat4(
            "create with ",
            number_text(fields.len() as u64).as_str(),
            " field(s): ",
            names.as_str(),
        );
        let v: Value = Value::Mapping(fields);
        proof {
            lemma_val_mapping(fields);
        }
        match render_value(&v) {
            Ok(y) => {
                if !crate::text::same_text(y.as_str(), "") {
                    text = cat4("---\n", y.as_str(), "---\n", body);
                }
                proof {
                    reveal_strlit("");
                    if y@.len() == 0 {
                        assert(y@ =~= ""@);
                    }
                }
            },
            Err(e) => {
                return Err(
                    VaultdbError::SchemaError(cat2("rendering frontmatter: ", e.as_str())),
                );
            },
        }
    }
    let mut changes: Vec<PlannedChange> = Vec::new();
    assert(changes_view(changes@) =~= seq![]);
    push_change(&mut changes, path.as_str(), description);
    assert(changes_view(changes@) =~= seq![(path@, new_description(fs))]);
    let errors: Vec<MutationError> = Vec::new();
    assert(errors_view(errors@) =~= seq![]);
    let w: WriteResult = WriteResult {
        path,
        original_content: String::new(),
        modified_content: text,
        changes: Vec::new(),
    };
    assert(w@.changes =~= seq![]);
    Ok((MutationReport { changes, errors }, Some(w)))
}

impl CreateBuilder {
    /// A new note without fields.
    pub fn new(folder: &str, name: &str) -> (r: Self)
        ensures
            r@ == (Creation {
                folder: folder@,
                name: name@,
                template: None,
                sets: seq![],
                body: None,
                schema: None,
                fsync: false,
            }),
    {
        let r = CreateBuilder {
            folder: folder.to_owned(),
            name: name.to_owned(),
            template: None,
            set_fields: Vec::new(),
            body: None,
            vault_schema: None,
            write_options: WriteOptions::default(),
        };
        assert(r@.sets =~= seq![]);
        r
    }

    /// Starts from a template, given by its path below the vault.
    pub fn template(self, path: &str) -> (r: Self)
        ensures
            r@ == (Creation { template: Some(path@), ..self@ }),
    {
        let mut r: CreateBuilder = self;
        r.template = Some(path.to_owned());
        r
    }

    /// Gives the body, in place of that of the template.
    pub fn body(self, text: &str) -> (r: Self)
        ensures
            r@ == (Creation { body: Some(text@), ..self@ }),
    {
        let mut r: CreateBuilder = self;
        r.body = Some(text.to_owned());
        r
    }

    /// Sets a field, too.
    pub fn set(self, field: &str, value: Value) -> (r: Self)
        ensures
            r@ == (Creation { sets: self@.sets.push((field@, val(value))), ..self@ }),
    {
        let mut r: CreateBuilder = self;
        let x: (String, Value) = (field.to_owned(), value);
        proof {
            lemma_entries_push(r.set_fields@, x);
        }
        r.set_fields.push(x);
        r
    }

    /// Holds the note to the schema of one collection.
    pub fn with_schema(self, schema: CollectionSchema) -> (r: Self)
        ensures
            r@ == (Creation { schema: Some(seq![("__single__"@, schema@)]), ..self@ }),
    {
        let mut collections: Vec<(String, CollectionSchema)> = Vec::new();
        collections.push(("__single__".to_owned(), schema));
        assert(collection_views(collections@) =~= seq![("__single__"@, schema@)]);
        self.with_vault_schema(VaultSchema { collections })
    }

    /// Holds the note to a schema: the collections that apply to it give it their
    /// defaults, those of deeper folders overriding others, and it must meet them all.
    pub fn with_vault_schema(self, schema: VaultSchema) -> (r: Self)
        ensures
            r@ == (Creation { schema: Some(collection_views(schema.collections@)), ..self@ }),
    {
        let mut r: CreateBuilder = self;
        r.vault_schema = Some(schema);
        r
    }

    /// Says how the note is written.
    pub fn write_options(self, opts: WriteOptions) -> (r: Self)
        ensures
            r@ == (Creation { fsync: opts.fsync, ..self@ }),
    {
        let mut r: CreateBuilder = self;
        r.write_options = opts;
        r
    }

    /// Says whether the note is forced to stable storage.
    pub fn fsync(self, yes: bool) -> (r: Self)
        ensures
            r@ == (Creation { fsync: yes, ..self@ }),
    {
        let mut r: CreateBuilder = self;
        r.write_options.fsync = yes;
        r
    }

    /// The body that is given, or else another.
    fn choose_body(&self, other: String) -> (r: String)
        ensures
            r@ == body_or(self@, other@),
    {
        match &self.body {
            Some(b) => b.clone(),
            None => other,
        }
    }

    /// What the creation comes to once the fields that are given are known.
    fn complete(
        &self,
        given: Vec<(String, Value)>,
        body: &str,
        path: String,
        root: &str,
        now: u64,
    ) -> (r: Result<(MutationReport, Option<WriteResult>), VaultdbError>)
        requires
            path@ == new_path(self@, root@),
        ensures
            creation_view(r) == create_with(self@, entries(given@), body@, root@, now),
    {
        match &self.vault_schema {
            None => finish(path, given, body),
            Some(schema) => {
                let projected: Record = Record {
                    path: path.clone(),
                    fields: copy_fields(&given),
                    raw_content: None,
                    modified: None,
                    created: None,
                };
                match schema.applicable_collections(self.folder.as_str(), &projected, root) {
                    Err(e) => Ok(
                        (
                            one_error(
                                path.as_str(),
                                cat2(
                                    "evaluating schema applicability: ",
                                    e.to_string().as_str(),
                                ),
                            ),
                            None,
                        ),
                    ),
                    Ok(cols) => {
                        let (fields, found) = add_defaults(&given, &cols, path.as_str(), now);
                        let mut errors: Vec<MutationError> = found;
                        let file: String = cat2(self.name.as_str(), ".md");
                        let pairs: Vec<(String, String)> = check_schema(
                            file.as_str(),
                            &fields,
                            &cols,
                        );
                        push_violations(&mut errors, path.as_str(), &pairs);
                        assert(errors_view(errors@).len() == errors.len());
                        if errors.len() > 0 {
                            let changes: Vec<PlannedChange> = Vec::new();
                            assert(changes_view(changes@) =~= seq![]);
                            Ok((MutationReport { changes, errors }, None))
                        } else {
                            finish(path, fields, body)
                        }
                    },
                }
            },
        }
    }

    /// What the creation comes to on a vault at a time, given in seconds since 1970, and
    /// what is to be written.
    pub fn compute(&self, vault: &Vault, tree: &Tree, now: u64) -> (r: Result<
        (MutationReport, Option<WriteResult>),
        VaultdbError,
    >)
        ensures
            creation_view(r) == create_plan(self@, tree@, vault.root@, now),
    {
        let root: &str = vault.root.as_str();
        let dir: String = join_path(root, self.folder.as_str());
        let path: String = join_path(dir.as_str(), cat2(self.name.as_str(), ".md").as_str());
        if tree.has(path.as_str()) {
            return Ok(
                (one_error(path.as_str(), cat2("file already exists: ", path.as_str())), None),
            );
        }
        match &self.template {
            None => {
                let mut fields: Vec<(String, Value)> = Vec::new();
                assert(entries(fields@) =~= seq![]);
                set_all(&mut fields, &self.set_fields);
                let body: String = self.choose_body(cat3("\n# ", self.name.as_str(), "\n"));
                self.complete(fields, body.as_str(), path, root, now)
            },
            Some(t) => {
                let from: String = join_path(root, t.as_str());
                match tree.find_file(from.as_str()) {
                    None => Ok(
                        (
                            one_error(from.as_str(), cat2("template not found: ", from.as_str())),
                            None,
                        ),
                    ),
                    Some(i) => match &tree.files[i].content {
                        Err(e) => Err(VaultdbError::Io(e.clone())),
                        Ok(raw) => {
                            let (base, rest) = split_template(raw.as_str());
                            let body: String = self.choose_body(rest);
                            let mut fields: Vec<(String, Value)> = base;
                            set_all(&mut fields, &self.set_fields);
                            self.complete(fields, body.as_str(), path, root, now)
                        },
                    },
                }
            },
        }
    }

    /// What the creation would come to.
    pub fn plan(&self, vault: &Vault, tree: &Tree, now: u64) -> (r: Result<
        MutationReport,
        VaultdbError,
    >)
        ensures
            report_view(r) == match create_plan(self@, tree@, vault.root@, now) {
                Ok((report, _)) => Ok::<Report, Failure>(report),
                Err(e) => Err(e),
            },
    {
        match self.compute(vault, tree, now) {
            Ok((report, _)) => Ok(report),
            Err(e) => Err(e),
        }
    }

    /// What the creation would come to, with the text of the note.
    pub fn plan_with_content(&self, vault: &Vault, tree: &Tree, now: u64) -> (r: Result<
        (MutationReport, Option<String>),
        VaultdbError,
    >)
        ensures
            match create_plan(self@, tree@, vault.root@, now) {
                Ok((report, w)) => r is Ok && r->Ok_0.0@ == report && match w {
                    Some(w) => r->Ok_0.1 is Some && r->Ok_0.1->0@ == w.modified,
                    None => r->Ok_0.1 is None,
                },
                Err(e) => r is Err && r->Err_0@ == e,
            },
    {
        match self.compute(vault, tree, now) {
            Ok((report, Some(w))) => Ok((report, Some(w.modified_content))),
            Ok((report, None)) => Ok((report, None)),
            Err(e) => Err(e),
        }
    }

    /// What the creation comes to, with the file to be written where nothing failed; it
    /// must not replace a file that came about meanwhile.
    pub fn execute(self, vault: &Vault, tree: &Tree, now: u64) -> (r: Result<
        (MutationReport, Option<WriteResult>),
        VaultdbError,
    >)
        ensures
            creation_view(r) == create_plan(self@, tree@, vault.root@, now),
            r is Ok && r->Ok_0.1 is Some ==> r->Ok_0.0.errors.len() == 0,
    {
        let r: Result<(MutationReport, Option<WriteResult>), VaultdbError> = self.compute(
            vault,
            tree,
            now,
        );
        assert(r is Ok && r->Ok_0.1 is Some ==> errors_view(r->Ok_0.0.errors@).len() == 0);
        r
    }
}

} // verus!
