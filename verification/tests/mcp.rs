//! The tools of the server.

use vaultdb::error::VaultdbError;
use vaultdb::float::Float;
use vaultdb::frontmatter::load_record_with_content;
use vaultdb::json::{json_to_vaultdb_value, to_compact, to_pretty, Json};
use vaultdb::links::Direction;
use vaultdb::mcp::links::{
    hits_json, links, links_json, parse_direction, texts_json, traverse, unresolved, unresolved_json,
};
use vaultdb::mcp::mutations::{
    audit_line, execute_create, execute_delete, execute_move, execute_rename, execute_update, plan_create,
    plan_delete, plan_move, plan_rename, plan_update,
};
use vaultdb::mcp::params::{
    default_both, default_outgoing, default_traverse_depth, ExportOptions, FindByNameParams, LinksParams,
    PlanCreateParams, PlanDeleteParams, PlanMoveParams, PlanRenameParams, PlanUpdateParams, QueryParams,
    SchemaInferParams, SchemaShowParams, TraverseParams, UnresolvedParams,
};
use vaultdb::mcp::query::{find_by_name, list_folders, query};
use vaultdb::mcp::schema::{merge_collection, schema_infer, schema_show};
use vaultdb::mcp::server::{
    export_format, invalid, parse_csv_delimiter, record_json, records_json, respond, ExecutePermissions,
    ExecuteTool, ToolError, VaultdbServer,
};
use vaultdb::mutation::{MutationError, MutationReport, PlannedChange};
use vaultdb::record::{Record, Value};
use vaultdb::render::Format;
use vaultdb::schema::{CollectionSchema, VaultSchema};
use vaultdb::tree::{FileEntry, Tree};
use vaultdb::vault::Vault;

fn fixture_vault() -> (Vault, Tree) {
    let file = |path: &str, content: &str| FileEntry {
        path: path.into(),
        content: Ok(content.into()),
        modified: None,
        created: None,
    };
    let tree = Tree {
        folders: vec![
            "/vault".into(),
            "/vault/.obsidian".into(),
            "/vault/notes".into(),
            "/vault/archive".into(),
        ],
        files: vec![
            file(
                "/vault/notes/alpha.md",
                "---\nstatus: active\n---\nLinks [[beta]] and [[gamma]].\n",
            ),
            file("/vault/notes/beta.md", "---\nstatus: draft\n---\n"),
        ],
    };
    (Vault::with_root("/vault".into()), tree)
}

fn no_export() -> ExportOptions {
    ExportOptions {
        export: None,
        csv_delimiter: None,
    }
}

fn asked(filter: Option<&str>) -> QueryParams {
    QueryParams {
        folder: "notes".into(),
        filter: filter.map(|s| s.into()),
        select: None,
        sort: None,
        desc: false,
        limit: None,
        recursive: false,
        export_opts: no_export(),
    }
}

fn update(filter: &str) -> PlanUpdateParams {
    PlanUpdateParams {
        folder: "notes".into(),
        filter: filter.into(),
        set: vec![],
        set_typed: vec![],
        unset: vec![],
        add_tag: vec![],
        remove_tag: vec![],
        set_body: None,
        append_body: vec![],
        clear_body: false,
        body_separator: None,
        recursive: false,
    }
}

fn create(name: &str) -> PlanCreateParams {
    PlanCreateParams {
        folder: "notes".into(),
        name: name.into(),
        template: None,
        set: vec![("year".into(), Json::Int(2024))],
        body: Some("Text.\n".into()),
    }
}

#[test]
fn json_scalars_map_to_value() {
    assert_eq!(json_to_vaultdb_value(&Json::Null), Value::Null);
    assert_eq!(json_to_vaultdb_value(&Json::Bool(true)), Value::Bool(true));
    assert_eq!(json_to_vaultdb_value(&Json::Int(42)), Value::Integer(42));
    let float = || Float {
        bits: 1.5f64.to_bits(),
        text: "1.5".into(),
    };
    assert_eq!(json_to_vaultdb_value(&Json::Float(float())), Value::Float(float()));
    assert_eq!(
        json_to_vaultdb_value(&Json::Text("hi".into())),
        Value::String("hi".into())
    );
}

#[test]
fn json_list_and_map_recurse() {
    let v = json_to_vaultdb_value(&Json::Array(vec![
        Json::Int(1),
        Json::Text("x".into()),
        Json::Bool(true),
    ]));
    assert_eq!(
        v,
        Value::List(vec![
            Value::Integer(1),
            Value::String("x".into()),
            Value::Bool(true)
        ])
    );

    let v = json_to_vaultdb_value(&Json::Object(vec![
        ("k".into(), Json::Int(5)),
        (
            "nested".into(),
            Json::Object(vec![("x".into(), Json::Text("y".into()))]),
        ),
    ]));
    match v {
        Value::Mapping(m) => {
            assert_eq!(m[0], ("k".to_string(), Value::Integer(5)));
            assert_eq!(m[1].0, "nested");
            match &m[1].1 {
                Value::Mapping(inner) => {
                    assert_eq!(inner[0], ("x".to_string(), Value::String("y".into())))
                }
                other => panic!("expected nested map, got {:?}", other),
            }
        }
        other => panic!("expected map, got {:?}", other),
    }
}

#[test]
fn query_filters_by_status() {
    let (vault, tree) = fixture_vault();
    let records = query(&vault, &tree, &asked(Some("status = active"))).unwrap();
    assert_eq!(records.len(), 1, "only alpha is active");
    assert!(
        records[0].path.ends_with("alpha.md"),
        "expected alpha.md, got {}",
        records[0].path
    );
}

#[test]
fn query_selects_sorts_and_limits() {
    let (vault, tree) = fixture_vault();
    let mut params = asked(None);
    params.select = Some("year, status".into());
    params.sort = Some("status".into());
    params.desc = true;
    params.limit = Some(1);
    let records = query(&vault, &tree, &params).unwrap();
    assert_eq!(records.len(), 1);
    assert_eq!(
        records[0].fields,
        vec![("status".to_string(), Value::String("draft".into()))]
    );
    let e = query(&vault, &tree, &asked(Some("status ="))).unwrap_err();
    assert!(matches!(e, ToolError::InvalidParams(_)));
    let mut params = asked(None);
    params.folder = "nowhere".into();
    assert!(query(&vault, &tree, &params).is_err());
}

#[test]
fn notes_and_folders_are_found() {
    let (vault, tree) = fixture_vault();
    let params = |name: &str| FindByNameParams {
        folder: "notes".into(),
        name: name.into(),
        export_opts: no_export(),
    };
    assert!(find_by_name(&vault, &tree, &params("beta")).unwrap().is_some());
    assert!(find_by_name(&vault, &tree, &params("gone")).unwrap().is_none());
    assert_eq!(list_folders(&vault, &tree), vec!["notes"]);
}

#[test]
fn links_returns_outgoing_targets() {
    let (vault, tree) = fixture_vault();
    let params = LinksParams {
        name: "alpha".into(),
        direction: default_both(),
        export_opts: no_export(),
    };
    let out = links(&vault, &tree, &params).unwrap();
    assert!(out.outgoing.contains(&"beta".to_string()));
    assert!(out.outgoing.contains(&"gamma".to_string()));
    assert_eq!(
        to_compact(&links_json(&out)).unwrap(),
        r#"{"incoming":[],"name":"alpha","outgoing":["beta","gamma"]}"#
    );
}

#[test]
fn links_are_followed_and_missing_ones_listed() {
    let (vault, tree) = fixture_vault();
    let params = TraverseParams {
        name: "alpha".into(),
        depth: default_traverse_depth(),
        direction: default_outgoing(),
        export_opts: no_export(),
    };
    let hits = traverse(&vault, &tree, &params).unwrap();
    let names: Vec<(&str, usize)> = hits.iter().map(|h| (h.name.as_str(), h.depth)).collect();
    assert!(names.contains(&("beta", 1)));
    assert!(to_compact(&hits_json(&hits)).unwrap().contains(r#""name":"beta""#));
    let params = UnresolvedParams {
        export_opts: no_export(),
    };
    let missing = unresolved(&vault, &tree, &params).unwrap();
    assert_eq!(missing.len(), 1);
    assert_eq!(missing[0].target, "gamma");
    assert_eq!(missing[0].sources, vec!["alpha"]);
    assert_eq!(
        to_compact(&unresolved_json(&missing)).unwrap(),
        r#"[{"sources":["alpha"],"target":"gamma"}]"#
    );
    assert_eq!(texts_json(&vec!["a".into()]), Json::Array(vec![Json::Text("a".into())]));
}

#[test]
fn directions_are_read() {
    assert_eq!(parse_direction("outgoing").unwrap(), Direction::Outgoing);
    assert_eq!(parse_direction("incoming").unwrap(), Direction::Incoming);
    assert_eq!(parse_direction("both").unwrap(), Direction::Both);
    assert!(matches!(
        parse_direction("sideways").unwrap_err(),
        ToolError::InvalidParams(_)
    ));
}

#[test]
fn plan_update_describes_change_without_writing() {
    let (vault, tree) = fixture_vault();
    let before = tree.files[1].content.clone();
    let mut params = update("status = draft");
    params.set = vec!["status=published".into()];
    let report = plan_update(&vault, &tree, &params).unwrap();
    assert_eq!(report.changes.len(), 1);
    let desc = &report.changes[0].description;
    assert!(
        desc.contains("status") && desc.contains("published"),
        "description should mention the field and value, got: {}",
        desc
    );
    assert_eq!(before, tree.files[1].content, "plan_update wrote to disk!");
}

#[test]
fn execute_update_gives_the_new_texts() {
    let (vault, tree) = fixture_vault();
    let mut params = update("status = draft");
    params.set_typed = vec![("year".into(), Json::Int(2024))];
    params.append_body = vec!["More.\n".into()];
    let done = execute_update(&vault, &tree, &params).unwrap();
    let (report, writes) = done.work;
    assert!(report.errors.is_empty());
    assert_eq!(writes.len(), 1);
    assert_eq!(writes[0].path, "/vault/notes/beta.md");
    assert!(writes[0].modified_content.contains("year: 2024\n"));
    assert!(writes[0].modified_content.ends_with("More.\n"));
    let mut bad = update("status = draft");
    bad.set = vec!["status".into()];
    assert!(matches!(
        plan_update(&vault, &tree, &bad).unwrap_err(),
        ToolError::InvalidParams(_)
    ));
}

#[test]
fn creating_gives_a_new_note() {
    let (vault, tree) = fixture_vault();
    let plan = plan_create(&vault, &tree, &create("new"), &None, 0).unwrap();
    assert_eq!(plan.changes.len(), 1);
    let done = execute_create(&vault, &tree, &create("new"), &None, 0).unwrap();
    let write = done.work.1.unwrap();
    assert_eq!(write.path, "/vault/notes/new.md");
    assert_eq!(write.modified_content, "---\nyear: 2024\n---\nText.\n");
    let loaded = load_record_with_content(&FileEntry {
        path: write.path,
        content: Ok(write.modified_content),
        modified: None,
        created: None,
    })
    .unwrap();
    assert_eq!(loaded.fields, vec![("year".to_string(), Value::Integer(2024))]);
    assert_eq!(loaded.body(), "Text.\n");
    let (report, write) = execute_create(&vault, &tree, &create("beta"), &None, 0).unwrap().work;
    assert_eq!(report.errors.len(), 1);
    assert!(write.is_none());
}

#[test]
fn moving_deleting_and_renaming_are_planned() {
    let (vault, tree) = fixture_vault();
    let delete = PlanDeleteParams {
        folder: "notes".into(),
        filter: "status = draft".into(),
        permanent: false,
        recursive: false,
    };
    assert_eq!(plan_delete(&vault, &tree, &delete).unwrap().changes.len(), 1);
    let run = execute_delete(&vault, &tree, &delete).unwrap().work;
    assert!(run.next().is_some());
    let relocate = PlanMoveParams {
        folder: "notes".into(),
        to: "archive".into(),
        filter: "status = draft".into(),
        recursive: false,
    };
    assert_eq!(plan_move(&vault, &tree, &relocate).unwrap().changes.len(), 1);
    assert!(execute_move(&vault, &tree, &relocate).unwrap().work.next().is_some());
    let rename = PlanRenameParams {
        folder: "notes".into(),
        from: "beta".into(),
        to: "delta".into(),
    };
    assert_eq!(plan_rename(&vault, &tree, &rename).unwrap().changes.len(), 2);
    let run = execute_rename(&vault, &tree, &rename).unwrap().work;
    assert_eq!(run.journal().to_name, "delta");
    assert!(run.next().is_some());
}

#[test]
fn executing_needs_permission() {
    let none = ExecutePermissions::default();
    assert!(!none.any());
    let server = VaultdbServer::new(Some(Vault::with_root("/vault".into())), none);
    assert!(server.vault().is_ok());
    assert!(server.permit(ExecuteTool::Create).is_err());
    assert!(server.permit(ExecuteTool::Update).is_err());
    assert!(server.permit(ExecuteTool::Move).is_err());
    assert!(server.permit(ExecuteTool::Rename).is_err());
    assert!(server.permit(ExecuteTool::Delete { permanent: false }).is_err());

    let mut some = ExecutePermissions::default();
    some.delete = true;
    assert!(some.any());
    let server = VaultdbServer::new(None, some);
    assert!(matches!(server.vault().unwrap_err(), ToolError::Internal(_) | ToolError::InvalidParams(_)));
    assert!(server.permit(ExecuteTool::Delete { permanent: false }).is_ok());
    assert!(server.permit(ExecuteTool::Delete { permanent: true }).is_err());
    some.permanent_delete = true;
    let server = VaultdbServer::new(None, some);
    assert!(server.permit(ExecuteTool::Delete { permanent: true }).is_ok());
    assert!(server.permit(ExecuteTool::Update).is_err());
}

#[test]
fn exports_are_chosen_by_name() {
    assert_eq!(parse_csv_delimiter(None).unwrap(), b',');
    assert_eq!(parse_csv_delimiter(Some("semicolon")).unwrap(), b';');
    assert!(parse_csv_delimiter(Some("ab")).is_err());
    assert!(export_format(&no_export()).unwrap().is_none());
    let opts = |name: &str| ExportOptions {
        export: Some(name.into()),
        csv_delimiter: Some("tab".into()),
    };
    assert_eq!(
        export_format(&opts("out.csv")).unwrap(),
        Some(Format::Csv { delimiter: b'\t' })
    );
    assert!(export_format(&opts("out.doc")).is_err());
    let body = Json::Int(1);
    assert_eq!(respond(Json::Int(1), None), body);
    let text = to_compact(&respond(Json::Int(1), Some("/vault/out.csv".into()))).unwrap();
    assert!(text.contains("/vault/out.csv"));
}

#[test]
fn record_serializes_with_path_as_string_and_skips_raw_content() {
    let r = Record {
        path: "/v/notes/a.md".into(),
        fields: vec![("status".into(), Value::String("active".into()))],
        raw_content: None,
        modified: None,
        created: None,
    };
    let json = to_compact(&record_json(&r)).unwrap();
    assert!(json.contains("/v/notes/a.md"));
    assert!(json.contains("status"));
    assert!(!json.contains("raw_content"));
    let all = to_pretty(&records_json(&vec![r])).unwrap();
    assert!(all.starts_with("[\n"));
}

#[test]
fn errors_name_their_context() {
    let e = invalid("where", &VaultdbError::FolderNotFound("x".into()));
    match e {
        ToolError::InvalidParams(m) => assert!(m.starts_with("where")),
        other => panic!("unexpected {:?}", other),
    }
}

#[test]
fn schemas_are_shown_and_inferred() {
    let (vault, tree) = fixture_vault();
    let infer = SchemaInferParams {
        folder: "notes".into(),
        recursive: false,
        write: false,
        export_opts: no_export(),
    };
    let collection = schema_infer(&vault, &tree, &infer).unwrap();
    assert_eq!(collection.folder, "notes");
    assert!(collection.fields.iter().any(|(name, _)| name == "status"));
    let full = merge_collection(None, "notes", &collection);
    assert_eq!(full.collections.len(), 1);
    let full = merge_collection(
        Some(full),
        "other",
        &CollectionSchema {
            description: None,
            folder: "other".into(),
            filter: vec![],
            required: vec![],
            fields: vec![],
        },
    );
    assert_eq!(full.collections.len(), 2);
    let show = |folder: Option<&str>| SchemaShowParams {
        folder: folder.map(|f| f.into()),
        export_opts: no_export(),
    };
    let shown = schema_show(&vault, &show(Some("notes")), full);
    assert_eq!(shown.path, "/vault/vaultdb-schema.yaml");
    assert_eq!(shown.schema.collections.len(), 1);
    let empty = schema_show(&vault, &show(None), VaultSchema { collections: vec![] });
    assert!(empty.schema.collections.is_empty());
}

#[test]
fn an_audit_line_tells_what_happened() {
    let report = MutationReport {
        changes: vec![PlannedChange {
            path: "/vault/a.md".into(),
            description: "x".into(),
        }],
        errors: vec![MutationError {
            path: "/vault/b.md".into(),
            message: "y".into(),
        }],
    };
    assert_eq!(
        audit_line(86_400 + 3_661, "execute_update", "folder=notes", &report),
        "1970-01-02 01:01:01Z execute_update folder=notes changes=1 errors=1\n"
    );
}
