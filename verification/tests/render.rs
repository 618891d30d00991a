//! Exports.

use vaultdb::error::VaultdbError;
use vaultdb::json::Json;
use vaultdb::record::{Record, Value};
use vaultdb::render::{
    export_parent, export_records, infer_fields, render_value, resolve_export_path, Format, Rendered,
};

const ROOT: &str = "/vault";

fn rec(name: &str, fields: &[(&str, Value)]) -> Record {
    let mut fields: Vec<(String, Value)> = fields
        .iter()
        .map(|(k, v)| (k.to_string(), v.clone()))
        .collect();
    fields.sort_by(|a, b| a.0.cmp(&b.0));
    Record {
        path: format!("/vault/notes/{}.md", name),
        fields,
        raw_content: None,
        modified: None,
        created: None,
    }
}

/// Where an export goes once its folder was made, nothing in the vault being a link.
fn resolve(requested: &str, taken: &[&str]) -> Result<String, VaultdbError> {
    let parent = export_parent(ROOT, requested)?;
    let taken: Vec<String> = taken.iter().map(|p| p.to_string()).collect();
    resolve_export_path(ROOT, requested, ROOT, &parent, &taken)
}

fn text(r: Result<Rendered, VaultdbError>) -> String {
    match r.unwrap() {
        Rendered::Text(t) => t,
        Rendered::Bytes(b) => String::from_utf8(b).unwrap(),
        Rendered::Sheet(_) => panic!("expected text"),
    }
}

fn s(t: &str) -> Json {
    Json::Text(t.into())
}

fn object(members: &[(&str, i64)]) -> Json {
    Json::Object(
        members
            .iter()
            .map(|(k, n)| (k.to_string(), Json::Int(*n)))
            .collect(),
    )
}

fn hits() -> Json {
    Json::Array(vec![
        Json::Object(vec![
            ("depth".into(), Json::Int(1)),
            ("name".into(), s("Alpha")),
        ]),
        Json::Object(vec![
            ("depth".into(), Json::Int(2)),
            ("name".into(), s("Beta")),
        ]),
    ])
}

// Formats

#[test]
fn format_csv_default_delimiter_is_comma() {
    let f = Format::from_path("foo.csv").unwrap();
    assert_eq!(f, Format::Csv { delimiter: b',' });
}

#[test]
fn format_tsv_uses_tab_delimiter() {
    let f = Format::from_path("foo.tsv").unwrap();
    assert_eq!(f, Format::Csv { delimiter: b'\t' });
}

#[test]
fn format_json_yaml() {
    assert_eq!(Format::from_path("a.json").unwrap(), Format::Json);
    assert_eq!(Format::from_path("a.yaml").unwrap(), Format::Yaml);
    assert_eq!(Format::from_path("a.yml").unwrap(), Format::Yaml);
}

#[test]
fn format_uppercase_extension() {
    assert_eq!(
        Format::from_path("FOO.CSV").unwrap(),
        Format::Csv { delimiter: b',' }
    );
}

#[test]
fn format_md_extension_refused() {
    let err = Format::from_path("foo.md").unwrap_err();
    assert!(matches!(err, VaultdbError::SafetyRefused { .. }));
}

#[test]
fn format_unknown_extension_refused() {
    let err = Format::from_path("foo.pdf").unwrap_err();
    assert!(matches!(err, VaultdbError::SafetyRefused { .. }));
}

#[test]
fn format_missing_extension_refused() {
    let err = Format::from_path("nofile").unwrap_err();
    assert!(matches!(err, VaultdbError::SafetyRefused { .. }));
}

#[test]
fn with_csv_delimiter_overrides_only_csv() {
    let csv = Format::Csv { delimiter: b',' }.with_csv_delimiter(b';');
    assert_eq!(csv, Format::Csv { delimiter: b';' });
    assert_eq!(Format::Json.with_csv_delimiter(b';'), Format::Json);
}

// Paths

#[test]
fn resolve_basic_path() {
    let p = resolve("foo.csv", &[]).unwrap();
    assert_eq!(p, "/vault/foo.csv");
}

#[test]
fn resolve_creates_parent_dirs() {
    assert_eq!(export_parent(ROOT, "a/b/c/foo.csv").unwrap(), "/vault/a/b/c");
    assert_eq!(resolve("a/b/c/foo.csv", &[]).unwrap(), "/vault/a/b/c/foo.csv");
}

#[test]
fn resolve_rejects_absolute() {
    let err = resolve("/etc/passwd.csv", &[]).unwrap_err();
    assert!(matches!(err, VaultdbError::SafetyRefused { .. }));
}

#[test]
fn resolve_rejects_parent_dir_escape() {
    let err = resolve("../escape.csv", &[]).unwrap_err();
    assert!(matches!(err, VaultdbError::SafetyRefused { .. }));
}

#[test]
fn resolve_rejects_deep_parent_dir_escape() {
    let err = resolve("a/b/../../../escape.csv", &[]).unwrap_err();
    assert!(matches!(err, VaultdbError::SafetyRefused { .. }));
}

#[test]
fn resolve_rejects_md_extension() {
    let err = resolve("Note.md", &[]).unwrap_err();
    assert!(matches!(err, VaultdbError::SafetyRefused { .. }));
}

#[test]
fn resolve_rejects_empty_path() {
    let err = resolve("", &[]).unwrap_err();
    assert!(matches!(err, VaultdbError::SafetyRefused { .. }));
}

#[test]
fn resolve_autosuffix_on_collision() {
    let first = resolve("foo.csv", &[]).unwrap();
    assert_eq!(first, "/vault/foo.csv");
    let second = resolve("foo.csv", &["/vault/foo.csv"]).unwrap();
    assert_eq!(second, "/vault/foo (1).csv");
    let third = resolve("foo.csv", &["/vault/foo.csv", "/vault/foo (1).csv"]).unwrap();
    assert_eq!(third, "/vault/foo (2).csv");
}

#[test]
fn resolve_rejects_a_folder_that_leads_out_of_the_vault() {
    let err = resolve_export_path(ROOT, "out/foo.csv", ROOT, "/elsewhere", &vec![]).unwrap_err();
    assert!(matches!(err, VaultdbError::SafetyRefused { .. }));
}

// Records

#[test]
fn export_records_json() {
    let records = vec![
        rec("Alpha", &[("status", Value::String("active".into()))]),
        rec("Beta", &[("status", Value::String("draft".into()))]),
    ];
    let body = text(export_records(&records, &None, ROOT, None, Format::Json));
    let parsed: serde_json::Value = serde_json::from_str(&body).unwrap();
    let arr = parsed.as_array().unwrap();
    assert_eq!(arr.len(), 2);
    assert_eq!(arr[0]["_name"], "Alpha");
    assert_eq!(arr[0]["status"], "active");
}

#[test]
fn export_records_csv_default_comma() {
    let records = vec![rec("Alpha", &[("rating", Value::Integer(5))])];
    let body = text(export_records(
        &records,
        &None,
        ROOT,
        None,
        Format::Csv { delimiter: b',' },
    ));
    let mut lines = body.lines();
    let header = lines.next().unwrap();
    assert!(header.contains("_name") && header.contains("rating"));
    assert!(header.contains(','));
    let row = lines.next().unwrap();
    assert!(row.contains("Alpha"));
    assert!(row.contains('5'));
    assert_eq!(body, "_name,rating\nAlpha,5\n");
}

#[test]
fn export_records_csv_semicolon_delimiter() {
    let records = vec![rec("Alpha", &[("x", Value::Integer(1))])];
    let body = text(export_records(
        &records,
        &None,
        ROOT,
        None,
        Format::Csv { delimiter: b';' },
    ));
    let header = body.lines().next().unwrap();
    assert!(header.contains(';'));
    assert!(!header.contains(','));
}

#[test]
fn export_records_tsv_via_extension() {
    let records = vec![rec("Alpha", &[("x", Value::Integer(1))])];
    let fmt = Format::from_path("out.tsv").unwrap();
    let body = text(export_records(&records, &None, ROOT, None, fmt));
    let header = body.lines().next().unwrap();
    assert!(header.contains('\t'));
}

#[test]
fn export_records_yaml() {
    let records = vec![rec("Alpha", &[("status", Value::String("active".into()))])];
    let body = text(export_records(&records, &None, ROOT, None, Format::Yaml));
    assert!(body.contains("_name: Alpha"));
    assert!(body.contains("status: active"));
}

#[test]
fn export_records_respects_select() {
    let records = vec![rec(
        "Alpha",
        &[
            ("status", Value::String("active".into())),
            ("rating", Value::Integer(5)),
        ],
    )];
    let select = vec!["_name".to_string(), "rating".to_string()];
    let body = text(export_records(
        &records,
        &Some(select),
        ROOT,
        None,
        Format::Csv { delimiter: b',' },
    ));
    let header = body.lines().next().unwrap();
    assert!(header.contains("_name"));
    assert!(header.contains("rating"));
    assert!(!header.contains("status"));
}

#[test]
fn export_records_quotes_what_holds_the_delimiter() {
    let records = vec![rec("Alpha", &[("x", Value::String("a,b \"c\"".into()))])];
    let body = text(export_records(
        &records,
        &None,
        ROOT,
        None,
        Format::Csv { delimiter: b',' },
    ));
    assert_eq!(body, "_name,x\nAlpha,\"a,b \"\"c\"\"\"\n");
}

#[test]
fn export_records_xlsx_keeps_types() {
    let records = vec![rec(
        "Alpha",
        &[
            ("rating", Value::Integer(5)),
            ("status", Value::String("active".into())),
        ],
    )];
    match export_records(&records, &None, ROOT, None, Format::Xlsx).unwrap() {
        Rendered::Sheet(rows) => {
            assert_eq!(rows.len(), 2);
            assert_eq!(rows[0][0], Value::String("_name".into()));
            assert_eq!(rows[1][0], Value::String("Alpha".into()));
            assert_eq!(rows[1][1], Value::Integer(5));
        }
        other => panic!("expected a sheet, got {:?}", other),
    }
}

#[test]
fn fields_are_inferred_with_the_name_first() {
    let records = vec![
        rec("A", &[("z", Value::Null)]),
        rec("B", &[("a", Value::Null)]),
    ];
    assert_eq!(infer_fields(&records), vec!["_name", "a", "z"]);
}

// Documents

#[test]
fn export_value_json_arbitrary_shape() {
    let value = Json::Object(vec![
        ("nested".into(), object(&[("x", 1)])),
        ("path".into(), s("/foo/bar")),
    ]);
    let body = text(render_value(&value, Format::Json));
    let parsed: serde_json::Value = serde_json::from_str(&body).unwrap();
    assert_eq!(parsed["nested"]["x"], 1);
}

#[test]
fn export_value_csv_array_of_objects() {
    let body = text(render_value(&hits(), Format::Csv { delimiter: b',' }));
    let header = body.lines().next().unwrap();
    assert!(header.contains("name"));
    assert!(header.contains("depth"));
    assert_eq!(body.lines().count(), 3);
}

#[test]
fn export_value_csv_array_of_scalars() {
    let value = Json::Array(vec![s("a"), s("b"), s("c")]);
    let body = text(render_value(&value, Format::Csv { delimiter: b',' }));
    let mut lines = body.lines();
    assert_eq!(lines.next().unwrap(), "value");
    assert_eq!(lines.next().unwrap(), "a");
}

#[test]
fn export_value_csv_rejects_non_tabular_shape() {
    let err = render_value(&s("just a string"), Format::Csv { delimiter: b',' }).unwrap_err();
    assert!(matches!(err, VaultdbError::SafetyRefused { .. }));
}

#[test]
fn export_value_yaml_arbitrary_shape() {
    let value = Json::Object(vec![("key".into(), s("value"))]);
    let body = text(render_value(&value, Format::Yaml));
    assert!(body.contains("key: value"));
}

#[test]
fn export_value_xlsx_rows() {
    match render_value(&hits(), Format::Xlsx).unwrap() {
        Rendered::Sheet(rows) => assert_eq!(rows.len(), 3),
        other => panic!("expected a sheet, got {:?}", other),
    }
}
