//! Schemas.

use vaultdb::float::Float;
use vaultdb::record::{Record, Value};
use vaultdb::schema::{
    infer_schema, is_valid_date, is_valid_url, is_valid_wikilink, validate_record, validate_schema_consistency,
    validate_schema_defaults, CollectionSchema, FieldSchema, VaultSchema,
};

/// A moment of the year 2024, in seconds since 1970.
const NOW: u64 = 1_715_600_000;

fn float(x: f64) -> Float {
    Float {
        bits: x.to_bits(),
        text: x.to_string(),
    }
}

fn field<'a>(schema: &'a CollectionSchema, name: &str) -> &'a FieldSchema {
    &schema.fields.iter().find(|(k, _)| k == name).unwrap().1
}

fn make_record(fields: Vec<(&str, Value)>) -> Record {
    Record {
        path: "/vault/notes/test.md".into(),
        fields: fields.into_iter().map(|(k, v)| (k.to_string(), v)).collect(),
        raw_content: None,
        modified: None,
        created: None,
    }
}

#[test]
fn validate_required_field_missing() {
    let schema = CollectionSchema {
        description: None,
        folder: "notes".into(),
        filter: vec![],
        required: vec!["status".into()],
        fields: vec![],
    };

    let record = make_record(vec![("tags", Value::String("x".into()))]);
    let violations = validate_record("test.md", &record.fields, &schema);
    assert_eq!(violations.len(), 1);
    assert!(violations[0].message.contains("required"));
}

#[test]
fn validate_type_mismatch() {
    let fields = vec![(
        "year".into(),
        FieldSchema {
            field_type: "integer".into(),
            enum_values: vec![],
            min: None,
            max: None,
            default: None,
            default_expr: None,
        },
    )];

    let schema = CollectionSchema {
        description: None,
        folder: "notes".into(),
        filter: vec![],
        required: vec![],
        fields,
    };

    let record = make_record(vec![("year", Value::String("not a number".into()))]);
    let violations = validate_record("test.md", &record.fields, &schema);
    assert_eq!(violations.len(), 1);
    assert!(violations[0].message.contains("type"));
}

#[test]
fn validate_enum_violation() {
    let fields = vec![(
        "status".into(),
        FieldSchema {
            field_type: "string".into(),
            enum_values: vec![
                Value::String("to-watch".into()),
                Value::String("watched".into()),
            ],
            min: None,
            max: None,
            default: None,
            default_expr: None,
        },
    )];

    let schema = CollectionSchema {
        description: None,
        folder: "notes".into(),
        filter: vec![],
        required: vec![],
        fields,
    };

    let record = make_record(vec![("status", Value::String("invalid".into()))]);
    let violations = validate_record("test.md", &record.fields, &schema);
    assert_eq!(violations.len(), 1);
    assert!(violations[0].message.contains("not in allowed"));
}

#[test]
fn validate_min_max() {
    let fields = vec![(
        "rating".into(),
        FieldSchema {
            field_type: "number".into(),
            enum_values: vec![],
            min: Some(float(1.0)),
            max: Some(float(10.0)),
            default: None,
            default_expr: None,
        },
    )];

    let schema = CollectionSchema {
        description: None,
        folder: "notes".into(),
        filter: vec![],
        required: vec![],
        fields,
    };

    let record = make_record(vec![("rating", Value::Integer(15))]);
    let violations = validate_record("test.md", &record.fields, &schema);
    assert_eq!(violations.len(), 1);
    assert!(violations[0].message.contains("exceeds maximum"));
}

#[test]
fn validate_passes_clean_record() {
    let fields = vec![(
        "status".into(),
        FieldSchema {
            field_type: "string".into(),
            enum_values: vec![Value::String("to-watch".into())],
            min: None,
            max: None,
            default: None,
            default_expr: None,
        },
    )];

    let schema = CollectionSchema {
        description: None,
        folder: "notes".into(),
        filter: vec![],
        required: vec!["status".into()],
        fields,
    };

    let record = make_record(vec![("status", Value::String("to-watch".into()))]);
    let violations = validate_record("test.md", &record.fields, &schema);
    assert!(violations.is_empty());
}

#[test]
fn infer_schema_basic() {
    let records = vec![
        make_record(vec![
            ("status", Value::String("active".into())),
            ("year", Value::Integer(2020)),
        ]),
        make_record(vec![
            ("status", Value::String("draft".into())),
            ("year", Value::Integer(2021)),
        ]),
    ];

    let schema = infer_schema("notes", &records);
    assert_eq!(field(&schema, "status").field_type, "string");
    assert_eq!(field(&schema, "year").field_type, "integer");
    assert!(schema.required.contains(&"status".to_string()));
    assert!(schema.required.contains(&"year".to_string()));
}

// ── wikilink / date / url type validation ────────────────

fn schema_with_field(name: &str, field_type: &str) -> CollectionSchema {
    let fields = vec![(
        name.into(),
        FieldSchema {
            field_type: field_type.into(),
            enum_values: vec![],
            min: None,
            max: None,
            default: None,
            default_expr: None,
        },
    )];
    CollectionSchema {
        description: None,
        folder: "notes".into(),
        filter: vec![],
        required: vec![],
        fields,
    }
}

#[test]
fn wikilink_accepts_plain() {
    assert!(is_valid_wikilink("[[name]]"));
    assert!(is_valid_wikilink("[[kyoto-university-kyoto-yoshida-KG9l]]"));
}

#[test]
fn wikilink_accepts_alias_and_section() {
    assert!(is_valid_wikilink("[[name|alias]]"));
    assert!(is_valid_wikilink("[[name#section]]"));
    assert!(is_valid_wikilink("[[name#section|alias]]"));
}

#[test]
fn wikilink_rejects_malformed() {
    assert!(!is_valid_wikilink("name"));
    assert!(!is_valid_wikilink("[name]"));
    assert!(!is_valid_wikilink("[[]]"));
    assert!(!is_valid_wikilink("[[  ]]"));
    assert!(!is_valid_wikilink("[[a][b]]"));
}

#[test]
fn validate_wikilink_field_catches_bad_value() {
    let schema = schema_with_field("university", "wikilink");
    let record = make_record(vec![("university", Value::String("kyoto".into()))]);
    let violations = validate_record("p.md", &record.fields, &schema);
    assert_eq!(violations.len(), 1, "{:?}", violations);
    assert!(violations[0].message.contains("wikilink"));
}

#[test]
fn validate_wikilink_field_passes_good_value() {
    let schema = schema_with_field("university", "wikilink");
    let record = make_record(vec![(
        "university",
        Value::String("[[kyoto-university-KG9l]]".into()),
    )]);
    let violations = validate_record("p.md", &record.fields, &schema);
    assert!(violations.is_empty(), "{:?}", violations);
}

#[test]
fn date_accepts_iso_calendar() {
    assert!(is_valid_date("2024-05-13"));
    assert!(is_valid_date("1999-01-01"));
    assert!(is_valid_date("2030-12-31"));
}

#[test]
fn date_rejects_garbage_and_wrong_components() {
    assert!(!is_valid_date("not-a-date"));
    assert!(!is_valid_date("2024/05/13"));
    assert!(!is_valid_date("2024-13-01")); // bad month
    assert!(!is_valid_date("2024-00-15")); // bad month
    assert!(!is_valid_date("2024-05-32")); // bad day
    assert!(!is_valid_date("24-05-13")); // 2-digit year
    assert!(!is_valid_date("2024-5-13")); // 1-digit month
}

#[test]
fn validate_date_field_catches_bad_value() {
    let schema = schema_with_field("due", "date");
    let record = make_record(vec![("due", Value::String("not-a-date".into()))]);
    let violations = validate_record("t.md", &record.fields, &schema);
    assert_eq!(violations.len(), 1);
    assert!(violations[0].message.contains("date"));
}

#[test]
fn validate_date_field_passes_good_value() {
    let schema = schema_with_field("due", "date");
    let record = make_record(vec![("due", Value::String("2024-05-13".into()))]);
    let violations = validate_record("t.md", &record.fields, &schema);
    assert!(violations.is_empty());
}

#[test]
fn url_accepts_common_schemes() {
    assert!(is_valid_url("https://example.com"));
    assert!(is_valid_url("http://example.com/path?q=1"));
    assert!(is_valid_url("mailto:a@b.com"));
    assert!(is_valid_url("file:///tmp/x"));
}

#[test]
fn url_rejects_garbage_and_relative() {
    assert!(!is_valid_url("not a url"));
    assert!(!is_valid_url("/relative/path"));
    assert!(!is_valid_url("example.com")); // no scheme
}

#[test]
fn validate_url_field_catches_bad_value() {
    let schema = schema_with_field("homepage", "url");
    let record = make_record(vec![("homepage", Value::String("example.com".into()))]);
    let violations = validate_record("p.md", &record.fields, &schema);
    assert_eq!(violations.len(), 1);
    assert!(violations[0].message.contains("URL"));
}

#[test]
fn validate_url_field_passes_good_value() {
    let schema = schema_with_field("homepage", "url");
    let record = make_record(vec![(
        "homepage",
        Value::String("https://example.com".into()),
    )]);
    let violations = validate_record("p.md", &record.fields, &schema);
    assert!(violations.is_empty());
}

#[test]
fn constrained_type_still_requires_string_actual() {
    // A wikilink-typed field receiving an integer should fail the
    // type check, not just the wikilink-format check.
    let schema = schema_with_field("university", "wikilink");
    let record = make_record(vec![("university", Value::Integer(42))]);
    let violations = validate_record("p.md", &record.fields, &schema);
    assert!(violations.iter().any(|v| v.message.contains("type")));
}

// ── default / default_expr validation at load time ────────

fn schema_with_defaulted_field(
    name: &str,
    field_type: &str,
    default: Option<Value>,
    default_expr: Option<String>,
    enum_values: Vec<Value>,
) -> VaultSchema {
    let fields = vec![(
        name.into(),
        FieldSchema {
            field_type: field_type.into(),
            enum_values,
            min: None,
            max: None,
            default,
            default_expr,
        },
    )];
    VaultSchema {
        collections: vec![(
            "movies".to_string(),
            CollectionSchema {
                description: None,
                folder: "Notes/movie".into(),
                filter: vec![],
                required: vec![],
                fields,
            },
        )],
    }
}

#[test]
fn default_literal_matching_type_passes() {
    let s = schema_with_defaulted_field(
        "year",
        "integer",
        Some(Value::Integer(2024)),
        None,
        vec![],
    );
    assert!(validate_schema_defaults(&s).is_ok());
}

#[test]
fn default_literal_wrong_type_rejected() {
    let s = schema_with_defaulted_field(
        "year",
        "integer",
        Some(Value::String("nope".into())),
        None,
        vec![],
    );
    let err = validate_schema_defaults(&s).unwrap_err().to_string();
    assert!(err.contains("incompatible"), "got: {}", err);
    assert!(err.contains("year"));
}

#[test]
fn default_literal_outside_enum_rejected() {
    let s = schema_with_defaulted_field(
        "status",
        "string",
        Some(Value::String("invalid".into())),
        None,
        vec![
            Value::String("to-watch".into()),
            Value::String("watched".into()),
        ],
    );
    let err = validate_schema_defaults(&s).unwrap_err().to_string();
    assert!(err.contains("enum"), "got: {}", err);
}

#[test]
fn default_literal_inside_enum_passes() {
    let s = schema_with_defaulted_field(
        "status",
        "string",
        Some(Value::String("to-watch".into())),
        None,
        vec![
            Value::String("to-watch".into()),
            Value::String("watched".into()),
        ],
    );
    assert!(validate_schema_defaults(&s).is_ok());
}

#[test]
fn default_expr_known_keyword_passes() {
    for expr in ["today", "now", "epoch"] {
        let s =
            schema_with_defaulted_field("due", "date", None, Some(expr.to_string()), vec![]);
        assert!(
            validate_schema_defaults(&s).is_ok(),
            "default_expr '{}' should be valid",
            expr
        );
    }
}

#[test]
fn default_expr_unknown_keyword_rejected() {
    let s = schema_with_defaulted_field("due", "date", None, Some("tomorrow".into()), vec![]);
    let err = validate_schema_defaults(&s).unwrap_err().to_string();
    assert!(err.contains("default_expr"), "got: {}", err);
    assert!(err.contains("tomorrow"));
}

#[test]
fn default_and_default_expr_mutually_exclusive() {
    let s = schema_with_defaulted_field(
        "due",
        "date",
        Some(Value::String("2024-05-13".into())),
        Some("today".into()),
        vec![],
    );
    let err = validate_schema_defaults(&s).unwrap_err().to_string();
    assert!(err.contains("mutually exclusive"), "got: {}", err);
}

#[test]
fn default_for_wikilink_must_be_well_formed() {
    let s = schema_with_defaulted_field(
        "university",
        "wikilink",
        Some(Value::String("kyoto".into())),
        None,
        vec![],
    );
    let err = validate_schema_defaults(&s).unwrap_err().to_string();
    assert!(err.contains("wikilink"), "got: {}", err);

    // And the right shape passes.
    let s = schema_with_defaulted_field(
        "university",
        "wikilink",
        Some(Value::String("[[kyoto-university-KG9l]]".into())),
        None,
        vec![],
    );
    assert!(validate_schema_defaults(&s).is_ok());
}

#[test]
fn default_for_date_must_be_well_formed() {
    let s = schema_with_defaulted_field(
        "due",
        "date",
        Some(Value::String("2024-99-99".into())),
        None,
        vec![],
    );
    let err = validate_schema_defaults(&s).unwrap_err().to_string();
    assert!(err.contains("date"), "got: {}", err);
}

// ── Cross-collection consistency ────────────────────

fn fs_basic(field_type: &str) -> FieldSchema {
    FieldSchema {
        field_type: field_type.into(),
        enum_values: vec![],
        min: None,
        max: None,
        default: None,
        default_expr: None,
    }
}

fn col(folder: &str, fields: Vec<(&str, FieldSchema)>) -> CollectionSchema {
    let m = fields.into_iter().map(|(k, v)| (k.into(), v)).collect();
    CollectionSchema {
        description: None,
        folder: folder.into(),
        filter: vec![],
        required: vec![],
        fields: m,
    }
}

fn schema_of(pairs: Vec<(&str, CollectionSchema)>) -> VaultSchema {
    let m = pairs.into_iter().map(|(k, v)| (k.into(), v)).collect();
    VaultSchema { collections: m }
}

#[test]
fn consistency_rejects_conflicting_field_types() {
    // Notes folder is ancestor of Notes/movie; both declare `tags`
    // but with incompatible types.
    let s = schema_of(vec![
        ("Notes", col("Notes", vec![("tags", fs_basic("list"))])),
        (
            "movies",
            col("Notes/movie", vec![("tags", fs_basic("string"))]),
        ),
    ]);
    let err = validate_schema_consistency(&s, NOW).unwrap_err().to_string();
    assert!(err.contains("tags"), "got: {}", err);
    assert!(err.contains("incompatible"), "got: {}", err);
}

#[test]
fn consistency_allows_non_overlapping_folders_with_different_types() {
    // Notes/movie and Notes/book are siblings — neither is ancestor
    // of the other, so a single record can't be in both. The
    // type-conflict check must skip this pair.
    let s = schema_of(vec![
        (
            "movies",
            col("Notes/movie", vec![("rating", fs_basic("string"))]),
        ),
        (
            "games",
            col("Notes/game", vec![("rating", fs_basic("integer"))]),
        ),
    ]);
    validate_schema_consistency(&s, NOW).unwrap();
}

#[test]
fn consistency_allows_enum_narrowing() {
    // Subset is the documented "narrowing" pattern (Notes.db-table
    // declares all valid values; movies.db-table narrows to one).
    let mut catchall = fs_basic("string");
    catchall.enum_values = vec![Value::String("movie".into()), Value::String("book".into())];
    let mut narrow = fs_basic("string");
    narrow.enum_values = vec![Value::String("movie".into())];

    let s = schema_of(vec![
        ("Notes", col("Notes", vec![("db-table", catchall)])),
        ("movies", col("Notes/movie", vec![("db-table", narrow)])),
    ]);
    validate_schema_consistency(&s, NOW).unwrap();
}

#[test]
fn consistency_rejects_disjoint_enums() {
    let mut a = fs_basic("string");
    a.enum_values = vec![Value::String("movie".into())];
    let mut b = fs_basic("string");
    b.enum_values = vec![Value::String("book".into())];

    let s = schema_of(vec![
        ("Notes", col("Notes", vec![("db-table", a)])),
        ("movies", col("Notes/movie", vec![("db-table", b)])),
    ]);
    let err = validate_schema_consistency(&s, NOW).unwrap_err().to_string();
    assert!(err.contains("disjoint enum"), "got: {}", err);
}

#[test]
fn consistency_rejects_disjoint_ranges() {
    let mut a = fs_basic("integer");
    a.min = Some(float(2000.0));
    a.max = Some(float(3000.0));
    let mut b = fs_basic("integer");
    b.min = Some(float(1000.0));
    b.max = Some(float(1500.0));
    let s = schema_of(vec![
        ("Notes", col("Notes", vec![("year", a)])),
        ("movies", col("Notes/movie", vec![("year", b)])),
    ]);
    let err = validate_schema_consistency(&s, NOW).unwrap_err().to_string();
    assert!(err.contains("disjoint numeric ranges"), "got: {}", err);
}

#[test]
fn consistency_rejects_default_violating_overlapping_collection() {
    // Movies declares status default = "to-watch", but Notes
    // catch-all narrows status enum to ["a", "b"]. The default
    // would silently break every movie create.
    let mut catchall = fs_basic("string");
    catchall.enum_values = vec![Value::String("a".into()), Value::String("b".into())];
    let mut movie = fs_basic("string");
    movie.enum_values = vec![
        Value::String("a".into()),
        Value::String("b".into()),
        Value::String("to-watch".into()),
    ];
    movie.default = Some(Value::String("to-watch".into()));

    let s = schema_of(vec![
        ("Notes", col("Notes", vec![("status", catchall)])),
        ("movies", col("Notes/movie", vec![("status", movie)])),
    ]);
    let err = validate_schema_consistency(&s, NOW).unwrap_err().to_string();
    assert!(err.contains("default"), "got: {}", err);
    assert!(err.contains("status"), "got: {}", err);
}

#[test]
fn consistency_skips_check_when_filters_are_disjoint() {
    // Two collections whose
    // folders overlap (Notes is ancestor of Notes/archive), but
    // whose filters are mutually exclusive equality predicates on
    // the same field (`db-table = index` vs `db-table = archive`).
    // No record can satisfy both filters at once, so the
    // disjoint-enums on `db-table` is *not* an error — it's the
    // pattern that makes the filter scheme work.
    let mut indexes_db = fs_basic("string");
    indexes_db.enum_values = vec![Value::String("index".into())];
    let mut archive_db = fs_basic("string");
    archive_db.enum_values = vec![Value::String("archive".into())];

    let s = schema_of(vec![
        (
            "indexes",
            CollectionSchema {
                description: None,
                folder: "Notes".into(),
                filter: vec!["db-table = index".into()],
                required: vec![],
                fields: vec![("db-table".into(), indexes_db)],
            },
        ),
        (
            "archive",
            CollectionSchema {
                description: None,
                folder: "Notes/archive".into(),
                filter: vec!["db-table = archive".into()],
                required: vec![],
                fields: vec![("db-table".into(), archive_db)],
            },
        ),
    ]);
    validate_schema_consistency(&s, NOW).unwrap();
}

#[test]
fn consistency_accepts_default_compatible_with_overlapping_collection() {
    // Default = "to-watch" satisfies BOTH collections' enums.
    let mut catchall = fs_basic("string");
    catchall.enum_values = vec![
        Value::String("to-watch".into()),
        Value::String("watched".into()),
    ];
    let mut movie = fs_basic("string");
    movie.enum_values = vec![
        Value::String("to-watch".into()),
        Value::String("watched".into()),
    ];
    movie.default = Some(Value::String("to-watch".into()));

    let s = schema_of(vec![
        ("Notes", col("Notes", vec![("status", catchall)])),
        ("movies", col("Notes/movie", vec![("status", movie)])),
    ]);
    validate_schema_consistency(&s, NOW).unwrap();
}
