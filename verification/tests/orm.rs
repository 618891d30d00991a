//! Notes as structures.

use vaultdb::orm::{
    derive_note, field_accessors, relation_kind, serde_rename, Accessor, FieldDecl, FieldKey, NoteDecl, NoteKey,
    Shape, Target,
};

fn field(name: &str, keys: Vec<FieldKey>, rename: Option<&str>) -> FieldDecl {
    FieldDecl {
        name: name.into(),
        keys,
        renames: rename.iter().map(|r| vec![r.to_string()]).collect(),
    }
}

#[test]
fn a_note_has_its_folder_filter_and_accessors() {
    let d = NoteDecl {
        keys: vec![
            NoteKey::Folder("people".into()),
            NoteKey::Filter("kind = person".into()),
        ],
        shape: Shape::Named(vec![
            field("name", vec![], Some("title")),
            field("friends", vec![FieldKey::Wikilink], None),
            field("mentions", vec![FieldKey::Backlink], None),
        ]),
    };
    let m = derive_note(&d).unwrap();
    assert_eq!(m.folder, "people");
    assert_eq!(m.filter.as_deref(), Some("kind = person"));
    let accessor = |name: &str, target: Target| Accessor {
        name: name.into(),
        target,
    };
    assert_eq!(
        m.accessors,
        vec![
            accessor("name", Target::Field("title".into())),
            accessor("friends", Target::Outgoing),
            accessor("mentions", Target::Incoming),
        ]
    );
}

#[test]
fn a_note_without_a_folder_is_refused() {
    let e = derive_note(&NoteDecl {
        keys: vec![],
        shape: Shape::Named(vec![]),
    })
    .unwrap_err();
    assert_eq!(e, "missing required #[note(folder = \"...\")] on derive(Note)");
    let e = derive_note(&NoteDecl {
        keys: vec![NoteKey::Folder("x".into()), NoteKey::Unknown],
        shape: Shape::Named(vec![]),
    });
    assert!(e.is_err());
}

#[test]
fn only_named_fields_are_accepted() {
    assert_eq!(
        field_accessors(&Shape::Enum).unwrap_err(),
        "derive(Note) cannot be applied to an enum"
    );
    assert_eq!(
        field_accessors(&Shape::Union).unwrap_err(),
        "derive(Note) cannot be applied to a union"
    );
    assert_eq!(
        field_accessors(&Shape::Unnamed).unwrap_err(),
        "derive(Note) requires a struct with named fields"
    );
    assert!(field_accessors(&Shape::Named(vec![])).unwrap().is_empty());
}

#[test]
fn relations_are_read() {
    assert_eq!(relation_kind(&vec![]).unwrap(), None);
    assert_eq!(relation_kind(&vec![FieldKey::Wikilink]).unwrap(), Some(Target::Outgoing));
    assert_eq!(relation_kind(&vec![FieldKey::Backlink]).unwrap(), Some(Target::Incoming));
    assert!(relation_kind(&vec![FieldKey::Unknown]).is_err());
    assert_eq!(serde_rename("a", &vec![]), "a");
    assert_eq!(serde_rename("a", &vec![vec!["b".into()]]), "b");
}
