//! Models of notes: what a type that is declared as the model of a folder's notes is
//! given.
//!
//! A declaration names a folder, perhaps a condition that tells the model's notes from
//! others, and fields. Each field gets an accessor: to a field of the frontmatter, or
//! to the notes at the other end of links.

use vstd::prelude::*;

pub mod laws;

verus! {

/// An attribute of a declaration.
#[derive(Debug, PartialEq, Eq)]
pub enum NoteKey {
    Folder(String),
    Filter(String),
    /// Any other attribute.
    Unknown,
}

/// An attribute of a field.
#[derive(Debug, Clone, Copy, PartialEq, Eq, Structural)]
pub enum FieldKey {
    Wikilink,
    Backlink,
    /// Any other attribute.
    Unknown,
}

/// A field of a declaration.
#[derive(Debug, PartialEq, Eq)]
pub struct FieldDecl {
    pub name: String,
    pub keys: Vec<FieldKey>,
    /// The names that each group of attributes gives the field in the frontmatter.
    pub renames: Vec<Vec<String>>,
}

/// What is declared.
#[derive(Debug, PartialEq, Eq)]
pub enum Shape {
    Named(Vec<FieldDecl>),
    Unnamed,
    Unit,
    Enum,
    Union,
}

/// A declaration of a model.
#[derive(Debug, PartialEq, Eq)]
pub struct NoteDecl {
    pub keys: Vec<NoteKey>,
    pub shape: Shape,
}

/// What the accessor of a field leads to.
#[derive(Debug, PartialEq, Eq)]
pub enum Target {
    /// A field of the frontmatter, by its name there.
    Field(String),
    /// The notes that are linked to.
    Outgoing,
    /// The notes that link here.
    Incoming,
}

/// The accessor of a field.
#[derive(Debug, PartialEq, Eq)]
pub struct Accessor {
    pub name: String,
    pub target: Target,
}

/// What a model is given.
#[derive(Debug, PartialEq, Eq)]
pub struct NoteModel {
    pub folder: String,
    pub filter: Option<String>,
    pub accessors: Vec<Accessor>,
}

/// What the accessor of a field leads to, with its text as a sequence of characters.
pub enum Leads {
    Field(Seq<char>),
    Outgoing,
    Incoming,
}

impl View for Target {
    type V = Leads;

    open spec fn view(&self) -> Leads {
        match *self {
            Target::Field(k) => Leads::Field(k@),
            Target::Outgoing => Leads::Outgoing,
            Target::Incoming => Leads::Incoming,
        }
    }
}

/// What accessors are.
pub open spec fn accessor_views(v: Seq<Accessor>) -> Seq<(Seq<char>, Leads)> {
    Seq::new(v.len(), |i: int| (v[i].name@, v[i].target@))
}

/// What a model is given, as sequences.
pub struct Model {
    pub folder: Seq<char>,
    pub filter: Option<Seq<char>>,
    pub accessors: Seq<(Seq<char>, Leads)>,
}

/// The folder and the condition that attributes name, the last of each; an attribute
/// that is neither is an error.
pub open spec fn note_keys(keys: Seq<NoteKey>) -> Result<
    (Option<Seq<char>>, Option<Seq<char>>),
    Seq<char>,
>
    decreases keys.len(),
{
    if keys.len() == 0 {
        Ok((None, None))
    } else {
        match note_keys(keys.drop_last()) {
            Err(m) => Err(m),
            Ok((folder, filter)) => match keys.last() {
                NoteKey::Folder(f) => Ok((Some(f@), filter)),
                NoteKey::Filter(f) => Ok((folder, Some(f@))),
                NoteKey::Unknown => Err(
                    "unknown #[note(...)] key — expected `folder` or `filter`"@,
                ),
            },
        }
    }
}

/// Whether a field is a relation, and in which direction; the last attribute counts.
pub open spec fn relation(keys: Seq<FieldKey>) -> Result<Option<Leads>, Seq<char>>
    decreases keys.len(),
{
    if keys.len() == 0 {
        Ok(None)
    } else {
        match relation(keys.drop_last()) {
            Err(m) => Err(m),
            Ok(_) => match keys.last() {
                FieldKey::Wikilink => Ok(Some(Leads::Outgoing)),
                FieldKey::Backlink => Ok(Some(Leads::Incoming)),
                FieldKey::Unknown => Err(
                    "unknown #[note(...)] key on a field — expected `wikilink` or `backlink`"@,
                ),
            },
        }
    }
}

/// The name of a field in the frontmatter: the last that the first group which gives
/// one gives it, or else its own.
pub open spec fn frontmatter_key(name: Seq<char>, renames: Seq<Vec<String>>) -> Seq<char>
    decreases renames.len(),
{
    if renames.len() == 0 {
        name
    } else if renames[0]@.len() > 0 {
        renames[0]@.last()@
    } else {
        frontmatter_key(name, renames.skip(1))
    }
}

/// The accessors of fields, or why there are none.
pub open spec fn accessors_of(fields: Seq<FieldDecl>) -> Result<
    Seq<(Seq<char>, Leads)>,
    Seq<char>,
>
    decreases fields.len(),
{
    if fields.len() == 0 {
        Ok(seq![])
    } else {
        let f = fields.last();
        match accessors_of(fields.drop_last()) {
            Err(m) => Err(m),
            Ok(before) => match relation(f.keys@) {
                Err(m) => Err(m),
                Ok(Some(r)) => Ok(before.push((f.name@, r))),
                Ok(None) => Ok(
                    before.push((f.name@, Leads::Field(frontmatter_key(f.name@, f.renames@)))),
                ),
            },
        }
    }
}

/// The accessors of what is declared, or why there are none.
pub open spec fn shape_accessors(shape: Shape) -> Result<Seq<(Seq<char>, Leads)>, Seq<char>> {
    match shape {
        Shape::Named(fields) => accessors_of(fields@),
        Shape::Unnamed => Err("derive(Note) requires a struct with named fields"@),
        Shape::Unit => Ok(seq![]),
        Shape::Enum => Err("derive(Note) cannot be applied to an enum"@),
        Shape::Union => Err("derive(Note) cannot be applied to a union"@),
    }
}

/// What a declared model is given, or why the declaration is wrong.
pub open spec fn model_of(d: NoteDecl) -> Result<Model, Seq<char>> {
    match note_keys(d.keys@) {
        Err(m) => Err(m),
        Ok((None, _)) => Err("missing required #[note(folder = \"...\")] on derive(Note)"@),
        Ok((Some(folder), filter)) => match shape_accessors(d.shape) {
            Err(m) => Err(m),
            Ok(accessors) => Ok(Model { folder, filter, accessors }),
        },
    }
}

/// What a model, or the error, is.
pub open spec fn model_view(r: Result<NoteModel, String>) -> Result<Model, Seq<char>> {
    match r {
        Ok(m) => Ok(
            Model {
                folder: m.folder@,
                filter: crate::schema::text_view(m.filter),
                accessors: accessor_views(m.accessors@),
            },
        ),
        Err(m) => Err(m@),
    }
}

/// The first error among attributes of a declaration stands.
proof fn lemma_note_keys(keys: Seq<NoteKey>, n: int)
    requires
        0 <= n <= keys.len(),
        note_keys(keys.take(n)) is Err,
    ensures
        note_keys(keys) == note_keys(keys.take(n)),
    decreases keys.len() - n,
{
    if n < keys.len() {
        assert(keys.take(n + 1).drop_last() =~= keys.take(n));
        lemma_note_keys(keys, n + 1);
    } else {
        assert(keys.take(n) =~= keys);
    }
}

/// The first error among attributes of a field stands.
proof fn lemma_relation(keys: Seq<FieldKey>, n: int)
    requires
        0 <= n <= keys.len(),
        relation(keys.take(n)) is Err,
    ensures
        relation(keys) == relation(keys.take(n)),
    decreases keys.len() - n,
{
    if n < keys.len() {
        assert(keys.take(n + 1).drop_last() =~= keys.take(n));
        lemma_relation(keys, n + 1);
    } else {
        assert(keys.take(n) =~= keys);
    }
}

/// The first error among fields stands.
proof fn lemma_accessors(fields: Seq<FieldDecl>, n: int)
    requires
        0 <= n <= fields.len(),
        accessors_of(fields.take(n)) is Err,
    ensures
        accessors_of(fields) == accessors_of(fields.take(n)),
    decreases fields.len() - n,
{
    if n < fields.len() {
        assert(fields.take(n + 1).drop_last() =~= fields.take(n));
        lemma_accessors(fields, n + 1);
    } else {
        assert(fields.take(n) =~= fields);
    }
}

/// Tells whether a field is a relation.
pub fn relation_kind(keys: &Vec<FieldKey>) -> (r: Result<Option<Target>, String>)
    ensures
        match r {
            Ok(Some(t)) => relation(keys@) == Ok::<Option<Leads>, Seq<char>>(Some(t@)),
            Ok(None) => relation(keys@) == Ok::<Option<Leads>, Seq<char>>(None),
            Err(m) => relation(keys@) == Err::<Option<Leads>, Seq<char>>(m@),
        },
{
    let mut kind: Option<Target> = None;
    let mut i: usize = 0;
    assert(keys@.take(0) =~= seq![]);
    while i < keys.len()
        invariant
            i <= keys.len(),
            relation(keys@.take(i as int)) == Ok::<Option<Leads>, Seq<char>>(
                match kind {
                    Some(t) => Some(t@),
                    None => None,
                },
            ),
        decreases keys.len() - i,
    {
        assert(keys@.take(i + 1).drop_last() =~= keys@.take(i as int));
        match keys[i] {
            FieldKey::Wikilink => {
                kind = Some(Target::Outgoing);
            },
            FieldKey::Backlink => {
                kind = Some(Target::Incoming);
            },
            FieldKey::Unknown => {
                proof {
                    lemma_relation(keys@, i + 1);
                }
                return Err(
                    "unknown #[note(...)] key on a field — expected `wikilink` or `backlink`".to_owned(),
                );
            },
        }
        i += 1;
    }
    assert(keys@.take(i as int) =~= keys@);
    Ok(kind)
}

/// Finds the name of a field in the frontmatter.
pub fn serde_rename(name: &str, renames: &Vec<Vec<String>>) -> (r: String)
    ensures
        r@ == frontmatter_key(name@, renames@),
{
    let mut i: usize = 0;
    assert(renames@.skip(0) =~= renames@);
    while i < renames.len()
        invariant
            i <= renames.len(),
            frontmatter_key(name@, renames@) == frontmatter_key(name@, renames@.skip(i as int)),
        decreases renames.len() - i,
    {
        let group: &Vec<String> = &renames[i];
        assert(renames@.skip(i as int)[0] == renames@[i as int]);
        if group.len() > 0 {
            return group[group.len() - 1].clone();
        }
        assert(renames@.skip(i as int).skip(1) =~= renames@.skip(i + 1));
        i += 1;
    }
    name.to_owned()
}

/// What accessors, or the error, are.
pub open spec fn accessors_view(r: Result<Vec<Accessor>, String>) -> Result<
    Seq<(Seq<char>, Leads)>,
    Seq<char>,
> {
    match r {
        Ok(v) => Ok(accessor_views(v@)),
        Err(m) => Err(m@),
    }
}

/// Makes the accessors of what is declared.
pub fn field_accessors(shape: &Shape) -> (r: Result<Vec<Accessor>, String>)
    ensures
        accessors_view(r) == shape_accessors(*shape),
{
    let mut out: Vec<Accessor> = Vec::new();
    assert(accessor_views(out@) =~= seq![]);
    match shape {
        Shape::Unnamed => Err("derive(Note) requires a struct with named fields".to_owned()),
        Shape::Unit => Ok(out),
        Shape::Enum => Err("derive(Note) cannot be applied to an enum".to_owned()),
        Shape::Union => Err("derive(Note) cannot be applied to a union".to_owned()),
        Shape::Named(fields) => {
            let mut i: usize = 0;
            assert(fields@.take(0) =~= seq![]);
            while i < fields.len()
                invariant
                    *shape == Shape::Named(*fields),
                    i <= fields.len(),
                    accessors_of(fields@.take(i as int)) == Ok::<
                        Seq<(Seq<char>, Leads)>,
                        Seq<char>,
                    >(accessor_views(out@)),
                decreases fields.len() - i,
            {
                assert(fields@.take(i + 1).drop_last() =~= fields@.take(i as int));
                let target: Target = match relation_kind(&fields[i].keys) {
                    Ok(Some(t)) => t,
                    Ok(None) => Target::Field(
                        serde_rename(fields[i].name.as_str(), &fields[i].renames),
                    ),
                    Err(m) => {
                        proof {
                            lemma_accessors(fields@, i + 1);
                        }
                        return Err(m);
                    },
                };
                let a: Accessor = Accessor { name: fields[i].name.clone(), target };
                let ghost before = accessor_views(out@);
                out.push(a);
                assert(accessor_views(out@) =~= before.push((a.name@, a.target@)));
                i += 1;
            }
            assert(fields@.take(i as int) =~= fields@);
            Ok(out)
        },
    }
}

/// Makes what a declared model is given.
pub fn derive_note(d: &NoteDecl) -> (r: Result<NoteModel, String>)
    ensures
        model_view(r) == model_of(*d),
{
    let mut folder: Option<String> = None;
    let mut filter: Option<String> = None;
    let mut i: usize = 0;
    assert(d.keys@.take(0) =~= seq![]);
    while i < d.keys.len()
        invariant
            i <= d.keys.len(),
            note_keys(d.keys@.take(i as int)) == Ok::<
                (Option<Seq<char>>, Option<Seq<char>>),
                Seq<char>,
            >((crate::schema::text_view(folder), crate::schema::text_view(filter))),
        decreases d.keys.len() - i,
    {
        assert(d.keys@.take(i + 1).drop_last() =~= d.keys@.take(i as int));
        match &d.keys[i] {
            NoteKey::Folder(f) => {
                folder = Some(f.clone());
            },
            NoteKey::Filter(f) => {
                filter = Some(f.clone());
            },
            NoteKey::Unknown => {
                proof {
                    lemma_note_keys(d.keys@, i + 1);
                }
                return Err(
                    "unknown #[note(...)] key — expected `folder` or `filter`".to_owned(),
                );
            },
        }
        i += 1;
    }
    assert(d.keys@.take(i as int) =~= d.keys@);
    match folder {
        None => Err("missing required #[note(folder = \"...\")] on derive(Note)".to_owned()),
        Some(folder) => match field_accessors(&d.shape) {
            Ok(accessors) => Ok(NoteModel { folder, filter, accessors }),
            Err(m) => Err(m),
        },
    }
}

} // verus!
