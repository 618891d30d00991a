//! What declared models promise.

use crate::orm::{
    accessors_of, frontmatter_key, model_of, note_keys, relation, FieldDecl, FieldKey, Leads, Model,
    NoteDecl, NoteKey, Shape,
};
use vstd::prelude::*;

verus! {

/// The last folder and the last condition that attributes name count, and an attribute that is
/// neither makes the declaration wrong.
pub proof fn law_attributes_of_models(keys: Seq<NoteKey>, text: String)
    requires
        note_keys(keys) is Ok,
    ensures
        note_keys(Seq::empty()) == Ok::<(Option<Seq<char>>, Option<Seq<char>>), Seq<char>>(
            (None, None),
        ),
        note_keys(keys.push(NoteKey::Folder(text))) == Ok::<
            (Option<Seq<char>>, Option<Seq<char>>),
            Seq<char>,
        >((Some(text@), note_keys(keys)->Ok_0.1)),
        note_keys(keys.push(NoteKey::Filter(text))) == Ok::<
            (Option<Seq<char>>, Option<Seq<char>>),
            Seq<char>,
        >((note_keys(keys)->Ok_0.0, Some(text@))),
        note_keys(keys.push(NoteKey::Unknown)) is Err,
{
    assert(keys.push(NoteKey::Folder(text)).drop_last() =~= keys);
    assert(keys.push(NoteKey::Filter(text)).drop_last() =~= keys);
    assert(keys.push(NoteKey::Unknown).drop_last() =~= keys);
}

/// The last attribute of a field says whether it leads to the notes that are linked to or to
/// those that link here; one that is neither makes the declaration wrong.
pub proof fn law_attributes_of_fields(keys: Seq<FieldKey>)
    requires
        relation(keys) is Ok,
    ensures
        relation(Seq::empty()) == Ok::<Option<Leads>, Seq<char>>(None),
        relation(keys.push(FieldKey::Wikilink)) == Ok::<Option<Leads>, Seq<char>>(
            Some(Leads::Outgoing),
        ),
        relation(keys.push(FieldKey::Backlink)) == Ok::<Option<Leads>, Seq<char>>(
            Some(Leads::Incoming),
        ),
        relation(keys.push(FieldKey::Unknown)) is Err,
{
    assert(keys.push(FieldKey::Wikilink).drop_last() =~= keys);
    assert(keys.push(FieldKey::Backlink).drop_last() =~= keys);
    assert(keys.push(FieldKey::Unknown).drop_last() =~= keys);
}

/// A field has in the frontmatter the name that the first group of names gives it last, or its
/// own where no group gives one.
pub proof fn law_names_in_frontmatter(
    name: Seq<char>,
    renames: Seq<Vec<String>>,
    group: Vec<String>,
)
    ensures
        frontmatter_key(name, Seq::empty()) == name,
        group@.len() > 0 ==> frontmatter_key(name, seq![group] + renames) == group@.last()@,
        group@.len() == 0 ==> frontmatter_key(name, seq![group] + renames) == frontmatter_key(
            name,
            renames,
        ),
{
    let all = seq![group] + renames;
    assert(all[0] == group);
    assert(all.skip(1) =~= renames);
}

/// Each field of a model has an accessor of its name, which leads where its attributes say, or
/// to the field of its name in the frontmatter.
pub proof fn law_accessors(fields: Seq<FieldDecl>, f: FieldDecl)
    requires
        accessors_of(fields) is Ok,
    ensures
        accessors_of(Seq::empty()) == Ok::<Seq<(Seq<char>, Leads)>, Seq<char>>(seq![]),
        relation(f.keys@) == Ok::<Option<Leads>, Seq<char>>(None) ==> accessors_of(fields.push(f))
            == Ok::<Seq<(Seq<char>, Leads)>, Seq<char>>(
            accessors_of(fields)->Ok_0.push(
                (f.name@, Leads::Field(frontmatter_key(f.name@, f.renames@))),
            ),
        ),
        relation(f.keys@) == Ok::<Option<Leads>, Seq<char>>(Some(Leads::Outgoing)) ==> accessors_of(
            fields.push(f),
        ) == Ok::<Seq<(Seq<char>, Leads)>, Seq<char>>(
            accessors_of(fields)->Ok_0.push((f.name@, Leads::Outgoing)),
        ),
        relation(f.keys@) == Ok::<Option<Leads>, Seq<char>>(Some(Leads::Incoming)) ==> accessors_of(
            fields.push(f),
        ) == Ok::<Seq<(Seq<char>, Leads)>, Seq<char>>(
            accessors_of(fields)->Ok_0.push((f.name@, Leads::Incoming)),
        ),
        relation(f.keys@) is Err ==> accessors_of(fields.push(f)) is Err,
{
    assert(fields.push(f).drop_last() =~= fields);
}

/// A model has the folder, the condition and the accessors that are declared; a declaration
/// without a folder, or of anything but fields with names or none, is wrong.
pub proof fn law_models(d: NoteDecl, fields: Vec<FieldDecl>)
    requires
        note_keys(d.keys@) is Ok,
    ensures
        note_keys(d.keys@)->Ok_0.0 is None ==> model_of(d) is Err,
        note_keys(d.keys@)->Ok_0.0 is Some && d.shape == Shape::Named(fields) && accessors_of(
            fields@,
        ) is Ok ==> model_of(d) == Ok::<Model, Seq<char>>(
            Model {
                folder: note_keys(d.keys@)->Ok_0.0->0,
                filter: note_keys(d.keys@)->Ok_0.1,
                accessors: accessors_of(fields@)->Ok_0,
            },
        ),
        d.shape is Unnamed || d.shape is Enum || d.shape is Union ==> model_of(d) is Err,
        d.shape is Unit && note_keys(d.keys@)->Ok_0.0 is Some ==> model_of(d) is Ok
            && model_of(d)->Ok_0.accessors.len() == 0,
{
}

} // verus!
