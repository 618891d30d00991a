//! The tools `schema_show` and `schema_infer`.

use crate::error::Failure;
use crate::mcp::params::{SchemaInferParams, SchemaShowParams};
use crate::mcp::server::{invalid, invalid_because, Refusal, ToolError};
use crate::path::below;
use crate::record::with_entry;
use crate::schema::{
    collection_views, copy_collection, in_folder, infer_schema, inferred, pair_views, schema_path,
    CollectionRule, CollectionSchema, VaultSchema,
};
use crate::text::{lemma_text_order, order_texts, Order};
use crate::tree::{has_folder, notes_in, Picture, Tree};
use crate::vault::{loaded, Vault};
use vstd::prelude::*;

verus! {

/// The schema of a vault, and where it lies.
#[derive(Debug, PartialEq, Eq)]
pub struct SchemaShowOutput {
    pub path: String,
    pub schema: VaultSchema,
}

/// Copies collections.
fn copy_all(v: &Vec<&(String, CollectionSchema)>) -> (r: Vec<(String, CollectionSchema)>)
    ensures
        collection_views(r@) == pair_views(v@),
{
    let ghost all = pair_views(v@);
    let mut out: Vec<(String, CollectionSchema)> = Vec::new();
    let mut i: usize = 0;
    assert(collection_views(out@) =~= all.take(0));
    while i < v.len()
        invariant
            all == pair_views(v@),
            i <= v.len(),
            collection_views(out@) == all.take(i as int),
        decreases v.len() - i,
    {
        let x: (String, CollectionSchema) = (v[i].0.clone(), copy_collection(&v[i].1));
        let ghost before = collection_views(out@);
        out.push(x);
        assert(collection_views(out@) =~= before.push((x.0@, x.1@)));
        i += 1;
        assert(collection_views(out@) =~= all.take(i as int));
    }
    assert(all.take(i as int) =~= all);
    out
}

/// The tool `schema_show`: the collections of a folder and of those below it, or all
/// of them.
pub fn schema_show(vault: &Vault, params: &SchemaShowParams, full: VaultSchema) -> (r:
    SchemaShowOutput)
    ensures
        r.path@ == below(vault.root@, "vaultdb-schema.yaml"@),
        collection_views(r.schema.collections@) == match params.folder {
            Some(f) => in_folder(collection_views(full.collections@), f@),
            None => collection_views(full.collections@),
        },
{
    let path: String = schema_path(vault.root.as_str());
    match &params.folder {
        Some(f) => SchemaShowOutput {
            path,
            schema: VaultSchema {
                collections: copy_all(&full.collections_for_folder(f.as_str())),
            },
        },
        None => SchemaShowOutput { path, schema: full },
    }
}

/// The collection that the tool `schema_infer` finds.
pub open spec fn infer_answer(
    p: Picture,
    root: Seq<char>,
    folder: Seq<char>,
    recursive: bool,
) -> Result<CollectionRule, Refusal> {
    if !has_folder(p, below(root, folder)) {
        Err(invalid_because("resolve_folder"@, Failure::FolderNotFound(folder)))
    } else {
        match loaded(notes_in(p.files, below(root, folder), recursive), false) {
            Err(e) => Err(invalid_because("load_records"@, e)),
            Ok((rs, _)) => Ok(inferred(folder, rs)),
        }
    }
}

/// The tool `schema_infer`: the collection that the notes of a folder make up.
pub fn schema_infer(vault: &Vault, tree: &Tree, params: &SchemaInferParams) -> (r: Result<
    CollectionSchema,
    ToolError,
>)
    ensures
        match r {
            Ok(c) => infer_answer(tree@, vault.root@, params.folder@, params.recursive) == Ok::<
                CollectionRule,
                Refusal,
            >(c@),
            Err(e) => infer_answer(tree@, vault.root@, params.folder@, params.recursive) == Err::<
                CollectionRule,
                Refusal,
            >(e@),
        },
{
    let path: String = match vault.resolve_folder(params.folder.as_str(), tree) {
        Ok(p) => p,
        Err(e) => {
            return Err(invalid("resolve_folder", &e));
        },
    };
    match vault.load_records(path.as_str(), params.recursive, tree) {
        Ok(l) => Ok(infer_schema(params.folder.as_str(), &l.records)),
        Err(e) => Err(invalid("load_records", &e)),
    }
}

/// A schema with a collection: it is added, or replaces the one of its name.
pub fn merge_collection(full: Option<VaultSchema>, folder: &str, collection: &CollectionSchema) -> (r:
    VaultSchema)
    ensures
        collection_views(r.collections@) == with_entry(
            match full {
                Some(s) => collection_views(s.collections@),
                None => seq![],
            },
            folder@,
            collection@,
        ),
{
    let mut m: Vec<(String, CollectionSchema)> = match full {
        Some(s) => s.collections,
        None => Vec::new(),
    };
    let ghost before = collection_views(m@);
    assert(full is None ==> before =~= seq![]);
    let ghost v = collection@;
    let mut i: usize = 0;
    assert(before.skip(0) =~= before);
    assert(before.take(0) + with_entry(before.skip(0), folder@, v) =~= with_entry(
        before,
        folder@,
        v,
    ));
    let mut same: bool = false;
    while i < m.len() && !same && order_texts(folder, m[i].0.as_str()) != Order::Less
        invariant
            i <= m.len(),
            same ==> i < m.len() && before[i as int].0 == folder@,
            collection_views(m@) == before,
            before.take(i as int) + with_entry(before.skip(i as int), folder@, v) == with_entry(
                before,
                folder@,
                v,
            ),
        decreases m.len() - i, if same { 0nat } else { 1nat },
    {
        let ghost rest = before.skip(i as int);
        assert(rest[0] == before[i as int]);
        proof {
            lemma_text_order(folder@, before[i as int].0);
        }
        if order_texts(folder, m[i].0.as_str()) == Order::Equal {
            same = true;
        } else {
            proof {
                assert(rest.skip(1) =~= before.skip(i + 1));
                assert(before.take(i as int) + (seq![rest[0]] + with_entry(
                    rest.skip(1),
                    folder@,
                    v,
                )) =~= before.take(i + 1) + with_entry(before.skip(i + 1), folder@, v));
            }
            i += 1;
        }
    }
    let ghost rest = before.skip(i as int);
    if same {
        assert(rest[0] == before[i as int]);
        m.remove(i);
        assert(collection_views(m@) =~= before.take(i as int) + rest.skip(1));
    } else if i < m.len() {
        assert(rest[0] == before[i as int]);
        proof {
            lemma_text_order(folder@, before[i as int].0);
        }
    } else {
        assert(rest =~= seq![]);
    }
    m.insert(i, (folder.to_owned(), copy_collection(collection)));
    proof {
        if same {
            assert(collection_views(m@) =~= before.take(i as int) + (seq![(folder@, v)]
                + rest.skip(1)));
        } else {
            assert(collection_views(m@) =~= before.take(i as int) + (seq![(folder@, v)] + rest));
        }
    }
    VaultSchema { collections: m }
}

/// What the tool `schema_infer` answers: the collection, its rendering, and where it
/// was written to.
#[derive(Debug, PartialEq, Eq)]
pub struct SchemaInferOutput {
    pub folder: String,
    pub schema: CollectionSchema,
    pub yaml: String,
    pub written_to: Option<String>,
}

} // verus!
