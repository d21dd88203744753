//! The shapes in which documents leave and enter the store: the
//! whole-database tree and the size of insert batches.
use vstd::prelude::*;
use crate::encode::{encode_document, encode_entries, text};
use crate::value::{entries_view, has_symbol, pairs_view, Document, Yaml, YamlView};

verus! {

/// The collection whose inserts go one document at a time.
pub open spec fn index_collection() -> Seq<char> {
    "system.indexes"@
}

/// How many documents go to the store in one insert call.
pub fn insert_batch_size(coll_name: &str) -> (r: usize)
    ensures
        r == if coll_name@ == index_collection() {
            1usize
        } else {
            1000usize
        },
{
    let name = coll_name.to_owned();
    let special = "system.indexes".to_owned();
    if name.eq(&special) {
        1
    } else {
        1000
    }
}

/// Whether no document of any collection holds a `Symbol`.
pub open spec fn collections_encodable(colls: Seq<(String, Vec<Document>)>) -> bool {
    forall|i: int, j: int, k: int|
        0 <= i < colls.len() && 0 <= j < colls[i].1@.len() && 0 <= k < colls[i].1@[j]@.len()
            ==> !has_symbol(#[trigger] colls[i].1@[j]@[k].1@)
}

/// The sequence of a collection's encoded documents.
pub open spec fn documents_view(docs: Seq<Document>) -> YamlView {
    YamlView::Sequence(
        Seq::new(docs.len(), |j: int| YamlView::Mapping(encode_entries(entries_view(docs[j]@)))),
    )
}

/// The whole-database tree: one key per collection, in the given order, each
/// mapped to the sequence of its encoded documents, in order.
pub open spec fn collections_view(colls: Seq<(String, Vec<Document>)>) -> YamlView {
    YamlView::Mapping(
        Seq::new(colls.len(), |i: int| (text(colls[i].0@), documents_view(colls[i].1@))),
    )
}

fn documents_to_yaml(docs: &Vec<Document>) -> (r: Yaml)
    requires
        forall|j: int, k: int|
            0 <= j < docs@.len() && 0 <= k < docs@[j]@.len() ==> !has_symbol(
                #[trigger] docs@[j]@[k].1@,
            ),
    ensures
        r@ == documents_view(docs@),
{
    let mut out: Vec<Yaml> = Vec::new();
    let mut j: usize = 0;
    while j < docs.len()
        invariant
            j <= docs@.len(),
            out@.len() == j,
            forall|j: int, k: int|
                0 <= j < docs@.len() && 0 <= k < docs@[j]@.len() ==> !has_symbol(
                    #[trigger] docs@[j]@[k].1@,
                ),
            forall|i: int|
                0 <= i < j ==> (#[trigger] out@[i])@ == YamlView::Mapping(
                    encode_entries(entries_view(docs@[i]@)),
                ),
        decreases docs@.len() - j,
    {
        let pairs = encode_document(&docs[j]);
        let ghost pv = pairs_view(pairs@);
        let node = Yaml::Mapping(pairs);
        assert(node@ == YamlView::Mapping(pv));
        out.push(node);
        j = j + 1;
    }
    let r = Yaml::Sequence(out);
    assert(r@->Sequence_0 =~= documents_view(docs@)->Sequence_0);
    r
}

/// Encodes whole collections as one mapping from collection name to the
/// sequence of its documents.
pub fn collections_to_yaml(colls: &Vec<(String, Vec<Document>)>) -> (r: Yaml)
    requires
        collections_encodable(colls@),
    ensures
        r@ == collections_view(colls@),
{
    let mut out: Vec<(Yaml, Yaml)> = Vec::new();
    let mut i: usize = 0;
    while i < colls.len()
        invariant
            i <= colls@.len(),
            out@.len() == i,
            collections_encodable(colls@),
            forall|k: int|
                0 <= k < i ==> (#[trigger] out@[k]).0@ == text(colls@[k].0@) && out@[k].1@
                    == documents_view(colls@[k].1@),
        decreases colls@.len() - i,
    {
        let key = Yaml::String(colls[i].0.clone());
        let docs = documents_to_yaml(&colls[i].1);
        out.push((key, docs));
        i = i + 1;
    }
    let r = Yaml::Mapping(out);
    assert(r@->Mapping_0 =~= collections_view(colls@)->Mapping_0);
    r
}

} // verus!
