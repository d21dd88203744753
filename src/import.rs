//! Reading exported text trees back into documents: one document per line,
//! or a whole database as a mapping from collection name to documents.
use vstd::prelude::*;
use crate::decode::{convert_mapping_to_bson_document, decode_entries};
use crate::error::{Error, ErrorType};
use crate::value::{fields_distinct, entries_view, nodes_view, pairs_view, BsonView, Document, Yaml, YamlView};

verus! {

/// The document a mapping stands for; its own keys are fields, never tags.
pub open spec fn document_of(y: YamlView) -> Option<Seq<(Seq<char>, BsonView)>> {
    match y {
        YamlView::Mapping(m) => decode_entries(m),
        _ => None,
    }
}

/// Whether the node under each collection name is a sequence of documents.
pub open spec fn collections_readable(m: Seq<(YamlView, YamlView)>) -> bool {
    forall|i: int|
        #![trigger m[i]]
        0 <= i < m.len() ==> m[i].0 is String && m[i].1 is Sequence && forall|j: int|
            #![trigger m[i].1->Sequence_0[j]]
            0 <= j < m[i].1->Sequence_0.len() ==> document_of(m[i].1->Sequence_0[j]) is Some
}

/// The collections a whole-database tree stands for, in order.
pub open spec fn collections_of(y: YamlView) -> Option<
    Seq<(Seq<char>, Seq<Seq<(Seq<char>, BsonView)>>)>,
> {
    match y {
        YamlView::Mapping(m) => if collections_readable(m) {
            Some(
                Seq::new(
                    m.len(),
                    |i: int|
                        (
                            m[i].0->String_0,
                            Seq::new(
                                m[i].1->Sequence_0.len(),
                                |j: int| document_of(m[i].1->Sequence_0[j])->0,
                            ),
                        ),
                ),
            )
        } else {
            None
        },
        _ => None,
    }
}

fn shape_error(message: &'static str) -> (r: Error)
    ensures
        r.err_type == ErrorType::ConversionError,
{
    Error::coversion_error(message)
}

/// Reads one exported document.
pub fn yaml_to_document(yaml: &Yaml) -> (r: Result<Document, Error>)
    ensures
        match r {
            Ok(d) => document_of(yaml@) == Some(entries_view(d@)) && fields_distinct(
                entries_view(d@),
            ),
            Err(e) => document_of(yaml@) is None && e.err_type == ErrorType::ConversionError,
        },
{
    match yaml {
        Yaml::Mapping(m) => convert_mapping_to_bson_document(m),
        _ => Err(shape_error("Invalid JSON object in file")),
    }
}

fn read_documents(nodes: &Vec<Yaml>) -> (r: Result<Vec<Document>, Error>)
    ensures
        match r {
            Ok(docs) => docs@.len() == nodes@.len() && forall|j: int|
                0 <= j < nodes@.len() ==> document_of(#[trigger] nodes@[j]@) == Some(
                    entries_view(docs@[j]@),
                ),
            Err(e) => (exists|j: int|
                0 <= j < nodes@.len() && document_of(#[trigger] nodes@[j]@) is None)
                && e.err_type == ErrorType::ConversionError,
        },
{
    let mut docs: Vec<Document> = Vec::new();
    let mut j: usize = 0;
    while j < nodes.len()
        invariant
            j <= nodes@.len(),
            docs@.len() == j,
            forall|k: int|
                0 <= k < j ==> document_of(#[trigger] nodes@[k]@) == Some(entries_view(docs@[k]@)),
        decreases nodes@.len() - j,
    {
        match &nodes[j] {
            Yaml::Mapping(m) => match convert_mapping_to_bson_document(m) {
                Ok(d) => docs.push(d),
                Err(e) => {
                    assert(document_of(nodes@[j as int]@) is None);
                    return Err(e);
                },
            },
            _ => {
                assert(document_of(nodes@[j as int]@) is None);
                return Err(shape_error("Invalid JSON object in collection array"));
            },
        }
        j = j + 1;
    }
    Ok(docs)
}

/// Reads a whole-database tree: a mapping from collection name to the
/// sequence of its documents.
pub fn yaml_to_collections(yaml: &Yaml) -> (r: Result<Vec<(String, Vec<Document>)>, Error>)
    ensures
        match r {
            Ok(c) => collections_of(yaml@) is Some && {
                let want = collections_of(yaml@)->0;
                &&& c@.len() == want.len()
                &&& forall|i: int|
                    0 <= i < want.len() ==> (#[trigger] c@[i]).0@ == want[i].0 && c@[i].1@.len()
                        == want[i].1.len() && forall|j: int|
                        0 <= j < want[i].1.len() ==> entries_view(#[trigger] c@[i].1@[j]@)
                            == want[i].1[j]
            },
            Err(e) => collections_of(yaml@) is None && e.err_type == ErrorType::ConversionError,
        },
{
    let m = match yaml {
        Yaml::Mapping(m) => m,
        _ => {
            return Err(shape_error("Invalid top-level JSON object in file"));
        },
    };
    let ghost pm = pairs_view(m@);
    let mut out: Vec<(String, Vec<Document>)> = Vec::new();
    let mut i: usize = 0;
    while i < m.len()
        invariant
            i <= m@.len(),
            pm == pairs_view(m@),
            yaml@ == YamlView::Mapping(pm),
            out@.len() == i,
            forall|k: int|
                #![trigger pm[k]]
                0 <= k < i ==> pm[k].0 is String && pm[k].1 is Sequence && out@[k].0@
                    == pm[k].0->String_0 && out@[k].1@.len() == pm[k].1->Sequence_0.len()
                    && forall|j: int|
                    #![trigger pm[k].1->Sequence_0[j]]
                    0 <= j < pm[k].1->Sequence_0.len() ==> document_of(pm[k].1->Sequence_0[j])
                        == Some(entries_view(out@[k].1@[j]@)),
        decreases m@.len() - i,
    {
        let name = match &m[i].0 {
            Yaml::String(k) => k.clone(),
            _ => {
                assert(!collections_readable(pm)) by {
                    assert(!(pm[i as int].0 is String));
                }
                return Err(shape_error("Unable to convert YAML mapping with non-string keys"));
            },
        };
        let nodes = match &m[i].1 {
            Yaml::Sequence(s) => s,
            _ => {
                assert(!collections_readable(pm)) by {
                    assert(!(pm[i as int].1 is Sequence));
                }
                return Err(shape_error("Invalid JSON array as value of top-level object"));
            },
        };
        let ghost seq_view = pm[i as int].1->Sequence_0;
        assert(pm[i as int].1 == m@[i as int].1@);
        assert(seq_view == nodes_view(nodes@));
        match read_documents(nodes) {
            Ok(docs) => {
                assert forall|j: int| 0 <= j < seq_view.len() implies document_of(#[trigger] seq_view[j])
                    == Some(entries_view(docs@[j]@)) by {
                    assert(seq_view[j] == nodes@[j]@);
                }
                out.push((name, docs));
            },
            Err(e) => {
                assert(!collections_readable(pm)) by {
                    let j = choose|j: int| 0 <= j < nodes@.len() && document_of(#[trigger] nodes@[j]@) is None;
                    assert(seq_view[j] == nodes@[j]@);
                    assert(pm[i as int].1->Sequence_0[j] == seq_view[j]);
                }
                return Err(e);
            },
        }
        i = i + 1;
    }
    assert(collections_readable(pm));
    Ok(out)
}

} // verus!
