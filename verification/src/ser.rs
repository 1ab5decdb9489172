//! The encoder: from a dynamic value to the document that writes it.

use vstd::prelude::*;
use vstd::string::*;
use crate::document::{documents_view, entries_view, Document, DocumentView};
use crate::encode::{
    encode, encoded, encoded_fields, frame, is_absent, name_documents, present, present_entries,
};
use crate::error::EncodeError;
use crate::float::{classify32, classify64, FloatClass};
use crate::sequence::{collect, lemma_collect_err, lemma_collect_ok};
use crate::val::{
    fields_view, lemma_list_view, lemma_record_view, lemma_tuple_view, vals_view, Val, ValView,
};

verus! {

/// Encodes the value that it holds.
pub struct SerializeVal<'a>(pub &'a Val);

/// The model of what encoding returns.
pub open spec fn encoded_view(r: Result<Document, EncodeError>) -> Result<
    DocumentView,
    EncodeError,
> {
    match r {
        Ok(d) => Ok(d@),
        Err(e) => Err(e),
    }
}

/// What a payload encodes to, where there is one.
pub open spec fn payload_encoded(val: Option<&Val>) -> Option<Result<DocumentView, EncodeError>> {
    match val {
        Some(v) => Some(encode(v@)),
        None => None,
    }
}

/// Frames a case: a keyed document of exactly one entry, the key with the
/// payload's document, or with the unit where there is no payload.
pub fn single_entry_map(key: &str, val: Option<&Val>) -> (r: Result<Document, EncodeError>)
    ensures
        encoded_view(r) == frame(key@, payload_encoded(val)),
    decreases val, 0nat,
{
    let doc = match val {
        Some(v) => match SerializeVal(v).serialize() {
            Ok(d) => d,
            Err(e) => {
                return Err(e);
            },
        },
        None => Document::Null,
    };
    let mut entries: Vec<(String, Document)> = Vec::new();
    entries.push((key.to_owned(), doc));
    proof {
        crate::document::lemma_entries_view(entries);
        assert(entries_view(entries) =~= seq![(key@, doc@)]);
    }
    Ok(Document::Entries(entries))
}

/// Encodes each value of a list or of a tuple, in order.
fn serialize_all(vals: &Vec<Val>) -> (r: Result<Vec<Document>, EncodeError>)
    ensures
        match r {
            Ok(docs) => collect(encoded(vals_view(*vals))) == Ok::<Seq<DocumentView>, EncodeError>(
                documents_view(docs),
            ),
            Err(e) => collect(encoded(vals_view(*vals))) == Err::<Seq<DocumentView>, EncodeError>(e),
        },
    decreases vals, 0nat,
{
    let ghost results = encoded(vals_view(*vals));
    let mut docs: Vec<Document> = Vec::new();
    let mut i: usize = 0;
    while i < vals.len()
        invariant
            i <= vals.len(),
            docs.len() == i,
            results == encoded(vals_view(*vals)),
            forall|j: int|
                0 <= j < i ==> (#[trigger] results[j]) == Ok::<DocumentView, EncodeError>(docs[j]@),
        decreases vals.len() - i,
    {
        match SerializeVal(&vals[i]).serialize() {
            Ok(d) => docs.push(d),
            Err(e) => {
                proof {
                    lemma_collect_err(results, i as int);
                }
                return Err(e);
            },
        }
        i += 1;
    }
    proof {
        lemma_collect_ok(results);
        assert(documents_view(docs) =~= Seq::new(results.len(), |i: int| results[i]->Ok_0));
    }
    Ok(docs)
}

/// Dropping the last field drops its index, if it was written.
proof fn lemma_present_push(fields: Seq<(Seq<char>, ValView)>, k: int)
    requires
        0 <= k < fields.len(),
    ensures
        present(fields.take(k + 1)) == if is_absent(fields[k].1) {
            present(fields.take(k))
        } else {
            present(fields.take(k)).push(k)
        },
{
    assert(fields.take(k + 1).drop_last() =~= fields.take(k));
}

/// The written indices of a prefix are indices of the prefix.
proof fn lemma_present_bound(fields: Seq<(Seq<char>, ValView)>)
    ensures
        forall|i: int|
            0 <= i < present(fields).len() ==> 0 <= #[trigger] present(fields)[i] < fields.len(),
    decreases fields.len(),
{
    if fields.len() > 0 {
        let rest = present(fields.drop_last());
        lemma_present_bound(fields.drop_last());
        assert forall|i: int| 0 <= i < present(fields).len() implies 0 <= #[trigger] present(
            fields,
        )[i] < fields.len() by {
            if i < rest.len() {
                assert(present(fields)[i] == rest[i]);
            }
        }
    }
}

/// Encodes the fields of a record that are written, in declaration order.
#[verifier::rlimit(50)]
fn serialize_fields(fields: &Vec<(String, Val)>) -> (r: Result<Vec<(String, Document)>, EncodeError>)
    ensures
        match r {
            Ok(entries) => match collect(encoded_fields(fields_view(*fields))) {
                Ok(docs) => entries_view(entries) == present_entries(fields_view(*fields), docs),
                Err(_) => false,
            },
            Err(e) => collect(encoded_fields(fields_view(*fields))) == Err::<
                Seq<DocumentView>,
                EncodeError,
            >(e),
        },
    decreases fields, 0nat,
{
    let ghost fs = fields_view(*fields);
    let ghost results = encoded_fields(fs);
    let ghost docs = Seq::new(results.len(), |i: int| results[i]->Ok_0);
    let mut entries: Vec<(String, Document)> = Vec::new();
    let mut k: usize = 0;
    while k < fields.len()
        invariant
            k <= fields.len(),
            fs == fields_view(*fields),
            results == encoded_fields(fs),
            docs == Seq::new(results.len(), |i: int| results[i]->Ok_0),
            forall|j: int| 0 <= j < k ==> (#[trigger] results[j]) is Ok,
            entries_view(entries) == present_entries(fs.take(k as int), docs),
        decreases fields.len() - k,
    {
        let ghost before = entries_view(entries);
        proof {
            lemma_present_push(fs, k as int);
            lemma_present_bound(fs.take(k as int));
        }
        let absent = match &fields[k].1 {
            Val::Option(None) => true,
            _ => false,
        };
        assert(absent == is_absent(fs[k as int].1));
        if !absent {
            match SerializeVal(&fields[k].1).serialize() {
                Ok(d) => {
                    entries.push((fields[k].0.clone(), d));
                    assert(entries_view(entries) =~= before.push((fs[k as int].0, docs[k as int])));
                    assert(present_entries(fs.take(k + 1), docs) =~= before.push(
                        (fs[k as int].0, docs[k as int]),
                    ));
                },
                Err(e) => {
                    proof {
                        lemma_collect_err(results, k as int);
                    }
                    return Err(e);
                },
            }
        } else {
            assert(present_entries(fs.take(k + 1), docs) =~= before);
        }
        k += 1;
    }
    proof {
        assert(fs.take(fields.len() as int) =~= fs);
        lemma_collect_ok(results);
    }
    Ok(entries)
}

impl<'a> SerializeVal<'a> {
    /// Encodes the value.
    ///
    /// Fails exactly when the value holds a resource.
    #[verifier::rlimit(50)]
    pub fn serialize(&self) -> (r: Result<Document, EncodeError>)
        ensures
            encoded_view(r) == encode(self.0@),
        decreases *self.0, 1nat,
    {
        match self.0 {
            Val::Bool(v) => Ok(Document::Bool(*v)),
            Val::S8(v) => Ok(Document::Signed(*v as i64)),
            Val::U8(v) => Ok(Document::Unsigned(*v as u64)),
            Val::S16(v) => Ok(Document::Signed(*v as i64)),
            Val::U16(v) => Ok(Document::Unsigned(*v as u64)),
            Val::S32(v) => Ok(Document::Signed(*v as i64)),
            Val::U32(v) => Ok(Document::Unsigned(*v as u64)),
            Val::S64(v) => Ok(Document::Signed(*v)),
            Val::U64(v) => Ok(Document::Unsigned(*v)),
            Val::Float32(bits) => Ok(
                match classify32(*bits) {
                    FloatClass::Nan => Document::String("NaN".to_owned()),
                    FloatClass::Infinity => Document::String("Infinity".to_owned()),
                    FloatClass::NegInfinity => Document::String("-Infinity".to_owned()),
                    FloatClass::Finite => Document::Float32(*bits),
                },
            ),
            Val::Float64(bits) => Ok(
                match classify64(*bits) {
                    FloatClass::Nan => Document::String("NaN".to_owned()),
                    FloatClass::Infinity => Document::String("Infinity".to_owned()),
                    FloatClass::NegInfinity => Document::String("-Infinity".to_owned()),
                    FloatClass::Finite => Document::Float64(*bits),
                },
            ),
            Val::Char(v) => Ok(Document::Char(*v)),
            Val::String(v) => Ok(Document::String(v.clone())),
            Val::List(vals) => {
                proof {
                    lemma_list_view(*vals);
                }
                match serialize_all(vals) {
                    Ok(docs) => {
                        proof {
                            crate::document::lemma_list_view(docs);
                        }
                        Ok(Document::List(docs))
                    },
                    Err(e) => Err(e),
                }
            },
            Val::Record(fields) => {
                proof {
                    lemma_record_view(*fields);
                }
                match serialize_fields(fields) {
                    Ok(entries) => {
                        proof {
                            crate::document::lemma_entries_view(entries);
                        }
                        Ok(Document::Entries(entries))
                    },
                    Err(e) => Err(e),
                }
            },
            Val::Tuple(vals) => {
                proof {
                    lemma_tuple_view(*vals);
                }
                match serialize_all(vals) {
                    Ok(docs) => {
                        proof {
                            crate::document::lemma_list_view(docs);
                        }
                        Ok(Document::List(docs))
                    },
                    Err(e) => Err(e),
                }
            },
            Val::Variant(name, payload) => {
                let val: Option<&Val> = match payload {
                    Some(p) => Some(&**p),
                    None => None,
                };
                single_entry_map(name.as_str(), val)
            },
            Val::Enum(name) => Ok(Document::String(name.clone())),
            Val::Option(None) => Ok(Document::Absent),
            Val::Option(Some(inner)) => match **inner {
                Val::Option(_) => {
                    assert((**inner)@ is Option);
                    single_entry_map("value", Some(&**inner))
                },
                _ => {
                    assert(!((**inner)@ is Option));
                    match SerializeVal(&**inner).serialize() {
                        Ok(d) => Ok(Document::Present(Box::new(d))),
                        Err(e) => Err(e),
                    }
                },
            },
            Val::Result(Ok(payload)) => {
                let val: Option<&Val> = match payload {
                    Some(p) => Some(&**p),
                    None => None,
                };
                single_entry_map("result", val)
            },
            Val::Result(Err(payload)) => {
                let val: Option<&Val> = match payload {
                    Some(p) => Some(&**p),
                    None => None,
                };
                single_entry_map("error", val)
            },
            Val::Flags(names) => {
                let mut docs: Vec<Document> = Vec::new();
                let mut i: usize = 0;
                while i < names.len()
                    invariant
                        i <= names.len(),
                        docs.len() == i,
                        forall|j: int|
                            0 <= j < i ==> (#[trigger] docs[j])@ == DocumentView::String(names[j]@),
                    decreases names.len() - i,
                {
                    docs.push(Document::String(names[i].clone()));
                    i += 1;
                }
                proof {
                    crate::document::lemma_list_view(docs);
                    assert(documents_view(docs) =~= name_documents(self.0@->Flags_0));
                }
                Ok(Document::List(docs))
            },
            Val::Resource(_) => Err(EncodeError::UnsupportedValue),
        }
    }
}

} // verus!
