//! The documents of the store, as the client library holds them.
//!
//! `Documents` is the client library's collection, one record for each
//! identifier. Nothing here looks inside it: what it holds is named by
//! `records`, and the functions below hand out plain copies of its records.

use crate::ident::Timestamp;
use remarkable_cloud_api::Documents;
use uuid::Uuid;
use vstd::prelude::*;

verus! {

/// `remarkable_cloud_api::Documents`, taken as it is.
#[verifier::external_type_specification]
#[verifier::external_body]
pub struct ExDocuments(Documents);

/// One record of the store, as plain values.
#[derive(Debug, PartialEq, Eq)]
pub struct DocumentRecord {
    pub id: u128,
    pub name: String,
    /// The folder the record lies in; `None` at the top level.
    pub parent: Option<u128>,
    /// The type tag: `CollectionType` for a folder, `DocumentType` for a document.
    pub doc_type: String,
    pub modified_at: Timestamp,
}

/// The mathematical value of a `DocumentRecord`.
pub ghost struct RecordView {
    pub id: u128,
    pub name: Seq<char>,
    pub parent: Option<u128>,
    pub doc_type: Seq<char>,
    pub modified_at: Timestamp,
}

impl View for DocumentRecord {
    type V = RecordView;

    open spec fn view(&self) -> RecordView {
        RecordView {
            id: self.id,
            name: self.name@,
            parent: self.parent,
            doc_type: self.doc_type@,
            modified_at: self.modified_at,
        }
    }
}

/// What a `Documents` holds: its records by identifier. An identifier is the
/// number of the UUID (`Uuid::as_u128`), a modification time the seconds and
/// nanoseconds of the `DateTime` (`timestamp`, `timestamp_subsec_nanos`).
pub uninterp spec fn records(docs: Documents) -> Map<u128, RecordView>;

/// Whether `rec` is a record of `held` that lies in `parent`.
pub open spec fn is_child(held: Map<u128, RecordView>, parent: Option<u128>, rec: RecordView) -> bool {
    held.contains_key(rec.id) && held[rec.id] == rec && rec.parent == parent
}

/// `Documents::len`: how many records the collection holds.
#[verifier::external_body]
pub(crate) fn count(docs: &Documents) -> (r: usize)
    ensures
        r == records(*docs).dom().len(),
{
    docs.len()
}

/// `Documents::get`: a copy of the record with the identifier `id`, if the
/// collection holds one. A record is held under its own identifier.
#[verifier::external_body]
pub(crate) fn lookup(docs: &Documents, id: u128) -> (r: Option<DocumentRecord>)
    ensures
        match r {
            Some(rec) => records(*docs).contains_key(id) && rec@ == records(*docs)[id] && rec.id
                == id,
            None => !records(*docs).contains_key(id),
        },
{
    match docs.get(&Uuid::from_u128(id)) {
        Some(d) => Some(
            DocumentRecord {
                id: d.id.as_u128(),
                name: d.visible_name.clone(),
                parent: d.parent.map(|p| p.as_u128()),
                doc_type: d.doc_type.clone(),
                modified_at: Timestamp {
                    secs: d.modified_client.timestamp(),
                    nanos: d.modified_client.timestamp_subsec_nanos(),
                },
            },
        ),
        None => None,
    }
}

/// `Documents::get_children`: a copy of every record that lies in `parent`,
/// each once. The collection walks a hash map, so the order of the result is
/// whatever that walk gives, and may differ from call to call.
#[verifier::external_body]
pub(crate) fn children(docs: &Documents, parent: Option<u128>) -> (r: Vec<DocumentRecord>)
    ensures
        forall|i: int| 0 <= i < r.len() ==> is_child(records(*docs), parent, #[trigger] r[i]@),
        forall|i: int, j: int| 0 <= i < j < r.len() ==> r[i].id != r[j].id,
        forall|id: u128|
            records(*docs).contains_key(id) && (#[trigger] records(*docs)[id]).parent == parent
                ==> exists|i: int| 0 <= i < r.len() && r[i].id == id,
{
    docs.get_children(&parent.map(Uuid::from_u128)).into_iter().map(
        |d| DocumentRecord {
            id: d.id.as_u128(),
            name: d.visible_name.clone(),
            parent: d.parent.map(|p| p.as_u128()),
            doc_type: d.doc_type.clone(),
            modified_at: Timestamp {
                secs: d.modified_client.timestamp(),
                nanos: d.modified_client.timestamp_subsec_nanos(),
            },
        },
    ).collect()
}

} // verus!
