//! Building the manifest from the documents of the store.
//!
//! The site root is a folder, given by its identifier or by its name at the
//! top level. Directly in it lie the documents `Home` and `Logo` and the
//! folder `Posts`, one of each; what lies below `Posts` becomes the tree of
//! posts. Whatever is missing, or there more than once, fails the build.

use crate::ident::{parse_id, uuid_parse};
use crate::manifest::{DocView, DocumentMeta, Manifest, ManifestView, Posts, PostsView};
use crate::records::{children, count, is_child, lookup, records, DocumentRecord, RecordView};
use crate::text::{
    lemma_text_lt_irreflexive, lemma_text_lt_total, lemma_text_lt_transitive, less_than, text_lt,
    to_chars,
};
use remarkable_cloud_api::Documents;
use vstd::prelude::*;

verus! {

/// Why no manifest could be built.
#[derive(Debug, PartialEq, Eq)]
pub enum ManifestError {
    /// The site root is given by an identifier that the store does not hold.
    UnknownRoot { id: u128 },
    /// The site root is given by an identifier, and that is no folder's.
    RootNotFolder { doc_type: String },
    /// The site root is given by a name, and the top level holds `found`
    /// folders of that name: none, or more than one.
    RootName { name: String, found: usize },
    /// The site root holds no document of this name.
    MissingDocument { name: String },
    /// The site root holds several documents of this name.
    MultipleDocuments { name: String },
    /// The site root holds no folder `Posts`.
    MissingPosts,
    /// The site root holds several folders `Posts`.
    MultiplePosts,
    /// Below `Posts`, folders lie in one another more deeply than there are
    /// records in the store: the parents of some folders run in a circle.
    TooDeep,
}

/// The mathematical value of a `ManifestError`.
pub ghost enum ManifestErrorView {
    UnknownRoot { id: u128 },
    RootNotFolder { doc_type: Seq<char> },
    RootName { name: Seq<char>, found: nat },
    MissingDocument { name: Seq<char> },
    MultipleDocuments { name: Seq<char> },
    MissingPosts,
    MultiplePosts,
    TooDeep,
}

impl View for ManifestError {
    type V = ManifestErrorView;

    open spec fn view(&self) -> ManifestErrorView {
        match self {
            ManifestError::UnknownRoot { id } => ManifestErrorView::UnknownRoot { id: *id },
            ManifestError::RootNotFolder { doc_type } => ManifestErrorView::RootNotFolder {
                doc_type: doc_type@,
            },
            ManifestError::RootName { name, found } => ManifestErrorView::RootName {
                name: name@,
                found: *found as nat,
            },
            ManifestError::MissingDocument { name } => ManifestErrorView::MissingDocument {
                name: name@,
            },
            ManifestError::MultipleDocuments { name } => ManifestErrorView::MultipleDocuments {
                name: name@,
            },
            ManifestError::MissingPosts => ManifestErrorView::MissingPosts,
            ManifestError::MultiplePosts => ManifestErrorView::MultiplePosts,
            ManifestError::TooDeep => ManifestErrorView::TooDeep,
        }
    }
}

/// The type tag of a folder.
pub open spec fn folder_type() -> Seq<char> {
    seq!['C', 'o', 'l', 'l', 'e', 'c', 't', 'i', 'o', 'n', 'T', 'y', 'p', 'e']
}

/// The type tag of a document.
pub open spec fn document_type() -> Seq<char> {
    seq!['D', 'o', 'c', 'u', 'm', 'e', 'n', 't', 'T', 'y', 'p', 'e']
}

/// The name of the home document.
pub open spec fn home_document() -> Seq<char> {
    seq!['H', 'o', 'm', 'e']
}

/// The name of the logo.
pub open spec fn logo_document() -> Seq<char> {
    seq!['L', 'o', 'g', 'o']
}

/// The name of the folder of posts.
pub open spec fn posts_folder() -> Seq<char> {
    seq!['P', 'o', 's', 't', 's']
}

/// The identifiers of the records in `parent` that have the name `name` and
/// the type tag `doc_type`.
pub open spec fn candidates(
    held: Map<u128, RecordView>,
    parent: Option<u128>,
    name: Seq<char>,
    doc_type: Seq<char>,
) -> Set<u128> {
    Set::new(
        |id: u128|
            held.contains_key(id) && held[id].parent == parent && held[id].name == name
                && held[id].doc_type == doc_type,
    )
}

/// What the manifest keeps of a record.
pub open spec fn meta_of(rec: RecordView) -> DocView {
    DocView { id: rec.id, name: rec.name, modified_at: rec.modified_at }
}

/// The site root that `root_folder` names. A text that reads as an
/// identifier names the record with that identifier, which must be a folder.
/// Any other text names the one folder of that name at the top level.
pub open spec fn site_root(held: Map<u128, RecordView>, root_folder: Seq<char>) -> Result<
    u128,
    ManifestErrorView,
> {
    root_given(held, uuid_parse(root_folder), root_folder)
}

/// The site root that `root_folder` names, where `parsed` is the identifier
/// that the text reads as, if it reads as one.
pub open spec fn root_given(
    held: Map<u128, RecordView>,
    parsed: Option<u128>,
    root_folder: Seq<char>,
) -> Result<u128, ManifestErrorView> {
    match parsed {
        Some(id) => if !held.contains_key(id) {
            Err(ManifestErrorView::UnknownRoot { id })
        } else if held[id].doc_type != folder_type() {
            Err(ManifestErrorView::RootNotFolder { doc_type: held[id].doc_type })
        } else {
            Ok(id)
        },
        None => {
            let found = candidates(held, None, root_folder, folder_type());
            if found.len() == 1 {
                Ok(found.choose())
            } else {
                Err(ManifestErrorView::RootName { name: root_folder, found: found.len() })
            }
        },
    }
}

/// How many records a choice found: none, one, or more.
pub ghost enum Choice {
    Missing,
    One { id: u128 },
    Multiple,
}

/// The one record in `root` with the name `name` and the type tag `doc_type`.
pub open spec fn the_one(
    held: Map<u128, RecordView>,
    root: u128,
    name: Seq<char>,
    doc_type: Seq<char>,
) -> Choice {
    let found = candidates(held, Some(root), name, doc_type);
    if found.len() == 0 {
        Choice::Missing
    } else if found.len() == 1 {
        Choice::One { id: found.choose() }
    } else {
        Choice::Multiple
    }
}

/// A sequence without repetition that holds exactly the elements of a set is
/// as long as the set is large, and where that is one, its element is the
/// set's choice.
proof fn lemma_enumerated(found: Set<u128>, ids: Seq<u128>)
    requires
        ids.no_duplicates(),
        forall|i: int| 0 <= i < ids.len() ==> found.contains(#[trigger] ids[i]),
        forall|id: u128| found.contains(id) ==> ids.contains(id),
    ensures
        found.finite(),
        found.len() == ids.len(),
        ids.len() == 1 ==> found.choose() == ids[0],
{
    assert(found =~= ids.to_set());
    ids.unique_seq_to_set();
    if ids.len() == 1 {
        assert(found.contains(ids[0]));
        assert(found.contains(found.choose()));
        assert(ids.contains(found.choose()));
    }
}

/// The identifier of each record of a sequence.
pub open spec fn record_ids(recs: Seq<DocumentRecord>) -> Seq<u128> {
    recs.map_values(|r: DocumentRecord| r.id)
}

/// A copy of every record in `parent` with the name `name` and the type tag
/// `doc_type`, each once.
fn select(docs: &Documents, parent: Option<u128>, name: &str, doc_type: &str) -> (r: Vec<
    DocumentRecord,
>)
    ensures
        forall|i: int|
            0 <= i < r.len() ==> is_child(records(*docs), parent, #[trigger] r[i]@) && r[i]@.name
                == name@ && r[i]@.doc_type == doc_type@,
        r.len() == candidates(records(*docs), parent, name@, doc_type@).len(),
        r.len() == 1 ==> candidates(records(*docs), parent, name@, doc_type@).choose() == r[0].id,
{
    let ghost held = records(*docs);
    let ghost found = candidates(held, parent, name@, doc_type@);
    let wanted_name = name.to_owned();
    let wanted_type = doc_type.to_owned();
    let items = children(docs, parent);
    let ghost all = items@;
    let mut out: Vec<DocumentRecord> = Vec::new();
    let ghost mut from: Seq<int> = Seq::empty();
    for item in it: items
        invariant
            it.seq() == all,
            held == records(*docs),
            wanted_name@ == name@,
            wanted_type@ == doc_type@,
            forall|i: int| 0 <= i < all.len() ==> is_child(held, parent, #[trigger] all[i]@),
            forall|i: int, j: int| 0 <= i < j < all.len() ==> all[i].id != all[j].id,
            from.len() == out.len(),
            forall|i: int|
                0 <= i < out.len() ==> 0 <= #[trigger] from[i] < it.index() && out[i]@
                    == all[from[i]]@,
            forall|i: int, j: int| 0 <= i < j < out.len() ==> from[i] < from[j],
            forall|i: int|
                0 <= i < out.len() ==> (#[trigger] out[i]@).name == name@ && out[i]@.doc_type
                    == doc_type@,
            forall|k: int|
                0 <= k < it.index() && (#[trigger] all[k]@).name == name@ && all[k]@.doc_type
                    == doc_type@ ==> from.contains(k),
    {
        let ghost k = it.index() as int;
        let ghost before = from;
        assert(item == all[k]);
        if item.name == wanted_name && item.doc_type == wanted_type {
            out.push(item);
            proof {
                from = from.push(k);
                assert(from[out.len() - 1] == k);
            }
        }
        assert forall|j: int|
            0 <= j < k + 1 && (#[trigger] all[j]@).name == name@ && all[j]@.doc_type
                == doc_type@ implies from.contains(j) by {
            if j < k {
                assert(before.contains(j));
                let i = choose|i: int| 0 <= i < before.len() && before[i] == j;
                assert(from[i] == j);
            } else {
                assert(from[from.len() - 1] == j);
            }
        }
    }
    proof {
        let ids = record_ids(out@);
        assert forall|i: int, j: int| 0 <= i < ids.len() && 0 <= j < ids.len() && i != j implies ids[i]
            != ids[j] by {
            assert(out[i]@ == all[from[i]]@);
            assert(out[j]@ == all[from[j]]@);
            if i < j {
                assert(from[i] < from[j]);
            } else {
                assert(from[j] < from[i]);
            }
        }
        assert forall|i: int| 0 <= i < ids.len() implies found.contains(#[trigger] ids[i]) by {
            assert(is_child(held, parent, all[from[i]]@));
            assert(out[i]@ == all[from[i]]@);
        }
        assert forall|id: u128| found.contains(id) implies ids.contains(id) by {
            assert(held[id].parent == parent);
            let k = choose|k: int| 0 <= k < all.len() && all[k].id == id;
            assert(is_child(held, parent, all[k]@));
            assert(all[k]@ == held[id]);
            assert(from.contains(k));
            let i = choose|i: int| 0 <= i < from.len() && from[i] == k;
            assert(out[i]@ == all[k]@);
            assert(ids[i] == id);
        }
        lemma_enumerated(found, ids);
        assert forall|i: int| 0 <= i < out.len() implies is_child(
            held,
            parent,
            #[trigger] out[i]@,
        ) by {
            assert(is_child(held, parent, all[from[i]]@));
        }
    }
    out
}

/// The meta data of a record.
fn meta(rec: &DocumentRecord) -> (r: DocumentMeta)
    ensures
        r@ == meta_of(rec@),
{
    DocumentMeta { id: rec.id, name: rec.name.clone(), modified_at: rec.modified_at }
}

/// The identifier of the site root that `root_folder` names.
fn find_root(root_folder: &str, docs: &Documents) -> (r: Result<u128, ManifestError>)
    ensures
        match r {
            Ok(id) => site_root(records(*docs), root_folder@) == Ok::<u128, ManifestErrorView>(id),
            Err(e) => site_root(records(*docs), root_folder@) == Err::<u128, ManifestErrorView>(
                e@,
            ),
        },
{
    resolve_root(parse_id(root_folder), root_folder, docs)
}

/// The identifier of the site root that `root_folder` names, where `parsed`
/// is the identifier that the text reads as, if it reads as one.
///
/// With an identifier the root is the record of that identifier: it must be
/// in the store, and be a folder. Without one the root is the folder of the
/// name `root_folder` at the top level: there must be exactly one.
pub fn resolve_root(parsed: Option<u128>, root_folder: &str, docs: &Documents) -> (r: Result<
    u128,
    ManifestError,
>)
    ensures
        match r {
            Ok(id) => root_given(records(*docs), parsed, root_folder@) == Ok::<
                u128,
                ManifestErrorView,
            >(id),
            Err(e) => root_given(records(*docs), parsed, root_folder@) == Err::<
                u128,
                ManifestErrorView,
            >(e@),
        },
{
    let folder = "CollectionType";
    proof {
        reveal_strlit("CollectionType");
        assert(folder@ =~= folder_type());
    }
    match parsed {
        Some(id) => {
            match lookup(docs, id) {
                None => Err(ManifestError::UnknownRoot { id }),
                Some(rec) => {
                    if rec.doc_type != folder.to_owned() {
                        Err(ManifestError::RootNotFolder { doc_type: rec.doc_type })
                    } else {
                        Ok(id)
                    }
                },
            }
        },
        None => {
            let found = select(docs, None, root_folder, folder);
            if found.len() != 1 {
                Err(ManifestError::RootName { name: root_folder.to_owned(), found: found.len() })
            } else {
                Ok(found[0].id)
            }
        },
    }
}

/// The view of a choice that came out as a record.
pub open spec fn choice_view(r: Result<DocumentRecord, bool>) -> Choice {
    match r {
        Ok(rec) => Choice::One { id: rec.id },
        Err(multiple) => if multiple {
            Choice::Multiple
        } else {
            Choice::Missing
        },
    }
}

/// The one record in `root` with the name `name` and the type tag
/// `doc_type`. Where there is none the result is `Err(false)`, where there
/// are several it is `Err(true)`.
fn root_doc_by_name(name: &str, doc_type: &str, root: u128, docs: &Documents) -> (r: Result<
    DocumentRecord,
    bool,
>)
    ensures
        choice_view(r) == the_one(records(*docs), root, name@, doc_type@),
        r matches Ok(rec) ==> records(*docs).contains_key(rec.id) && records(*docs)[rec.id]
            == rec@,
{
    let mut found = select(docs, Some(root), name, doc_type);
    if found.len() == 0 {
        Err(false)
    } else if found.len() == 1 {
        assert(is_child(records(*docs), Some(root), found[0]@));
        let rec = found.remove(0);
        Ok(rec)
    } else {
        Err(true)
    }
}

/// Whether the record `id` lies directly in `folder` and has the type tag `doc_type`.
pub open spec fn lies_in(
    held: Map<u128, RecordView>,
    folder: u128,
    id: u128,
    doc_type: Seq<char>,
) -> bool {
    held.contains_key(id) && held[id].parent == Some(folder) && held[id].doc_type == doc_type
}

/// Whether the folders below `folder` lie in one another less than `fuel` deep.
pub open spec fn within_depth(held: Map<u128, RecordView>, folder: u128, fuel: nat) -> bool
    decreases fuel,
{
    if fuel == 0 {
        false
    } else {
        forall|id: u128| #[trigger]
            lies_in(held, folder, id, folder_type()) ==> within_depth(
                held,
                id,
                (fuel - 1) as nat,
            )
    }
}

/// A store whose folders lie in one another like a tree is never too deep.
///
/// Let the folders have ranks such that a folder ranks below the folder it
/// lies in. Then the folders below a folder whose rank is less than `fuel`
/// lie in one another less than `fuel` deep. Where parents run in a circle
/// there are no such ranks.
pub proof fn lemma_ranked_within_depth(
    held: Map<u128, RecordView>,
    rank: spec_fn(u128) -> nat,
    folder: u128,
    fuel: nat,
)
    requires
        forall|above: u128, id: u128| #[trigger]
            lies_in(held, above, id, folder_type()) ==> rank(id) < rank(above),
        rank(folder) < fuel,
    ensures
        within_depth(held, folder, fuel),
    decreases fuel,
{
    assert forall|id: u128| #[trigger] lies_in(held, folder, id, folder_type()) implies within_depth(
        held,
        id,
        (fuel - 1) as nat,
    ) by {
        lemma_ranked_within_depth(held, rank, id, (fuel - 1) as nat);
    }
}

/// Whether each name comes before the next, in the order of texts. No name
/// then stands twice.
pub open spec fn names_ascend(names: Seq<Seq<char>>) -> bool {
    forall|i: int, j: int|
        0 <= i < j < names.len() ==> text_lt(#[trigger] names[i], #[trigger] names[j])
}

/// The name of each document of a sequence.
pub open spec fn doc_names(docs: Seq<DocView>) -> Seq<Seq<char>> {
    docs.map_values(|d: DocView| d.name)
}

/// The name of each folder of a sequence.
pub open spec fn folder_names(folders: Seq<(Seq<char>, PostsView)>) -> Seq<Seq<char>> {
    folders.map_values(|f: (Seq<char>, PostsView)| f.0)
}

/// Whether `doc` is what the manifest keeps of a document that lies in `folder`.
pub open spec fn is_document_of(held: Map<u128, RecordView>, folder: u128, doc: DocView) -> bool {
    exists|id: u128| #[trigger]
        lies_in(held, folder, id, document_type()) && doc == meta_of(held[id])
}

/// Whether `entry` has the name of a folder that lies in `folder`, and mirrors it.
pub open spec fn is_folder_of(
    held: Map<u128, RecordView>,
    folder: u128,
    entry: (Seq<char>, PostsView),
) -> bool
    decreases entry,
{
    exists|id: u128| #[trigger]
        lies_in(held, folder, id, folder_type()) && entry.0 == held[id].name && mirrors(
            held,
            id,
            entry.1,
        )
}

/// Whether `tree` mirrors what lies below `folder`.
///
/// Its documents are documents that lie in `folder`, in the order of their
/// names, and every name of such a document is there. Its folders have the
/// names of the folders that lie in `folder`, in the order of the names, every
/// such name is there, and each mirrors a folder of its name. Where no two
/// documents and no two folders of one folder share a name, this says of
/// each folder what the tree holds for it.
pub open spec fn mirrors(held: Map<u128, RecordView>, folder: u128, tree: PostsView) -> bool
    decreases tree,
{
    &&& names_ascend(doc_names(tree.documents))
    &&& forall|i: int|
        0 <= i < tree.documents.len() ==> is_document_of(held, folder, #[trigger] tree.documents[i])
    &&& forall|id: u128| #[trigger]
        lies_in(held, folder, id, document_type()) ==> doc_names(tree.documents).contains(
            held[id].name,
        )
    &&& names_ascend(folder_names(tree.folders))
    &&& forall|j: int|
        0 <= j < tree.folders.len() ==> is_folder_of(held, folder, #[trigger] tree.folders[j])
    &&& forall|id: u128| #[trigger]
        lies_in(held, folder, id, folder_type()) ==> folder_names(tree.folders).contains(
            held[id].name,
        )
}

/// The characters of each name of a sequence.
pub open spec fn name_views(names: Seq<Vec<char>>) -> Seq<Seq<char>> {
    names.map_values(|n: Vec<char>| n@)
}

/// Putting a name where it belongs keeps the names in order.
proof fn lemma_insert_ascends(names: Seq<Seq<char>>, p: int, key: Seq<char>)
    requires
        names_ascend(names),
        0 <= p <= names.len(),
        forall|i: int| 0 <= i < p ==> text_lt(#[trigger] names[i], key),
        p < names.len() ==> text_lt(key, names[p]),
    ensures
        names_ascend(names.insert(p, key)),
{
    let next = names.insert(p, key);
    assert forall|i: int, j: int| 0 <= i < j < next.len() implies text_lt(
        #[trigger] next[i],
        #[trigger] next[j],
    ) by {
        if j < p {
            assert(next[i] == names[i] && next[j] == names[j]);
        } else if j == p {
            assert(next[i] == names[i]);
        } else if i == p {
            assert(next[j] == names[j - 1]);
            if j - 1 > p {
                assert(text_lt(names[p], names[j - 1]));
                lemma_text_lt_transitive(key, names[p], names[j - 1]);
            }
        } else if i < p {
            assert(next[i] == names[i] && next[j] == names[j - 1]);
        } else {
            assert(next[i] == names[i - 1] && next[j] == names[j - 1]);
        }
    }
}

/// A name that was there is there after another is put in.
proof fn lemma_insert_contains(names: Seq<Seq<char>>, p: int, key: Seq<char>)
    requires
        0 <= p <= names.len(),
    ensures
        names.insert(p, key).contains(key),
        forall|n: Seq<char>| names.contains(n) ==> names.insert(p, key).contains(n),
{
    let next = names.insert(p, key);
    assert(next[p] == key);
    assert forall|n: Seq<char>| names.contains(n) implies next.contains(n) by {
        let i = choose|i: int| 0 <= i < names.len() && names[i] == n;
        if i < p {
            assert(next[i] == n);
        } else {
            assert(next[i + 1] == n);
        }
    }
}

/// Where `key` belongs among `names`: the first place whose name does not
/// come before it, and whether the name there is `key` itself.
fn slot(names: &Vec<Vec<char>>, key: &Vec<char>) -> (r: (usize, bool))
    requires
        names_ascend(name_views(names@)),
    ensures
        r.0 <= names.len(),
        forall|i: int| 0 <= i < r.0 ==> text_lt(#[trigger] name_views(names@)[i], key@),
        r.1 ==> r.0 < names.len() && names[r.0 as int]@ == key@,
        !r.1 && r.0 < names.len() ==> text_lt(key@, names[r.0 as int]@),
        !r.1 ==> !name_views(names@).contains(key@),
{
    let ghost nv = name_views(names@);
    let mut p: usize = 0;
    while p < names.len() && less_than(&names[p], key)
        invariant
            p <= names.len(),
            nv == name_views(names@),
            forall|i: int| 0 <= i < p ==> text_lt(#[trigger] nv[i], key@),
        decreases names.len() - p,
    {
        assert(nv[p as int] == names[p as int]@);
        p = p + 1;
    }
    if p < names.len() {
        assert(nv[p as int] == names[p as int]@);
        let after = less_than(key, &names[p]);
        proof {
            lemma_text_lt_total(key@, names[p as int]@);
            if after {
                assert forall|i: int| 0 <= i < nv.len() implies nv[i] != key@ by {
                    lemma_text_lt_irreflexive(key@);
                    if i < p {
                    } else if i > p {
                        assert(text_lt(nv[p as int], nv[i]));
                        lemma_text_lt_transitive(key@, nv[p as int], nv[i]);
                    }
                }
            }
        }
        (p, !after)
    } else {
        proof {
            assert forall|i: int| 0 <= i < nv.len() implies nv[i] != key@ by {
                lemma_text_lt_irreflexive(key@);
            }
        }
        (p, false)
    }
}

impl Posts {
    /// Mirrors what lies below `folder`, as long as folders lie in one
    /// another less than `fuel` deep.
    fn build_posts_hierarchy(folder: u128, docs: &Documents, fuel: usize) -> (r: Result<
        Posts,
        ManifestError,
    >)
        ensures
            match r {
                Ok(tree) => within_depth(records(*docs), folder, fuel as nat) && mirrors(
                    records(*docs),
                    folder,
                    tree@,
                ),
                Err(e) => !within_depth(records(*docs), folder, fuel as nat) && e@
                    == ManifestErrorView::TooDeep,
            },
        decreases fuel,
    {
        if fuel == 0 {
            return Err(ManifestError::TooDeep);
        }
        let ghost held = records(*docs);
        let document = "DocumentType";
        let collection = "CollectionType";
        proof {
            reveal_strlit("DocumentType");
            reveal_strlit("CollectionType");
            assert(document@ =~= document_type());
            assert(collection@ =~= folder_type());
        }
        let document_tag = document.to_owned();
        let collection_tag = collection.to_owned();
        let items = children(docs, Some(folder));
        let mut documents: Vec<DocumentMeta> = Vec::new();
        let mut names: Vec<Vec<char>> = Vec::new();
        let mut folders: Vec<(String, Posts)> = Vec::new();
        let mut folder_keys: Vec<Vec<char>> = Vec::new();
        let mut k: usize = 0;
        while k < items.len()
            invariant
                k <= items.len(),
                fuel > 0,
                held == records(*docs),
                document_tag@ == document_type(),
                collection_tag@ == folder_type(),
                forall|i: int|
                    0 <= i < items.len() ==> is_child(held, Some(folder), #[trigger] items[i]@),
                names.len() == documents.len(),
                forall|i: int|
                    0 <= i < documents.len() ==> (#[trigger] names[i])@ == documents[i].name@,
                names_ascend(name_views(names@)),
                forall|i: int|
                    0 <= i < documents.len() ==> is_document_of(
                        held,
                        folder,
                        (#[trigger] documents[i])@,
                    ),
                forall|i: int|
                    0 <= i < k && (#[trigger] items[i]@).doc_type == document_type()
                        ==> name_views(names@).contains(items[i]@.name),
                folder_keys.len() == folders.len(),
                forall|j: int|
                    0 <= j < folders.len() ==> (#[trigger] folder_keys[j])@ == folders[j].0@,
                names_ascend(name_views(folder_keys@)),
                forall|j: int|
                    0 <= j < folders.len() ==> is_folder_of(
                        held,
                        folder,
                        ((#[trigger] folders[j]).0@, folders[j].1@),
                    ),
                forall|i: int|
                    0 <= i < k && (#[trigger] items[i]@).doc_type == folder_type() ==> name_views(
                        folder_keys@,
                    ).contains(items[i]@.name) && within_depth(
                        held,
                        items[i].id,
                        (fuel - 1) as nat,
                    ),
            decreases items.len() - k,
        {
            let item = &items[k];
            assert(is_child(held, Some(folder), item@));
            let ghost old_names = name_views(names@);
            let ghost old_keys = name_views(folder_keys@);
            if item.doc_type == document_tag {
                assert(lies_in(held, folder, item.id, document_type()));
                let key = to_chars(item.name.as_str());
                let (p, found) = slot(&names, &key);
                let doc = meta(item);
                assert(is_document_of(held, folder, doc@));
                if found {
                    assert(old_names[p as int] == key@);
                    documents.set(p, doc);
                } else {
                    proof {
                        assert(p < names.len() ==> old_names[p as int] == names[p as int]@);
                        lemma_insert_ascends(old_names, p as int, key@);
                        lemma_insert_contains(old_names, p as int, key@);
                    }
                    names.insert(p, key);
                    documents.insert(p, doc);
                    assert(name_views(names@) =~= old_names.insert(p as int, item@.name));
                }
            } else if item.doc_type == collection_tag {
                assert(lies_in(held, folder, item.id, folder_type()));
                match Posts::build_posts_hierarchy(item.id, docs, fuel - 1) {
                    Err(e) => {
                        return Err(e);
                    },
                    Ok(sub) => {
                        let key = to_chars(item.name.as_str());
                        let (p, found) = slot(&folder_keys, &key);
                        let entry = (item.name.clone(), sub);
                        assert(is_folder_of(held, folder, (entry.0@, entry.1@)));
                        if found {
                            assert(old_keys[p as int] == key@);
                            folders.set(p, entry);
                        } else {
                            proof {
                                assert(p < folder_keys.len() ==> old_keys[p as int]
                                    == folder_keys[p as int]@);
                                lemma_insert_ascends(old_keys, p as int, key@);
                                lemma_insert_contains(old_keys, p as int, key@);
                            }
                            folder_keys.insert(p, key);
                            folders.insert(p, entry);
                            assert(name_views(folder_keys@) =~= old_keys.insert(
                                p as int,
                                item@.name,
                            ));
                        }
                    },
                }
            }
            k = k + 1;
        }
        let tree = Posts { documents, folders };
        proof {
            crate::manifest::lemma_posts_view(tree);
            let tv = tree@;
            assert(doc_names(tv.documents) =~= name_views(names@));
            assert(folder_names(tv.folders) =~= name_views(folder_keys@));
            assert forall|id: u128| #[trigger]
                lies_in(held, folder, id, document_type()) implies doc_names(
                tv.documents,
            ).contains(held[id].name) by {
                let i = choose|i: int| 0 <= i < items.len() && items[i].id == id;
                assert(is_child(held, Some(folder), items[i]@));
            }
            assert forall|id: u128| #[trigger]
                lies_in(held, folder, id, folder_type()) implies folder_names(
                tv.folders,
            ).contains(held[id].name) && within_depth(held, id, (fuel - 1) as nat) by {
                let i = choose|i: int| 0 <= i < items.len() && items[i].id == id;
                assert(is_child(held, Some(folder), items[i]@));
            }
            assert forall|i: int| 0 <= i < tv.documents.len() implies is_document_of(
                held,
                folder,
                #[trigger] tv.documents[i],
            ) by {
                assert(tv.documents[i] == tree.documents[i]@);
            }
            assert forall|j: int| 0 <= j < tv.folders.len() implies is_folder_of(
                held,
                folder,
                #[trigger] tv.folders[j],
            ) by {
                assert(tv.folders[j] == (tree.folders[j].0@, tree.folders[j].1@));
            }
            assert(mirrors(held, folder, tv));
        }
        Ok(tree)
    }

    /// The tree of posts below the one folder `Posts` in `root`.
    fn build(root: u128, docs: &Documents) -> (r: Result<Posts, ManifestError>)
        ensures
            match r {
                Ok(tree) => posts_outcome(records(*docs), root) matches Ok(id) && mirrors(
                    records(*docs),
                    id,
                    tree@,
                ),
                Err(e) => posts_outcome(records(*docs), root) == Err::<u128, ManifestErrorView>(
                    e@,
                ),
            },
    {
        let name = "Posts";
        let collection = "CollectionType";
        proof {
            reveal_strlit("Posts");
            reveal_strlit("CollectionType");
            assert(name@ =~= posts_folder());
            assert(collection@ =~= folder_type());
        }
        match root_doc_by_name(name, collection, root, docs) {
            Ok(rec) => Posts::build_posts_hierarchy(rec.id, docs, count(docs)),
            Err(multiple) => {
                if multiple {
                    Err(ManifestError::MultiplePosts)
                } else {
                    Err(ManifestError::MissingPosts)
                }
            },
        }
    }
}

/// The folder of posts in `root`: the one folder `Posts`, provided that the
/// folders below it lie in one another less deep than the store has records.
pub open spec fn posts_outcome(held: Map<u128, RecordView>, root: u128) -> Result<
    u128,
    ManifestErrorView,
> {
    match the_one(held, root, posts_folder(), folder_type()) {
        Choice::Missing => Err(ManifestErrorView::MissingPosts),
        Choice::Multiple => Err(ManifestErrorView::MultiplePosts),
        Choice::One { id } => if within_depth(held, id, held.dom().len()) {
            Ok(id)
        } else {
            Err(ManifestErrorView::TooDeep)
        },
    }
}

/// The one document `name` in `root`.
pub open spec fn document_outcome(held: Map<u128, RecordView>, root: u128, name: Seq<char>) -> Result<
    u128,
    ManifestErrorView,
> {
    match the_one(held, root, name, document_type()) {
        Choice::Missing => Err(ManifestErrorView::MissingDocument { name }),
        Choice::Multiple => Err(ManifestErrorView::MultipleDocuments { name }),
        Choice::One { id } => Ok(id),
    }
}

/// What the parts of a manifest are built from: the records of the home
/// document, of the logo and of the folder of posts. The first of the site
/// root, the home document, the logo and the posts that cannot be had
/// decides the error.
pub open spec fn manifest_outcome(held: Map<u128, RecordView>, root_folder: Seq<char>) -> Result<
    (u128, u128, u128),
    ManifestErrorView,
> {
    match site_root(held, root_folder) {
        Err(e) => Err(e),
        Ok(root) => match document_outcome(held, root, home_document()) {
            Err(e) => Err(e),
            Ok(home) => match document_outcome(held, root, logo_document()) {
                Err(e) => Err(e),
                Ok(logo) => match posts_outcome(held, root) {
                    Err(e) => Err(e),
                    Ok(posts) => Ok((home, logo, posts)),
                },
            },
        },
    }
}

/// Whether `manifest` is the manifest of the site that `root_folder` names.
pub open spec fn is_manifest_of(
    held: Map<u128, RecordView>,
    root_folder: Seq<char>,
    manifest: ManifestView,
) -> bool {
    manifest_outcome(held, root_folder) matches Ok(parts) && held.contains_key(parts.0)
        && manifest.home == meta_of(held[parts.0]) && held.contains_key(parts.1) && manifest.logo
        == meta_of(held[parts.1]) && mirrors(held, parts.2, manifest.posts)
}

/// The one document `name` in `root`, as the manifest keeps it.
fn root_document(name: &str, root: u128, docs: &Documents) -> (r: Result<DocumentMeta, ManifestError>)
    ensures
        match r {
            Ok(doc) => document_outcome(records(*docs), root, name@) matches Ok(id)
                && records(*docs).contains_key(id) && doc@ == meta_of(records(*docs)[id]),
            Err(e) => document_outcome(records(*docs), root, name@) == Err::<
                u128,
                ManifestErrorView,
            >(e@),
        },
{
    let document = "DocumentType";
    proof {
        reveal_strlit("DocumentType");
        assert(document@ =~= document_type());
    }
    match root_doc_by_name(name, document, root, docs) {
        Ok(rec) => Ok(meta(&rec)),
        Err(multiple) => {
            if multiple {
                Err(ManifestError::MultipleDocuments { name: name.to_owned() })
            } else {
                Err(ManifestError::MissingDocument { name: name.to_owned() })
            }
        },
    }
}

impl Manifest {
    /// Builds the manifest of the site that `root_folder` names, from the
    /// documents of the store.
    ///
    /// `root_folder` is the identifier of the site root, or else the name of
    /// the one folder at the top level that is the site root. The site root
    /// must hold one document `Home`, one document `Logo` and one folder
    /// `Posts`; what lies below `Posts` is mirrored, each record by its type
    /// tag, documents and folders of a folder in the order of their names.
    /// Every other case is an error, and says which.
    pub fn build(root_folder: String, docs: Documents) -> (r: Result<Manifest, ManifestError>)
        ensures
            match r {
                Ok(manifest) => is_manifest_of(records(docs), root_folder@, manifest@),
                Err(e) => manifest_outcome(records(docs), root_folder@) == Err::<
                    (u128, u128, u128),
                    ManifestErrorView,
                >(e@),
            },
    {
        let home_name = "Home";
        let logo_name = "Logo";
        proof {
            reveal_strlit("Home");
            reveal_strlit("Logo");
            assert(home_name@ =~= home_document());
            assert(logo_name@ =~= logo_document());
        }
        let root = match find_root(root_folder.as_str(), &docs) {
            Ok(id) => id,
            Err(e) => {
                return Err(e);
            },
        };
        let home = match root_document(home_name, root, &docs) {
            Ok(doc) => doc,
            Err(e) => {
                return Err(e);
            },
        };
        let logo = match root_document(logo_name, root, &docs) {
            Ok(doc) => doc,
            Err(e) => {
                return Err(e);
            },
        };
        let posts = match Posts::build(root, &docs) {
            Ok(tree) => tree,
            Err(e) => {
                return Err(e);
            },
        };
        Ok(Manifest { home, logo, posts })
    }
}

} // verus!
