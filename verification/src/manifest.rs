//! The manifest: the documents of a site, resolved into a hierarchy.

use crate::ident::Timestamp;
use vstd::prelude::*;

verus! {

/// A document as it stood when the manifest was built.
#[derive(Debug, PartialEq, Eq)]
pub struct DocumentMeta {
    pub id: u128,
    pub name: String,
    pub modified_at: Timestamp,
}

/// The mathematical value of a `DocumentMeta`.
pub ghost struct DocView {
    pub id: u128,
    pub name: Seq<char>,
    pub modified_at: Timestamp,
}

impl View for DocumentMeta {
    type V = DocView;

    open spec fn view(&self) -> DocView {
        DocView { id: self.id, name: self.name@, modified_at: self.modified_at }
    }
}

impl Clone for DocumentMeta {
    fn clone(&self) -> (r: Self)
        ensures
            r@ == self@,
    {
        DocumentMeta { id: self.id, name: self.name.clone(), modified_at: self.modified_at }
    }
}

/// The view of each document of a sequence.
pub open spec fn doc_views(docs: Seq<DocumentMeta>) -> Seq<DocView> {
    docs.map_values(|d: DocumentMeta| d@)
}

/// A folder of posts: its own documents, and its sub-folders by name.
#[derive(Debug, PartialEq, Eq)]
pub struct Posts {
    pub documents: Vec<DocumentMeta>,
    pub folders: Vec<(String, Posts)>,
}

/// The mathematical value of a `Posts`.
pub ghost struct PostsView {
    pub documents: Seq<DocView>,
    pub folders: Seq<(Seq<char>, PostsView)>,
}

impl View for Posts {
    type V = PostsView;

    open spec fn view(&self) -> PostsView
        decreases self,
    {
        PostsView { documents: doc_views(self.documents@), folders: folder_views(self.folders@) }
    }
}

/// The view of each named folder of a sequence.
pub open spec fn folder_views(folders: Seq<(String, Posts)>) -> Seq<(Seq<char>, PostsView)>
    decreases folders,
{
    if folders.len() == 0 {
        Seq::empty()
    } else {
        folder_views(folders.drop_last()).push((folders.last().0@, folders.last().1@))
    }
}

/// The views of the folders of a sequence stand at the places of the folders.
pub proof fn lemma_folder_views(folders: Seq<(String, Posts)>)
    ensures
        folder_views(folders).len() == folders.len(),
        forall|i: int|
            0 <= i < folders.len() ==> #[trigger] folder_views(folders)[i] == (
                folders[i].0@,
                folders[i].1@,
            ),
    decreases folders.len(),
{
    if folders.len() > 0 {
        lemma_folder_views(folders.drop_last());
        assert(folder_views(folders) == folder_views(folders.drop_last()).push(
            (folders.last().0@, folders.last().1@),
        ));
    } else {
        assert(folder_views(folders) == Seq::<(Seq<char>, PostsView)>::empty());
    }
}

/// The view of a folder, field by field.
pub proof fn lemma_posts_view(posts: Posts)
    ensures
        posts@.documents == doc_views(posts.documents@),
        posts@.folders == folder_views(posts.folders@),
        posts@.folders.len() == posts.folders@.len(),
        forall|i: int|
            0 <= i < posts.folders@.len() ==> #[trigger] posts@.folders[i] == (
                posts.folders@[i].0@,
                posts.folders@[i].1@,
            ),
{
    lemma_folder_views(posts.folders@);
}

/// The whole site: the home document, the logo, and the tree of posts.
#[derive(Debug, PartialEq, Eq)]
pub struct Manifest {
    pub home: DocumentMeta,
    pub logo: DocumentMeta,
    pub posts: Posts,
}

/// The mathematical value of a `Manifest`.
pub ghost struct ManifestView {
    pub home: DocView,
    pub logo: DocView,
    pub posts: PostsView,
}

impl View for Manifest {
    type V = ManifestView;

    open spec fn view(&self) -> ManifestView {
        ManifestView { home: self.home@, logo: self.logo@, posts: self.posts@ }
    }
}

impl PostsView {
    /// Every document below this folder: its own first, then those of each
    /// sub-folder in turn.
    pub open spec fn docs(self) -> Seq<DocView>
        decreases self,
    {
        self.documents + docs_of_folders(self.folders)
    }
}

/// The documents of each folder of `folders`, one folder after the other.
pub open spec fn docs_of_folders(folders: Seq<(Seq<char>, PostsView)>) -> Seq<DocView>
    decreases folders,
{
    if folders.len() == 0 {
        seq![]
    } else {
        docs_of_folders(folders.drop_last()) + folders.last().1.docs()
    }
}

impl ManifestView {
    /// Every document of the site: home, logo, then the posts.
    pub open spec fn docs(self) -> Seq<DocView> {
        seq![self.home, self.logo] + self.posts.docs()
    }
}

/// The identifier of each document of a sequence.
pub open spec fn ids_of(docs: Seq<DocView>) -> Seq<u128> {
    docs.map_values(|d: DocView| d.id)
}

impl Posts {
    /// Appends a copy of every document below this folder to `out`.
    fn collect_docs(&self, out: &mut Vec<DocumentMeta>)
        ensures
            doc_views(final(out)@) == doc_views(old(out)@) + self@.docs(),
        decreases self,
    {
        let ghost before = doc_views(out@);
        proof {
            lemma_posts_view(*self);
        }
        let mut i: usize = 0;
        while i < self.documents.len()
            invariant
                i <= self.documents.len(),
                doc_views(out@) == before + self@.documents.take(i as int),
            decreases self.documents.len() - i,
        {
            let ghost seen = doc_views(out@);
            out.push(self.documents[i].clone());
            assert(doc_views(out@) =~= seen.push(self.documents[i as int]@));
            assert(self@.documents.take(i + 1) =~= self@.documents.take(i as int).push(
                self.documents[i as int]@,
            ));
            i = i + 1;
        }
        assert(self@.documents.take(self.documents.len() as int) =~= self@.documents);
        let mut j: usize = 0;
        assert(docs_of_folders(self@.folders.take(0)) =~= Seq::<DocView>::empty());
        while j < self.folders.len()
            invariant
                j <= self.folders.len(),
                self@.folders.len() == self.folders@.len(),
                forall|i: int|
                    0 <= i < self.folders@.len() ==> #[trigger] self@.folders[i] == (
                        self.folders@[i].0@,
                        self.folders@[i].1@,
                    ),
                doc_views(out@) == before + self@.documents + docs_of_folders(
                    self@.folders.take(j as int),
                ),
            decreases self.folders.len() - j,
        {
            self.folders[j].1.collect_docs(out);
            assert(self@.folders.take(j + 1).drop_last() =~= self@.folders.take(j as int));
            assert(self@.folders.take(j + 1).last() == self@.folders[j as int]);
            assert(self@.folders[j as int].1 == self.folders[j as int].1@);
            j = j + 1;
        }
        assert(self@.folders.take(self.folders.len() as int) =~= self@.folders);
    }

    /// A copy of every document below this folder: its own first, in their
    /// order, then those of each sub-folder in turn.
    pub fn docs(&self) -> (r: Vec<DocumentMeta>)
        ensures
            doc_views(r@) == self@.docs(),
    {
        let mut out: Vec<DocumentMeta> = Vec::new();
        assert(doc_views(out@) =~= Seq::<DocView>::empty());
        self.collect_docs(&mut out);
        out
    }

    /// The identifier of every document below this folder, in the order of `docs`.
    pub fn doc_ids(&self) -> (r: Vec<u128>)
        ensures
            r@ == ids_of(self@.docs()),
    {
        ids(&self.docs())
    }
}

/// The identifier of each document of `docs`, in order.
fn ids(docs: &Vec<DocumentMeta>) -> (r: Vec<u128>)
    ensures
        r@ == ids_of(doc_views(docs@)),
{
    let mut out: Vec<u128> = Vec::new();
    let mut i: usize = 0;
    while i < docs.len()
        invariant
            i <= docs.len(),
            out@ == ids_of(doc_views(docs@)).take(i as int),
        decreases docs.len() - i,
    {
        out.push(docs[i].id);
        assert(ids_of(doc_views(docs@)).take(i + 1) =~= ids_of(doc_views(docs@)).take(
            i as int,
        ).push(docs[i as int].id));
        i = i + 1;
    }
    assert(ids_of(doc_views(docs@)).take(docs.len() as int) =~= ids_of(doc_views(docs@)));
    out
}

impl Manifest {
    /// A copy of every document of the site: home, logo, then the posts.
    pub fn docs(&self) -> (r: Vec<DocumentMeta>)
        ensures
            doc_views(r@) == self@.docs(),
    {
        let mut out: Vec<DocumentMeta> = Vec::new();
        out.push(self.home.clone());
        out.push(self.logo.clone());
        assert(doc_views(out@) =~= seq![self@.home, self@.logo]);
        self.posts.collect_docs(&mut out);
        out
    }

    /// The identifier of every document of the site, in the order of `docs`.
    pub fn doc_ids(&self) -> (r: Vec<u128>)
        ensures
            r@ == ids_of(self@.docs()),
    {
        ids(&self.docs())
    }
}

} // verus!
