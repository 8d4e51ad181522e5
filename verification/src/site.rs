//! Assembling the site: one page for each document, one for each folder,
//! and the index.
//!
//! The walk goes through the posts depth first. On the way down it carries
//! the trail of breadcrumbs; on the way up each folder collects what it lists.
//! Nothing is written here: the result says which directories to make and
//! which pages to render, in order.

use crate::generator::Generator;
use crate::manifest::{
    lemma_posts_view, DocView, DocumentMeta, ManifestView, Posts, PostsView,
};
use crate::text::{chain, join, joined, sanitize, sanitized, views};
use vstd::prelude::*;

verus! {

/// One step of the way from the index to a page.
#[derive(Debug, PartialEq, Eq)]
pub struct Crumb {
    pub name: String,
    pub link: String,
}

/// The mathematical value of a `Crumb`.
pub ghost struct CrumbView {
    pub name: Seq<char>,
    pub link: Seq<char>,
}

impl View for Crumb {
    type V = CrumbView;

    open spec fn view(&self) -> CrumbView {
        CrumbView { name: self.name@, link: self.link@ }
    }
}

impl Clone for Crumb {
    fn clone(&self) -> (r: Self)
        ensures
            r@ == self@,
    {
        Crumb { name: self.name.clone(), link: self.link.clone() }
    }
}

/// A document as a folder lists it.
#[derive(Debug, PartialEq, Eq)]
pub struct DocumentEntry {
    pub name: String,
    /// The link to the image of the document's first page.
    pub svg: String,
    /// The link to the document's page.
    pub link: String,
}

/// The mathematical value of a `DocumentEntry`.
pub ghost struct DocumentEntryView {
    pub name: Seq<char>,
    pub svg: Seq<char>,
    pub link: Seq<char>,
}

impl View for DocumentEntry {
    type V = DocumentEntryView;

    open spec fn view(&self) -> DocumentEntryView {
        DocumentEntryView { name: self.name@, svg: self.svg@, link: self.link@ }
    }
}

/// A sub-folder as a folder lists it.
#[derive(Debug, PartialEq, Eq)]
pub struct FolderEntry {
    pub name: String,
    /// The link to the sub-folder's page.
    pub link: String,
}

/// The mathematical value of a `FolderEntry`.
pub ghost struct FolderEntryView {
    pub name: Seq<char>,
    pub link: Seq<char>,
}

impl View for FolderEntry {
    type V = FolderEntryView;

    open spec fn view(&self) -> FolderEntryView {
        FolderEntryView { name: self.name@, link: self.link@ }
    }
}

/// Which template renders a page.
#[derive(Clone, Copy, Debug, PartialEq, Eq, Structural)]
pub enum Template {
    Index,
    Document,
    Folder,
}

/// A page to render: the template, the file, and what the template is given.
/// A field that a template does not use is empty.
#[derive(Debug, PartialEq, Eq)]
pub struct Page {
    pub template: Template,
    /// The file to write, below the output root.
    pub path: String,
    pub build_nonce: String,
    pub prefix: String,
    pub title: String,
    /// The link to the image of the logo.
    pub logo: String,
    pub name: String,
    /// The way from the index to the parent of this page.
    pub breadcrumbs: Vec<Crumb>,
    /// The link of the last breadcrumb.
    pub back_link: Option<String>,
    /// The links to the page images, in page order.
    pub pages: Vec<String>,
    /// Whether there is more than one page image.
    pub render_nav_thumbnails: bool,
    pub documents: Vec<DocumentEntry>,
    pub folders: Vec<FolderEntry>,
}

/// The mathematical value of a `Page`.
pub ghost struct PageView {
    pub template: Template,
    pub path: Seq<char>,
    pub build_nonce: Seq<char>,
    pub prefix: Seq<char>,
    pub title: Seq<char>,
    pub logo: Seq<char>,
    pub name: Seq<char>,
    pub breadcrumbs: Seq<CrumbView>,
    pub back_link: Option<Seq<char>>,
    pub pages: Seq<Seq<char>>,
    pub render_nav_thumbnails: bool,
    pub documents: Seq<DocumentEntryView>,
    pub folders: Seq<FolderEntryView>,
}

/// The view of each breadcrumb of a sequence.
pub open spec fn crumb_views(s: Seq<Crumb>) -> Seq<CrumbView> {
    s.map_values(|c: Crumb| c@)
}

/// The view of each document entry of a sequence.
pub open spec fn document_entry_views(s: Seq<DocumentEntry>) -> Seq<DocumentEntryView> {
    s.map_values(|e: DocumentEntry| e@)
}

/// The view of each folder entry of a sequence.
pub open spec fn folder_entry_views(s: Seq<FolderEntry>) -> Seq<FolderEntryView> {
    s.map_values(|e: FolderEntry| e@)
}

impl View for Page {
    type V = PageView;

    open spec fn view(&self) -> PageView {
        PageView {
            template: self.template,
            path: self.path@,
            build_nonce: self.build_nonce@,
            prefix: self.prefix@,
            title: self.title@,
            logo: self.logo@,
            name: self.name@,
            breadcrumbs: crumb_views(self.breadcrumbs@),
            back_link: match self.back_link {
                Some(l) => Some(l@),
                None => None,
            },
            pages: views(self.pages@),
            render_nav_thumbnails: self.render_nav_thumbnails,
            documents: document_entry_views(self.documents@),
            folders: folder_entry_views(self.folders@),
        }
    }
}

/// One thing to bring about in the output tree.
#[derive(Debug, PartialEq, Eq)]
pub enum Output {
    /// A directory to make, with the directories above it, below the output root.
    Directory { path: String },
    /// A page to render.
    Page { page: Page },
}

/// The mathematical value of an `Output`.
pub ghost enum OutputView {
    Directory { path: Seq<char> },
    Page { page: PageView },
}

impl View for Output {
    type V = OutputView;

    open spec fn view(&self) -> OutputView {
        match self {
            Output::Directory { path } => OutputView::Directory { path: path@ },
            Output::Page { page } => OutputView::Page { page: page@ },
        }
    }
}

/// The view of each output of a sequence.
pub open spec fn output_views(s: Seq<Output>) -> Seq<OutputView> {
    s.map_values(|o: Output| o@)
}

/// Why a site cannot be assembled.
#[derive(Debug, Clone, Copy, PartialEq, Eq, Structural)]
pub enum GenError {
    /// Nothing was rendered for this document of the manifest.
    MissingPages { id: u128 },
    /// This document is shown by its first page, and it has no page.
    NoPages { id: u128 },
}

/// What a site is assembled from, besides the manifest.
pub ghost struct SiteView {
    pub prefix: Seq<char>,
    pub title: Seq<char>,
    pub build_nonce: Seq<char>,
    /// The identifier of the logo.
    pub logo: u128,
    /// The links to the page images of each rendered document.
    pub svgs: Map<u128, Seq<Seq<char>>>,
}

impl SiteView {
    /// The link to the image of the first page of the document `id`.
    pub open spec fn first_page(self, id: u128) -> Seq<char> {
        self.svgs[id][0]
    }

    /// The first breadcrumb of every trail: the index.
    pub open spec fn home_crumb(self) -> CrumbView {
        CrumbView { name: home_name(), link: self.prefix }
    }
}

/// The name of the index.
pub open spec fn home_name() -> Seq<char> {
    seq!['H', 'o', 'm', 'e']
}

/// The directory of the posts, below the output root.
pub open spec fn posts_dir() -> Seq<char> {
    seq!['p', 'o', 's', 't', 's']
}

/// The file of the index, below the output root.
pub open spec fn index_path() -> Seq<char> {
    seq!['i', 'n', 'd', 'e', 'x', '.', 'h', 't', 'm', 'l']
}

/// The end of the name of a page file.
pub open spec fn html_suffix() -> Seq<char> {
    seq!['.', 'h', 't', 'm', 'l']
}

/// The directory of the folder `name` in the directory `parent`.
pub open spec fn folder_dir(parent: Seq<char>, name: Seq<char>) -> Seq<char> {
    joined(parent, sanitized(name))
}

/// The file of the page of the document or folder `name` in the directory
/// `parent`: a sibling of the folder's directory.
pub open spec fn page_path(parent: Seq<char>, name: Seq<char>) -> Seq<char> {
    joined(parent, sanitized(name) + html_suffix())
}

/// The link to a file below the output root.
pub open spec fn link_to(site: SiteView, path: Seq<char>) -> Seq<char> {
    joined(site.prefix, path)
}

/// The link of the last breadcrumb of a trail.
pub open spec fn back_link(crumbs: Seq<CrumbView>) -> Option<Seq<char>> {
    if crumbs.len() > 0 {
        Some(crumbs.last().link)
    } else {
        None
    }
}

/// The page of the document `doc` in the directory `parent`, reached along `crumbs`.
pub open spec fn doc_page(
    site: SiteView,
    crumbs: Seq<CrumbView>,
    parent: Seq<char>,
    doc: DocView,
) -> PageView {
    PageView {
        template: Template::Document,
        path: page_path(parent, doc.name),
        build_nonce: site.build_nonce,
        prefix: site.prefix,
        title: site.title,
        logo: site.first_page(site.logo),
        name: doc.name,
        breadcrumbs: crumbs,
        back_link: back_link(crumbs),
        pages: site.svgs[doc.id],
        render_nav_thumbnails: site.svgs[doc.id].len() > 1,
        documents: Seq::empty(),
        folders: Seq::empty(),
    }
}

/// How a folder lists the document `doc` that lies in the directory `dir`.
pub open spec fn document_entry(site: SiteView, dir: Seq<char>, doc: DocView) -> DocumentEntryView {
    DocumentEntryView {
        name: doc.name,
        svg: site.first_page(doc.id),
        link: link_to(site, page_path(dir, doc.name)),
    }
}

/// How a folder lists each of its documents, which lie in the directory `dir`.
pub open spec fn document_entries(site: SiteView, dir: Seq<char>, docs: Seq<DocView>) -> Seq<
    DocumentEntryView,
> {
    docs.map_values(|d: DocView| document_entry(site, dir, d))
}

/// How a folder lists each of its sub-folders, which lie in the directory `dir`.
pub open spec fn folder_entries(
    site: SiteView,
    dir: Seq<char>,
    folders: Seq<(Seq<char>, PostsView)>,
) -> Seq<FolderEntryView> {
    folders.map_values(
        |f: (Seq<char>, PostsView)|
            FolderEntryView { name: f.0, link: link_to(site, page_path(dir, f.0)) },
    )
}

/// The pages of the documents `docs`, which lie in the directory `dir`.
pub open spec fn doc_outputs(
    site: SiteView,
    crumbs: Seq<CrumbView>,
    dir: Seq<char>,
    docs: Seq<DocView>,
) -> Seq<OutputView> {
    docs.map_values(|d: DocView| OutputView::Page { page: doc_page(site, crumbs, dir, d) })
}

/// The breadcrumb of the folder `name` in the directory `parent`.
pub open spec fn folder_crumb(site: SiteView, parent: Seq<char>, name: Seq<char>) -> CrumbView {
    CrumbView { name, link: link_to(site, page_path(parent, name)) }
}

/// The page of the folder `name` in the directory `parent`, reached along `crumbs`.
pub open spec fn folder_page(
    site: SiteView,
    crumbs: Seq<CrumbView>,
    parent: Seq<char>,
    name: Seq<char>,
    posts: PostsView,
) -> PageView {
    PageView {
        template: Template::Folder,
        path: page_path(parent, name),
        build_nonce: site.build_nonce,
        prefix: site.prefix,
        title: site.title,
        logo: site.first_page(site.logo),
        name,
        breadcrumbs: crumbs,
        back_link: back_link(crumbs),
        pages: Seq::empty(),
        render_nav_thumbnails: false,
        documents: document_entries(site, folder_dir(parent, name), posts.documents),
        folders: folder_entries(site, folder_dir(parent, name), posts.folders),
    }
}

/// Everything that the folder `name` in the directory `parent` brings about:
/// its directory, the pages of its documents, what its sub-folders bring
/// about, each in turn, and at last its own page. What lies in the folder is
/// reached along `crumbs` and the folder's own breadcrumb.
pub open spec fn folder_outputs(
    site: SiteView,
    crumbs: Seq<CrumbView>,
    parent: Seq<char>,
    name: Seq<char>,
    posts: PostsView,
) -> Seq<OutputView>
    decreases posts, posts.folders.len() + 1,
{
    let dir = folder_dir(parent, name);
    let inner = crumbs.push(folder_crumb(site, parent, name));
    seq![OutputView::Directory { path: dir }] + doc_outputs(site, inner, dir, posts.documents)
        + subfolder_outputs(site, inner, dir, posts, posts.folders.len()) + seq![
        OutputView::Page { page: folder_page(site, crumbs, parent, name, posts) },
    ]
}

/// What the first `n` sub-folders of `posts` bring about, each in turn. They
/// lie in the directory `dir` and are reached along `crumbs`.
pub open spec fn subfolder_outputs(
    site: SiteView,
    crumbs: Seq<CrumbView>,
    dir: Seq<char>,
    posts: PostsView,
    n: nat,
) -> Seq<OutputView>
    decreases posts, n,
{
    if n == 0 || n > posts.folders.len() {
        Seq::empty()
    } else {
        subfolder_outputs(site, crumbs, dir, posts, (n - 1) as nat) + folder_outputs(
            site,
            crumbs,
            dir,
            posts.folders[n - 1].0,
            posts.folders[n - 1].1,
        )
    }
}

/// The index page.
pub open spec fn index_page(site: SiteView, manifest: ManifestView) -> PageView {
    PageView {
        template: Template::Index,
        path: index_path(),
        build_nonce: site.build_nonce,
        prefix: site.prefix,
        title: site.title,
        logo: site.first_page(site.logo),
        name: home_name(),
        breadcrumbs: Seq::empty(),
        back_link: None,
        pages: site.svgs[manifest.home.id],
        render_nav_thumbnails: site.svgs[manifest.home.id].len() > 1,
        documents: document_entries(site, posts_dir(), manifest.posts.documents),
        folders: folder_entries(site, posts_dir(), manifest.posts.folders),
    }
}

/// Everything that the site brings about: the directory of the posts, the
/// pages of the top-level documents, what the top-level folders bring about,
/// each in turn, and at last the index page.
pub open spec fn site_outputs(site: SiteView, manifest: ManifestView) -> Seq<OutputView> {
    let trail = seq![site.home_crumb()];
    seq![OutputView::Directory { path: posts_dir() }] + doc_outputs(
        site,
        trail,
        posts_dir(),
        manifest.posts.documents,
    ) + subfolder_outputs(
        site,
        trail,
        posts_dir(),
        manifest.posts,
        manifest.posts.folders.len(),
    ) + seq![OutputView::Page { page: index_page(site, manifest) }]
}

/// What stands in the way of assembling the site, as far as the document at
/// the place `i` of the manifest's documents goes: nothing was rendered for
/// it, or it has no page though it is shown by its first page, as every
/// document but the home document is.
pub open spec fn doc_problem(site: SiteView, docs: Seq<DocView>, i: int) -> Option<GenError> {
    let id = docs[i].id;
    if !site.svgs.contains_key(id) {
        Some(GenError::MissingPages { id })
    } else if i != 0 && site.svgs[id].len() == 0 {
        Some(GenError::NoPages { id })
    } else {
        None
    }
}

/// The first problem at or after the place `from`, in the order of the
/// manifest's documents.
pub open spec fn first_problem(site: SiteView, docs: Seq<DocView>, from: int) -> Option<GenError>
    decreases docs.len() - from,
{
    if from < 0 || from >= docs.len() {
        None
    } else if doc_problem(site, docs, from) is Some {
        doc_problem(site, docs, from)
    } else {
        first_problem(site, docs, from + 1)
    }
}

/// What assembling the site comes to.
pub open spec fn site_plan(site: SiteView, manifest: ManifestView) -> Result<
    Seq<OutputView>,
    GenError,
> {
    match first_problem(site, manifest.docs(), 0) {
        Some(e) => Err(e),
        None => Ok(site_outputs(site, manifest)),
    }
}

/// Whether the site can show the document `doc` by its first page.
pub open spec fn shown(site: SiteView, doc: DocView) -> bool {
    site.svgs.contains_key(doc.id) && site.svgs[doc.id].len() > 0
}

/// Whether the site can show each of `docs` by its first page.
pub open spec fn all_shown(site: SiteView, docs: Seq<DocView>) -> bool {
    forall|d: DocView| docs.contains(d) ==> shown(site, d)
}

/// The documents of a sequence of folders, folder by folder: those of the
/// first `n` folders come first.
proof fn lemma_docs_of_folders_take(folders: Seq<(Seq<char>, PostsView)>, n: int, d: DocView)
    requires
        0 <= n <= folders.len(),
        crate::manifest::docs_of_folders(folders.take(n)).contains(d),
    ensures
        crate::manifest::docs_of_folders(folders).contains(d),
    decreases folders.len() - n,
{
    if n < folders.len() {
        let next = folders.take(n + 1);
        assert(next.drop_last() =~= folders.take(n));
        let before = crate::manifest::docs_of_folders(folders.take(n));
        let i = choose|i: int| 0 <= i < before.len() && before[i] == d;
        assert(crate::manifest::docs_of_folders(next) == before + next.last().1.docs());
        assert(crate::manifest::docs_of_folders(next)[i] == d);
        lemma_docs_of_folders_take(folders, n + 1, d);
    } else {
        assert(folders.take(n) =~= folders);
    }
}

/// A document of a folder, or of a folder below it, is a document of the whole.
pub proof fn lemma_docs_contained(posts: PostsView)
    ensures
        forall|i: int|
            0 <= i < posts.documents.len() ==> posts.docs().contains(
                #[trigger] posts.documents[i],
            ),
        forall|j: int, d: DocView|
            0 <= j < posts.folders.len() && (#[trigger] posts.folders[j]).1.docs().contains(d)
                ==> #[trigger] posts.docs().contains(d),
{
    let all = posts.docs();
    let below = crate::manifest::docs_of_folders(posts.folders);
    assert(all == posts.documents + below);
    assert forall|i: int| 0 <= i < posts.documents.len() implies all.contains(
        #[trigger] posts.documents[i],
    ) by {
        assert(all[i] == posts.documents[i]);
    }
    assert forall|j: int, d: DocView|
        0 <= j < posts.folders.len() && (#[trigger] posts.folders[j]).1.docs().contains(
            d,
        ) implies #[trigger] all.contains(d) by {
        let upto = posts.folders.take(j + 1);
        assert(upto.drop_last() =~= posts.folders.take(j));
        assert(upto.last() == posts.folders[j]);
        let inner = posts.folders[j].1.docs();
        let k = choose|k: int| 0 <= k < inner.len() && inner[k] == d;
        let before = crate::manifest::docs_of_folders(posts.folders.take(j));
        assert(crate::manifest::docs_of_folders(upto) == before + inner);
        assert(crate::manifest::docs_of_folders(upto)[before.len() + k] == d);
        lemma_docs_of_folders_take(posts.folders, j + 1, d);
        let m = choose|m: int| 0 <= m < below.len() && below[m] == d;
        assert(all[posts.documents.len() + m] == d);
    }
}

/// A manifest without a problem shows its logo and each of its posts.
pub proof fn lemma_rendered_shown(site: SiteView, manifest: ManifestView)
    requires
        first_problem(site, manifest.docs(), 0) is None,
    ensures
        site.svgs.contains_key(manifest.home.id),
        shown(site, manifest.logo),
        all_shown(site, manifest.posts.docs()),
{
    let docs = manifest.docs();
    lemma_first_problem_none(site, docs, 0);
    assert(docs[0] == manifest.home);
    assert(docs[1] == manifest.logo);
    assert(doc_problem(site, docs, 0) is None);
    assert(doc_problem(site, docs, 1) is None);
    assert forall|d: DocView| manifest.posts.docs().contains(d) implies shown(site, d) by {
        let inner = manifest.posts.docs();
        let k = choose|k: int| 0 <= k < inner.len() && inner[k] == d;
        assert(docs[k + 2] == d);
        assert(doc_problem(site, docs, k + 2) is None);
    }
}

/// Where no first problem is found from `from` on, no place from there on has one.
pub proof fn lemma_first_problem_none(site: SiteView, docs: Seq<DocView>, from: int)
    requires
        0 <= from,
        first_problem(site, docs, from) is None,
    ensures
        forall|i: int| from <= i < docs.len() ==> (#[trigger] doc_problem(site, docs, i)) is None,
    decreases docs.len() - from,
{
    if from < docs.len() {
        lemma_first_problem_none(site, docs, from + 1);
    }
}

/// A copy of each string of `list`.
pub fn copy_strings(list: &Vec<String>) -> (r: Vec<String>)
    ensures
        views(r@) == views(list@),
{
    let mut out: Vec<String> = Vec::new();
    let mut i: usize = 0;
    while i < list.len()
        invariant
            i <= list.len(),
            views(out@) == views(list@).take(i as int),
        decreases list.len() - i,
    {
        let ghost done = views(out@);
        out.push(list[i].clone());
        assert(views(out@) =~= done.push(list[i as int]@));
        assert(views(list@).take(i + 1) =~= views(list@).take(i as int).push(list[i as int]@));
        i = i + 1;
    }
    assert(views(list@).take(list.len() as int) =~= views(list@));
    out
}

/// A copy of each breadcrumb of `trail`.
pub fn copy_crumbs(trail: &Vec<Crumb>) -> (r: Vec<Crumb>)
    ensures
        crumb_views(r@) == crumb_views(trail@),
{
    let mut out: Vec<Crumb> = Vec::new();
    let mut i: usize = 0;
    while i < trail.len()
        invariant
            i <= trail.len(),
            crumb_views(out@) == crumb_views(trail@).take(i as int),
        decreases trail.len() - i,
    {
        let ghost done = crumb_views(out@);
        out.push(trail[i].clone());
        assert(crumb_views(out@) =~= done.push(trail[i as int]@));
        assert(crumb_views(trail@).take(i + 1) =~= crumb_views(trail@).take(i as int).push(
            trail[i as int]@,
        ));
        i = i + 1;
    }
    assert(crumb_views(trail@).take(trail.len() as int) =~= crumb_views(trail@));
    out
}

impl Generator {
    /// What the site is assembled from, besides the manifest.
    pub open spec fn site(&self) -> SiteView {
        SiteView {
            prefix: self.prefix@,
            title: self.config.title@,
            build_nonce: self.build_nonce@,
            logo: self.manifest.logo.id,
            svgs: Map::new(
                |id: u128| self.svgs@.contains_key(id),
                |id: u128| views(self.svgs@[id]@),
            ),
        }
    }

    /// The link to the file `path`, which is given below the output root:
    /// the prefix, then the path.
    pub fn relative_to_root(&self, path: &str) -> (r: String)
        ensures
            r@ == link_to(self.site(), path@),
    {
        join(self.prefix.as_str(), path)
    }

    /// The links to the page images of the document `id`, in page order, or
    /// `None` where nothing was rendered for it.
    pub fn doc_pages(&self, id: u128) -> (r: Option<&Vec<String>>)
        ensures
            match r {
                Some(pages) => self.site().svgs.contains_key(id) && views(pages@)
                    == self.site().svgs[id],
                None => !self.site().svgs.contains_key(id),
            },
    {
        broadcast use vstd::std_specs::btree::group_btree_axioms;

        self.svgs.get(&id)
    }

    /// The link to the image of the first page of the document `id`.
    fn doc_first_page(&self, id: u128) -> (r: String)
        requires
            self.site().svgs.contains_key(id),
            self.site().svgs[id].len() > 0,
        ensures
            r@ == self.site().first_page(id),
    {
        match self.doc_pages(id) {
            Some(pages) => {
                assert(views(pages@)[0] == pages@[0]@);
                pages[0].clone()
            },
            None => String::new(),
        }
    }

    /// A copy of the links to the page images of the document `id`.
    fn pages_of(&self, id: u128) -> (r: Vec<String>)
        requires
            self.site().svgs.contains_key(id),
        ensures
            views(r@) == self.site().svgs[id],
    {
        match self.doc_pages(id) {
            Some(pages) => copy_strings(pages),
            None => Vec::new(),
        }
    }

    /// The link to the image of the logo.
    fn logo_svg(&self) -> (r: String)
        requires
            self.site().svgs.contains_key(self.manifest.logo.id),
            self.site().svgs[self.manifest.logo.id].len() > 0,
        ensures
            r@ == self.site().first_page(self.site().logo),
    {
        self.doc_first_page(self.manifest.logo.id)
    }

    /// The page of the document `doc` in the directory `parent`, and the
    /// link to it. The trail leads to the folder the document lies in; the
    /// back link is the last step of the trail.
    fn gen_doc(&self, breadcrumbs: &Vec<Crumb>, parent: &str, doc: &DocumentMeta) -> (r: (
        Page,
        String,
    ))
        requires
            shown(self.site(), self.manifest.logo@),
            self.site().svgs.contains_key(doc.id),
        ensures
            r.0@ == doc_page(self.site(), crumb_views(breadcrumbs@), parent@, doc@),
            r.1@ == link_to(self.site(), page_path(parent@, doc.name@)),
    {
        let sanitized_name = sanitize(doc.name.as_str());
        let html = ".html";
        proof {
            reveal_strlit(".html");
            assert(html@ =~= html_suffix());
        }
        let file = chain(sanitized_name.as_str(), html);
        let doc_path = join(parent, file.as_str());
        let link = self.relative_to_root(doc_path.as_str());
        let pages = self.pages_of(doc.id);
        let back = if breadcrumbs.len() > 0 {
            assert(crumb_views(breadcrumbs@).last() == breadcrumbs@[breadcrumbs.len() - 1]@);
            Some(breadcrumbs[breadcrumbs.len() - 1].link.clone())
        } else {
            None
        };
        let page = Page {
            template: Template::Document,
            path: doc_path,
            build_nonce: self.build_nonce.clone(),
            prefix: self.prefix.clone(),
            title: self.config.title.clone(),
            logo: self.logo_svg(),
            name: doc.name.clone(),
            breadcrumbs: copy_crumbs(breadcrumbs),
            back_link: back,
            render_nav_thumbnails: pages.len() > 1,
            pages,
            documents: Vec::new(),
            folders: Vec::new(),
        };
        assert(page@.documents =~= Seq::empty());
        assert(page@.folders =~= Seq::empty());
        (page, link)
    }

    /// Brings about what lies in a folder: appends to `out` the pages of the
    /// documents of `posts` and what its sub-folders bring about, and hands
    /// back how the folder lists them. `dir` is the folder's directory, and
    /// the trail leads to the folder itself.
    fn gen_contents(&self, trail: &Vec<Crumb>, dir: &str, posts: &Posts, out: &mut Vec<Output>) -> (r:
        (Vec<DocumentEntry>, Vec<FolderEntry>))
        requires
            shown(self.site(), self.manifest.logo@),
            all_shown(self.site(), posts@.docs()),
        ensures
            output_views(final(out)@) == output_views(old(out)@) + doc_outputs(
                self.site(),
                crumb_views(trail@),
                dir@,
                posts@.documents,
            ) + subfolder_outputs(
                self.site(),
                crumb_views(trail@),
                dir@,
                posts@,
                posts@.folders.len(),
            ),
            document_entry_views(r.0@) == document_entries(self.site(), dir@, posts@.documents),
            folder_entry_views(r.1@) == folder_entries(self.site(), dir@, posts@.folders),
        decreases posts, 0nat,
    {
        let ghost site = self.site();
        let ghost crumbs = crumb_views(trail@);
        let ghost before = output_views(out@);
        let ghost pv = posts@;
        proof {
            lemma_posts_view(*posts);
            lemma_docs_contained(pv);
        }
        let ghost doc_outs = doc_outputs(site, crumbs, dir@, pv.documents);
        let ghost doc_list = document_entries(site, dir@, pv.documents);
        let mut docs: Vec<DocumentEntry> = Vec::new();
        let mut i: usize = 0;
        assert(document_entry_views(docs@) =~= doc_list.take(0));
        assert(before + doc_outs.take(0) =~= before);
        while i < posts.documents.len()
            invariant
                i <= posts.documents.len(),
                site == self.site(),
                crumbs == crumb_views(trail@),
                pv == posts@,
                pv.documents == crate::manifest::doc_views(posts.documents@),
                shown(site, self.manifest.logo@),
                all_shown(site, pv.docs()),
                forall|k: int|
                    0 <= k < pv.documents.len() ==> pv.docs().contains(#[trigger] pv.documents[k]),
                doc_outs == doc_outputs(site, crumbs, dir@, pv.documents),
                doc_list == document_entries(site, dir@, pv.documents),
                output_views(out@) == before + doc_outs.take(i as int),
                document_entry_views(docs@) == doc_list.take(i as int),
            decreases posts.documents.len() - i,
        {
            let doc = &posts.documents[i];
            assert(pv.documents[i as int] == doc@);
            assert(shown(site, doc@));
            let (page, link) = self.gen_doc(trail, dir, doc);
            let ghost outs = output_views(out@);
            out.push(Output::Page { page });
            assert(output_views(out@) =~= outs.push(doc_outs[i as int]));
            assert(doc_outs.take(i + 1) =~= doc_outs.take(i as int).push(doc_outs[i as int]));
            assert(before + doc_outs.take(i + 1) =~= (before + doc_outs.take(i as int)).push(
                doc_outs[i as int],
            ));
            let entry = DocumentEntry {
                name: doc.name.clone(),
                svg: self.doc_first_page(doc.id),
                link,
            };
            let ghost listed = document_entry_views(docs@);
            docs.push(entry);
            assert(document_entry_views(docs@) =~= listed.push(doc_list[i as int]));
            assert(doc_list.take(i + 1) =~= doc_list.take(i as int).push(doc_list[i as int]));
            i = i + 1;
        }
        assert(doc_outs.take(posts.documents.len() as int) =~= doc_outs);
        assert(doc_list.take(posts.documents.len() as int) =~= doc_list);
        let ghost folder_list = folder_entries(site, dir@, pv.folders);
        let mut sub_folders: Vec<FolderEntry> = Vec::new();
        let mut j: usize = 0;
        assert(folder_entry_views(sub_folders@) =~= folder_list.take(0));
        assert(subfolder_outputs(site, crumbs, dir@, pv, 0) =~= Seq::<OutputView>::empty());
        assert(before + doc_outs + Seq::<OutputView>::empty() =~= before + doc_outs);
        while j < posts.folders.len()
            invariant
                j <= posts.folders.len(),
                site == self.site(),
                crumbs == crumb_views(trail@),
                pv == posts@,
                pv.folders.len() == posts.folders@.len(),
                forall|k: int|
                    0 <= k < posts.folders@.len() ==> #[trigger] pv.folders[k] == (
                        posts.folders@[k].0@,
                        posts.folders@[k].1@,
                    ),
                shown(site, self.manifest.logo@),
                all_shown(site, pv.docs()),
                forall|k: int, d: DocView|
                    0 <= k < pv.folders.len() && (#[trigger] pv.folders[k]).1.docs().contains(d)
                        ==> #[trigger] pv.docs().contains(d),
                folder_list == folder_entries(site, dir@, pv.folders),
                output_views(out@) == before + doc_outs + subfolder_outputs(
                    site,
                    crumbs,
                    dir@,
                    pv,
                    j as nat,
                ),
                folder_entry_views(sub_folders@) == folder_list.take(j as int),
            decreases posts.folders.len() - j,
        {
            let name = &posts.folders[j].0;
            let sub = &posts.folders[j].1;
            assert(pv.folders[j as int] == (name@, sub@));
            assert(all_shown(site, sub@.docs())) by {
                assert forall|d: DocView| sub@.docs().contains(d) implies shown(site, d) by {
                    assert(pv.folders[j as int].1.docs().contains(d));
                    assert(pv.docs().contains(d));
                }
            }
            let ghost so_far = output_views(out@);
            let link = self.gen_folder(trail, dir, name.as_str(), sub, out);
            assert(subfolder_outputs(site, crumbs, dir@, pv, (j + 1) as nat) == subfolder_outputs(
                site,
                crumbs,
                dir@,
                pv,
                j as nat,
            ) + folder_outputs(site, crumbs, dir@, name@, sub@));
            assert(output_views(out@) =~= before + doc_outs + subfolder_outputs(
                site,
                crumbs,
                dir@,
                pv,
                (j + 1) as nat,
            ));
            let ghost listed = folder_entry_views(sub_folders@);
            sub_folders.push(FolderEntry { name: name.clone(), link });
            assert(folder_entry_views(sub_folders@) =~= listed.push(folder_list[j as int]));
            assert(folder_list.take(j + 1) =~= folder_list.take(j as int).push(
                folder_list[j as int],
            ));
            j = j + 1;
        }
        assert(folder_list.take(posts.folders.len() as int) =~= folder_list);
        (docs, sub_folders)
    }

    /// Brings about the folder `folder` in the directory `parent`: appends to
    /// `out` its directory, what lies in it, and its own page, and hands back
    /// the link to that page. The trail leads to the folder's parent.
    fn gen_folder(
        &self,
        breadcrumbs: &Vec<Crumb>,
        parent: &str,
        folder: &str,
        posts: &Posts,
        out: &mut Vec<Output>,
    ) -> (link: String)
        requires
            shown(self.site(), self.manifest.logo@),
            all_shown(self.site(), posts@.docs()),
        ensures
            link@ == link_to(self.site(), page_path(parent@, folder@)),
            output_views(final(out)@) == output_views(old(out)@) + folder_outputs(
                self.site(),
                crumb_views(breadcrumbs@),
                parent@,
                folder@,
                posts@,
            ),
        decreases posts, 1nat,
    {
        let ghost site = self.site();
        let ghost crumbs = crumb_views(breadcrumbs@);
        let ghost before = output_views(out@);
        let sanitized_folder = sanitize(folder);
        let folder_path = join(parent, sanitized_folder.as_str());
        out.push(Output::Directory { path: folder_path.clone() });
        assert(output_views(out@) =~= before.push(OutputView::Directory { path: folder_path@ }));
        let html = ".html";
        proof {
            reveal_strlit(".html");
            assert(html@ =~= html_suffix());
        }
        let file = chain(sanitized_folder.as_str(), html);
        let folder_html_path = join(parent, file.as_str());
        let folder_link = self.relative_to_root(folder_html_path.as_str());
        let mut crumbs_for_children = copy_crumbs(breadcrumbs);
        let ghost copied = crumb_views(crumbs_for_children@);
        crumbs_for_children.push(Crumb { name: folder.to_owned(), link: folder_link.clone() });
        assert(crumb_views(crumbs_for_children@) =~= copied.push(
            folder_crumb(site, parent@, folder@),
        ));
        let (documents, folders) = self.gen_contents(
            &crumbs_for_children,
            folder_path.as_str(),
            posts,
            out,
        );
        let back = if breadcrumbs.len() > 0 {
            assert(crumb_views(breadcrumbs@).last() == breadcrumbs@[breadcrumbs.len() - 1]@);
            Some(breadcrumbs[breadcrumbs.len() - 1].link.clone())
        } else {
            None
        };
        let page = Page {
            template: Template::Folder,
            path: folder_html_path,
            build_nonce: self.build_nonce.clone(),
            prefix: self.prefix.clone(),
            title: self.config.title.clone(),
            logo: self.logo_svg(),
            name: folder.to_owned(),
            breadcrumbs: copy_crumbs(breadcrumbs),
            back_link: back,
            pages: Vec::new(),
            render_nav_thumbnails: false,
            documents,
            folders,
        };
        assert(page@.pages =~= Seq::empty());
        assert(page@ == folder_page(site, crumbs, parent@, folder@, posts@));
        let ghost so_far = output_views(out@);
        out.push(Output::Page { page });
        assert(output_views(out@) =~= so_far.push(
            OutputView::Page { page: folder_page(site, crumbs, parent@, folder@, posts@) },
        ));
        assert(output_views(out@) =~= before + folder_outputs(
            site,
            crumbs,
            parent@,
            folder@,
            posts@,
        ));
        folder_link
    }

    /// The first document of the manifest that the site cannot show, if any.
    pub fn check_rendered(&self) -> (r: Option<GenError>)
        ensures
            r == first_problem(self.site(), self.manifest@.docs(), 0),
    {
        let docs = self.manifest.docs();
        let ghost ds = self.manifest@.docs();
        let ghost site = self.site();
        let mut i: usize = 0;
        while i < docs.len()
            invariant
                i <= docs.len(),
                site == self.site(),
                ds == self.manifest@.docs(),
                crate::manifest::doc_views(docs@) == ds,
                first_problem(site, ds, 0) == first_problem(site, ds, i as int),
            decreases docs.len() - i,
        {
            let id = docs[i].id;
            assert(ds[i as int] == docs[i as int]@);
            match self.doc_pages(id) {
                None => {
                    assert(doc_problem(site, ds, i as int) == Some(GenError::MissingPages { id }));
                    return Some(GenError::MissingPages { id });
                },
                Some(pages) => {
                    assert(views(pages@).len() == pages.len());
                    if i != 0 && pages.len() == 0 {
                        assert(doc_problem(site, ds, i as int) == Some(GenError::NoPages { id }));
                        return Some(GenError::NoPages { id });
                    }
                    assert(doc_problem(site, ds, i as int) is None);
                },
            }
            i = i + 1;
        }
        None
    }

    /// Assembles the site: the directories to make and the pages to render,
    /// in order, ending with the index page.
    ///
    /// Fails, with the first document it concerns in the order home, logo,
    /// posts, where nothing was rendered for a document of the manifest, or
    /// where a document that is shown by its first page has no page.
    pub fn gen_index(&self) -> (r: Result<Vec<Output>, GenError>)
        ensures
            match r {
                Ok(outs) => site_plan(self.site(), self.manifest@) == Ok::<
                    Seq<OutputView>,
                    GenError,
                >(output_views(outs@)),
                Err(e) => site_plan(self.site(), self.manifest@) == Err::<
                    Seq<OutputView>,
                    GenError,
                >(e),
            },
    {
        match self.check_rendered() {
            Some(e) => {
                return Err(e);
            },
            None => {},
        }
        let ghost site = self.site();
        proof {
            lemma_rendered_shown(site, self.manifest@);
        }
        let mut out: Vec<Output> = Vec::new();
        let posts = "posts";
        let home = "Home";
        let index = "index.html";
        proof {
            reveal_strlit("posts");
            reveal_strlit("Home");
            reveal_strlit("index.html");
            assert(posts@ =~= posts_dir());
            assert(home@ =~= home_name());
            assert(index@ =~= index_path());
        }
        out.push(Output::Directory { path: posts.to_owned() });
        assert(output_views(out@) =~= seq![OutputView::Directory { path: posts_dir() }]);
        let mut breadcrumbs: Vec<Crumb> = Vec::new();
        breadcrumbs.push(Crumb { name: home.to_owned(), link: self.prefix.clone() });
        assert(crumb_views(breadcrumbs@) =~= seq![site.home_crumb()]);
        let (documents, folders) = self.gen_contents(
            &breadcrumbs,
            posts,
            &self.manifest.posts,
            &mut out,
        );
        let pages = self.pages_of(self.manifest.home.id);
        let page = Page {
            template: Template::Index,
            path: index.to_owned(),
            build_nonce: self.build_nonce.clone(),
            prefix: self.prefix.clone(),
            title: self.config.title.clone(),
            logo: self.logo_svg(),
            name: home.to_owned(),
            breadcrumbs: Vec::new(),
            back_link: None,
            render_nav_thumbnails: pages.len() > 1,
            pages,
            documents,
            folders,
        };
        assert(page@.breadcrumbs =~= Seq::empty());
        assert(page@ == index_page(site, self.manifest@));
        let ghost so_far = output_views(out@);
        out.push(Output::Page { page });
        assert(output_views(out@) =~= so_far.push(
            OutputView::Page { page: index_page(site, self.manifest@) },
        ));
        assert(output_views(out@) =~= site_outputs(site, self.manifest@));
        Ok(out)
    }
}

} // verus!
