//! Rendering: what to do for each document, and for each page of one.
//!
//! Nothing here touches an archive or a page image. The functions decide:
//! whether a document is rendered or its pages are taken as they lie, which
//! entries of an archive are pages, what number each has, which template
//! backs it and where its image goes. The caller reads and writes.

use crate::cache::up_to_date;
use crate::generator::Generator;
use crate::ident::{id_text, id_to_text, Timestamp};
use crate::manifest::{doc_views, DocView, DocumentMeta, ManifestView};
use crate::order::{number_order, order_by_number, places};
use crate::text::{
    chain, decimal_text, ends_with, file_stem, has_suffix, join, joined, number_text,
    parse_number, parse_unsigned, stem_len, to_chars, trim_back, trim_back_at, trim_front,
    trim_front_at, views,
};
use vstd::prelude::*;

verus! {

/// Why the pages of a document could not be planned.
#[derive(Debug, PartialEq, Eq)]
pub enum RenderError {
    /// An archive entry holds a page, but its name gives no page number.
    PageNumber { id: u128, entry: String },
    /// The cache says the document is rendered, but its page directory is
    /// missing: the cache and the output tree disagree.
    CacheDirectory { id: u128 },
    /// The cache says the document is rendered, but its page directory holds a
    /// file whose stem is no page number: the cache and the output tree disagree.
    CachePage { id: u128, file: String },
}

/// The mathematical value of a `RenderError`.
pub ghost enum RenderErrorView {
    PageNumber { id: u128, entry: Seq<char> },
    CacheDirectory { id: u128 },
    CachePage { id: u128, file: Seq<char> },
}

impl View for RenderError {
    type V = RenderErrorView;

    open spec fn view(&self) -> RenderErrorView {
        match self {
            RenderError::PageNumber { id, entry } => RenderErrorView::PageNumber {
                id: *id,
                entry: entry@,
            },
            RenderError::CacheDirectory { id } => RenderErrorView::CacheDirectory { id: *id },
            RenderError::CachePage { id, file } => RenderErrorView::CachePage {
                id: *id,
                file: file@,
            },
        }
    }
}

impl RenderError {
    /// Whether the error says that the cache and the output tree disagree,
    /// as opposed to a document that cannot be rendered.
    pub fn is_cache_corruption(&self) -> (r: bool)
        ensures
            r == !(self@ is PageNumber),
    {
        match self {
            RenderError::PageNumber { .. } => false,
            RenderError::CacheDirectory { .. } => true,
            RenderError::CachePage { .. } => true,
        }
    }
}

/// One page to render.
#[derive(Debug, PartialEq, Eq)]
pub struct PageJob {
    /// The place in the archive of the entry that holds the page.
    pub entry: usize,
    /// The number of the page.
    pub page: usize,
    /// The template behind the page, if the archive names one for it.
    pub template: Option<String>,
    /// Where the image goes, below the output root.
    pub output: String,
    /// The link to the image.
    pub link: String,
}

/// The mathematical value of a `PageJob`.
pub ghost struct PageJobView {
    pub entry: int,
    pub page: nat,
    pub template: Option<Seq<char>>,
    pub output: Seq<char>,
    pub link: Seq<char>,
}

impl View for PageJob {
    type V = PageJobView;

    open spec fn view(&self) -> PageJobView {
        PageJobView {
            entry: self.entry as int,
            page: self.page as nat,
            template: match self.template {
                Some(t) => Some(t@),
                None => None,
            },
            output: self.output@,
            link: self.link@,
        }
    }
}

/// The view of each job of a sequence.
pub open spec fn job_views(jobs: Seq<PageJob>) -> Seq<PageJobView> {
    jobs.map_values(|j: PageJob| j@)
}

/// The links of the jobs of a sequence: the pages of the document.
pub open spec fn job_links(jobs: Seq<PageJobView>) -> Seq<Seq<char>> {
    jobs.map_values(|j: PageJobView| j.link)
}

/// The end of the name of an archive entry that holds a page.
pub open spec fn page_suffix() -> Seq<char> {
    seq!['.', 'r', 'm']
}

/// The end of the name of the archive entry that lists the templates.
pub open spec fn templates_suffix() -> Seq<char> {
    seq!['.', 'p', 'a', 'g', 'e', 'd', 'a', 't', 'a']
}

/// The end of the name of a page image.
pub open spec fn image_suffix() -> Seq<char> {
    seq!['.', 's', 'v', 'g']
}

/// The directory of all page images, below the output root.
pub open spec fn images_root() -> Seq<char> {
    seq!['s', 'v', 'g']
}

/// The directory of the page images of the document `id`, below the output root.
pub open spec fn page_dir(id: u128) -> Seq<char> {
    joined(images_root(), id_text(id))
}

/// The archive of the document `id`, below the material root.
pub open spec fn archive_path(id: u128) -> Seq<char> {
    joined(seq!['z', 'i', 'p'], id_text(id) + seq!['.', 'z', 'i', 'p'])
}

/// Whether the archive entry `name` holds a page.
pub open spec fn is_page_entry(name: Seq<char>) -> bool {
    ends_with(name, page_suffix())
}

/// The page number in the name of an archive entry of the document `id`:
/// what is left of the name without the identifier and a slash in front, as
/// often as they stand there, and without the page suffix at the end, as often
/// as it stands there, read as an unsigned decimal number.
pub open spec fn entry_page(id: u128, name: Seq<char>) -> Option<nat> {
    parse_unsigned(
        trim_back(trim_front(name, id_text(id).push('/')), page_suffix()),
        usize::MAX as nat,
    )
}

/// The place of the first entry at or after `from` that holds a page but
/// gives no page number.
pub open spec fn first_unreadable(id: u128, names: Seq<Seq<char>>, from: int) -> Option<int>
    decreases names.len() - from,
{
    if from < 0 || from >= names.len() {
        None
    } else if is_page_entry(names[from]) && entry_page(id, names[from]) is None {
        Some(from)
    } else {
        first_unreadable(id, names, from + 1)
    }
}

/// The places of the entries among the first `n` that hold a page, ascending.
pub open spec fn page_entries(names: Seq<Seq<char>>, n: nat) -> Seq<int>
    decreases n,
{
    if n == 0 {
        Seq::empty()
    } else if is_page_entry(names[n - 1]) {
        page_entries(names, (n - 1) as nat).push(n - 1)
    } else {
        page_entries(names, (n - 1) as nat)
    }
}

/// The page number of each of `entries`.
pub open spec fn page_keys(id: u128, names: Seq<Seq<char>>, entries: Seq<int>) -> Seq<u64> {
    entries.map_values(|e: int| entry_page(id, names[e]).unwrap() as u64)
}

/// The template of the page `page`: the line of the template list at that
/// place, where there is a list and it is long enough.
pub open spec fn template_for(templates: Option<Seq<Seq<char>>>, page: nat) -> Option<Seq<char>> {
    match templates {
        Some(list) => if page < list.len() {
            Some(list[page as int])
        } else {
            None
        },
        None => None,
    }
}

/// Where the image of the page `page` of the document `id` goes, below the output root.
pub open spec fn page_output(id: u128, page: nat) -> Seq<char> {
    joined(page_dir(id), decimal_text(page) + image_suffix())
}

/// The job for the archive entry at `e`.
pub open spec fn job_for(
    prefix: Seq<char>,
    id: u128,
    names: Seq<Seq<char>>,
    templates: Option<Seq<Seq<char>>>,
    e: int,
) -> PageJobView {
    let page = entry_page(id, names[e]).unwrap();
    PageJobView {
        entry: e,
        page,
        template: template_for(templates, page),
        output: page_output(id, page),
        link: joined(prefix, page_output(id, page)),
    }
}

/// The jobs of an archive: one for each entry that holds a page, in the
/// numeric order of the pages, entries of one page number in archive order.
pub open spec fn notebook_jobs(
    prefix: Seq<char>,
    id: u128,
    names: Seq<Seq<char>>,
    templates: Option<Seq<Seq<char>>>,
) -> Seq<PageJobView> {
    let entries = page_entries(names, names.len());
    number_order(page_keys(id, names, entries), entries.len()).map_values(
        |k: int| job_for(prefix, id, names, templates, entries[k]),
    )
}

/// What rendering an archive comes to: the jobs, or the first entry that
/// holds a page without a page number.
pub open spec fn notebook_plan(
    prefix: Seq<char>,
    id: u128,
    names: Seq<Seq<char>>,
    templates: Option<Seq<Seq<char>>>,
) -> Result<Seq<PageJobView>, RenderErrorView> {
    match first_unreadable(id, names, 0) {
        Some(e) => Err(RenderErrorView::PageNumber { id, entry: names[e] }),
        None => Ok(notebook_jobs(prefix, id, names, templates)),
    }
}

/// The page number that the name of a page image gives: its stem, read as an
/// unsigned decimal number of 16 bits.
pub open spec fn stem_number(file: Seq<char>) -> Option<nat> {
    parse_unsigned(file_stem(file), u16::MAX as nat)
}

/// The place of the first file at or after `from` whose stem is no page number.
pub open spec fn first_stray(files: Seq<Seq<char>>, from: int) -> Option<int>
    decreases files.len() - from,
{
    if from < 0 || from >= files.len() {
        None
    } else if stem_number(files[from]) is None {
        Some(from)
    } else {
        first_stray(files, from + 1)
    }
}

/// The page number of each of `files`.
pub open spec fn stem_keys(files: Seq<Seq<char>>) -> Seq<u64> {
    files.map_values(|f: Seq<char>| stem_number(f).unwrap() as u64)
}

/// The links to the files of a page directory, in the numeric order of their stems.
pub open spec fn cached_links(prefix: Seq<char>, id: u128, files: Seq<Seq<char>>) -> Seq<
    Seq<char>,
> {
    number_order(stem_keys(files), files.len()).map_values(
        |k: int| joined(prefix, joined(page_dir(id), files[k])),
    )
}

/// What taking the pages of a rendered document from its directory comes to,
/// where `listing` is the names of the files in it, or `None` where the
/// directory could not be read.
pub open spec fn cached_plan(prefix: Seq<char>, id: u128, listing: Option<Seq<Seq<char>>>) -> Result<
    Seq<Seq<char>>,
    RenderErrorView,
> {
    match listing {
        None => Err(RenderErrorView::CacheDirectory { id }),
        Some(files) => match first_stray(files, 0) {
            Some(k) => Err(RenderErrorView::CachePage { id, file: files[k] }),
            None => Ok(cached_links(prefix, id, files)),
        },
    }
}

/// The view of a planning result.
pub open spec fn jobs_result_view(r: Result<Vec<PageJob>, RenderError>) -> Result<
    Seq<PageJobView>,
    RenderErrorView,
> {
    match r {
        Ok(jobs) => Ok(job_views(jobs@)),
        Err(e) => Err(e@),
    }
}

/// The view of a listing result.
pub open spec fn links_result_view(r: Result<Vec<String>, RenderError>) -> Result<
    Seq<Seq<char>>,
    RenderErrorView,
> {
    match r {
        Ok(links) => Ok(views(links@)),
        Err(e) => Err(e@),
    }
}

/// The view of an optional list of strings.
pub open spec fn list_view(list: Option<&Vec<String>>) -> Option<Seq<Seq<char>>> {
    match list {
        Some(l) => Some(views(l@)),
        None => None,
    }
}

/// What is done for a document in this run.
#[derive(Clone, Copy, Debug, PartialEq, Eq, Structural)]
pub enum RenderAction {
    /// The document was rendered as it now stands: its pages are taken from
    /// its page directory.
    Reuse,
    /// The document is rendered from its archive, and what its page
    /// directory held is replaced.
    Render,
}

/// The work that one document asks for. Each task has a page directory of
/// its own, named by the document's identifier.
#[derive(Debug, PartialEq, Eq)]
pub struct RenderTask {
    pub id: u128,
    /// Whether the page images are cut to what is drawn on the page.
    pub crop: bool,
    pub action: RenderAction,
    /// The document's archive, below the material root.
    pub archive: String,
    /// The document's page directory, below the output root.
    pub directory: String,
}

/// The mathematical value of a `RenderTask`.
pub ghost struct RenderTaskView {
    pub id: u128,
    pub crop: bool,
    pub action: RenderAction,
    pub archive: Seq<char>,
    pub directory: Seq<char>,
}

impl View for RenderTask {
    type V = RenderTaskView;

    open spec fn view(&self) -> RenderTaskView {
        RenderTaskView {
            id: self.id,
            crop: self.crop,
            action: self.action,
            archive: self.archive@,
            directory: self.directory@,
        }
    }
}

/// The view of each task of a sequence.
pub open spec fn task_views(tasks: Seq<RenderTask>) -> Seq<RenderTaskView> {
    tasks.map_values(|t: RenderTask| t@)
}

/// The task for `doc` under the cache `entries`: its pages are reused exactly
/// when the cache holds the document's current modification time.
pub open spec fn task_for(entries: Map<u128, Timestamp>, doc: DocView, crop: bool) -> RenderTaskView {
    RenderTaskView {
        id: doc.id,
        crop,
        action: if up_to_date(entries, doc) {
            RenderAction::Reuse
        } else {
            RenderAction::Render
        },
        archive: archive_path(doc.id),
        directory: page_dir(doc.id),
    }
}

/// The tasks of a run: one for each document of the manifest, in the order
/// home, logo, posts. Only the logo is cropped.
pub open spec fn render_tasks(entries: Map<u128, Timestamp>, manifest: ManifestView) -> Seq<
    RenderTaskView,
> {
    Seq::new(manifest.docs().len(), |i: int| task_for(entries, manifest.docs()[i], i == 1))
}

/// `svgs` after taking in each of `rendered` in turn; a later result for an
/// identifier replaces an earlier one.
pub open spec fn collected(svgs: Map<u128, Vec<String>>, rendered: Seq<(u128, Vec<String>)>) -> Map<
    u128,
    Vec<String>,
>
    decreases rendered.len(),
{
    if rendered.len() == 0 {
        svgs
    } else {
        collected(svgs, rendered.drop_last()).insert(rendered.last().0, rendered.last().1)
    }
}

fn page_suffix_chars() -> (r: Vec<char>)
    ensures
        r@ == page_suffix(),
{
    let r = vec!['.', 'r', 'm'];
    assert(r@ =~= page_suffix());
    r
}

fn templates_suffix_chars() -> (r: Vec<char>)
    ensures
        r@ == templates_suffix(),
{
    let r = vec!['.', 'p', 'a', 'g', 'e', 'd', 'a', 't', 'a'];
    assert(r@ =~= templates_suffix());
    r
}

/// The directory of the page images of the document whose identifier has the text `id`.
fn page_dir_of(id: &str) -> (r: String)
    ensures
        r@ == joined(images_root(), id@),
{
    let root = "svg";
    proof {
        reveal_strlit("svg");
        assert(root@ =~= images_root());
    }
    join(root, id)
}

/// The place of the archive entry that lists the template of each page: the
/// first whose name ends in `.pagedata`.
pub fn templates_entry(names: &Vec<String>) -> (r: Option<usize>)
    ensures
        match r {
            Some(i) => i < names.len() && ends_with(names[i as int]@, templates_suffix())
                && forall|j: int| 0 <= j < i ==> !ends_with(#[trigger] names[j]@, templates_suffix()),
            None => forall|j: int|
                0 <= j < names.len() ==> !ends_with(#[trigger] names[j]@, templates_suffix()),
        },
{
    let suffix = templates_suffix_chars();
    let mut i: usize = 0;
    while i < names.len()
        invariant
            i <= names.len(),
            suffix@ == templates_suffix(),
            forall|j: int| 0 <= j < i ==> !ends_with(#[trigger] names[j]@, templates_suffix()),
        decreases names.len() - i,
    {
        let chars = to_chars(names[i].as_str());
        assert(chars@.subrange(0, chars.len() as int) =~= names[i as int]@);
        if has_suffix(&chars, 0, chars.len(), &suffix) {
            return Some(i);
        }
        i = i + 1;
    }
    None
}

impl Generator {
    /// Decides what is done for `doc`: its pages are reused if the cache holds
    /// an entry for it whose time equals the document's modification time,
    /// and it is rendered in every other case, a cached time later than the
    /// document's included.
    pub fn render_doc_meta(&self, doc: &DocumentMeta, crop: bool) -> (r: RenderTask)
        ensures
            r@ == task_for(self.render_cache.cache@, doc@, crop),
    {
        let id_str = id_to_text(doc.id);
        let action = if self.render_cache.is_up_to_date(doc) {
            RenderAction::Reuse
        } else {
            RenderAction::Render
        };
        let zip = "zip";
        let ext = ".zip";
        proof {
            reveal_strlit("zip");
            reveal_strlit(".zip");
            assert(zip@ =~= seq!['z', 'i', 'p']);
            assert(ext@ =~= seq!['.', 'z', 'i', 'p']);
        }
        let file = chain(id_str.as_str(), ext);
        let archive = join(zip, file.as_str());
        let directory = page_dir_of(id_str.as_str());
        RenderTask { id: doc.id, crop, action, archive, directory }
    }

    /// The tasks of this run: one for each document of the manifest, in the
    /// order home, logo, posts. Tasks do not depend on one another and may be
    /// carried out in any order, or side by side.
    pub fn render_all_svgs(&self) -> (r: Vec<RenderTask>)
        ensures
            task_views(r@) == render_tasks(self.render_cache.cache@, self.manifest@),
    {
        let docs = self.manifest.docs();
        let ghost wanted = render_tasks(self.render_cache.cache@, self.manifest@);
        let mut tasks: Vec<RenderTask> = Vec::new();
        let mut i: usize = 0;
        assert(task_views(tasks@) =~= wanted.take(0));
        while i < docs.len()
            invariant
                i <= docs.len(),
                doc_views(docs@) == self.manifest@.docs(),
                wanted == render_tasks(self.render_cache.cache@, self.manifest@),
                task_views(tasks@) == wanted.take(i as int),
            decreases docs.len() - i,
        {
            let task = self.render_doc_meta(&docs[i], i == 1);
            assert(doc_views(docs@)[i as int] == docs[i as int]@);
            let ghost done = task_views(tasks@);
            tasks.push(task);
            assert(task_views(tasks@) =~= done.push(task@));
            assert(wanted.take(i + 1) =~= wanted.take(i as int).push(wanted[i as int]));
            i = i + 1;
        }
        assert(wanted.take(docs.len() as int) =~= wanted);
        tasks
    }

    /// Takes in what the tasks brought: for each document its identifier and
    /// the links to its pages. Every document of the manifest is then
    /// recorded in the cache at its current modification time, whether its
    /// pages were reused or rendered.
    pub fn finish_rendering(&mut self, rendered: Vec<(u128, Vec<String>)>)
        ensures
            final(self).svgs@ == collected(old(self).svgs@, rendered@),
            final(self).render_cache.version == old(self).render_cache.version,
            final(self).render_cache.cache@ == crate::cache::recorded(
                old(self).render_cache.cache@,
                old(self).manifest@.docs(),
            ),
            final(self).prefix == old(self).prefix,
            final(self).config == old(self).config,
            final(self).manifest == old(self).manifest,
            final(self).build_nonce == old(self).build_nonce,
    {
        broadcast use vstd::std_specs::btree::group_btree_axioms;

        let ghost all = rendered@;
        assert(all.take(0) =~= Seq::<(u128, Vec<String>)>::empty());
        for item in it: rendered
            invariant
                it.seq() == all,
                self.svgs@ == collected(old(self).svgs@, all.take(it.index() as int)),
                self.render_cache == old(self).render_cache,
                self.prefix == old(self).prefix,
                self.config == old(self).config,
                self.manifest == old(self).manifest,
                self.build_nonce == old(self).build_nonce,
        {
            assert(all.take(it.index() + 1).drop_last() =~= all.take(it.index() as int));
            assert(all.take(it.index() + 1).last() == item);
            self.svgs.insert(item.0, item.1);
        }
        assert(all.take(all.len() as int) =~= all);
        let docs = self.manifest.docs();
        self.render_cache.record(&docs);
    }

    /// Plans the rendering of the archive of the document `id`. `names` are
    /// the names of the archive's entries in archive order, `templates` the
    /// lines of its template list, if it has one.
    ///
    /// Every entry whose name ends in `.rm` holds a page. The result has one
    /// job for each, pages in numeric order. An entry that holds a page
    /// without a readable page number fails the whole plan, with the first
    /// such entry.
    pub fn render_notebook_zip(
        &self,
        id: u128,
        names: &Vec<String>,
        templates: Option<&Vec<String>>,
    ) -> (r: Result<Vec<PageJob>, RenderError>)
        ensures
            jobs_result_view(r) == notebook_plan(
                self.prefix@,
                id,
                views(names@),
                list_view(templates),
            ),
    {
        let ghost ns = views(names@);
        let id_str = id_to_text(id);
        let mut pattern = to_chars(id_str.as_str());
        pattern.push('/');
        let suffix = page_suffix_chars();
        let mut entries: Vec<usize> = Vec::new();
        let mut keys: Vec<u64> = Vec::new();
        let mut e: usize = 0;
        assert(places(entries@) =~= page_entries(ns, 0));
        assert(keys@ =~= page_keys(id, ns, page_entries(ns, 0)));
        while e < names.len()
            invariant
                e <= names.len(),
                ns == views(names@),
                pattern@ == id_text(id).push('/'),
                suffix@ == page_suffix(),
                first_unreadable(id, ns, 0) == first_unreadable(id, ns, e as int),
                places(entries@) == page_entries(ns, e as nat),
                keys@ == page_keys(id, ns, page_entries(ns, e as nat)),
                entries.len() == keys.len(),
                forall|i: int| 0 <= i < entries.len() ==> entries[i] < e,
                forall|i: int| 0 <= i < keys.len() ==> keys[i] <= usize::MAX,
                forall|i: int|
                    0 <= i < entries.len() ==> entry_page(id, ns[#[trigger] entries[i] as int])
                        == Some(keys[i] as nat),
            decreases names.len() - e,
        {
            let chars = to_chars(names[e].as_str());
            let ghost name = ns[e as int];
            assert(name == names[e as int]@);
            assert(chars@.subrange(0, chars.len() as int) =~= name);
            let ghost seen = page_entries(ns, e as nat);
            if has_suffix(&chars, 0, chars.len(), &suffix) {
                let start = trim_front_at(&chars, 0, chars.len(), &pattern);
                let end = trim_back_at(&chars, start, chars.len(), &suffix);
                match parse_number(&chars, start, end, usize::MAX as u64) {
                    None => {
                        assert(entry_page(id, name) is None);
                        return Err(RenderError::PageNumber { id, entry: names[e].clone() });
                    },
                    Some(n) => {
                        assert(entry_page(id, name) == Some(n as nat));
                        entries.push(e);
                        keys.push(n);
                        assert(page_entries(ns, (e + 1) as nat) == seen.push(e as int));
                        assert(places(entries@) =~= seen.push(e as int));
                        assert(keys@ =~= page_keys(id, ns, seen.push(e as int)));
                    },
                }
            } else {
                assert(page_entries(ns, (e + 1) as nat) == seen);
            }
            e = e + 1;
        }
        let ghost all = page_entries(ns, ns.len());
        assert(first_unreadable(id, ns, 0) is None);
        let order = order_by_number(&keys);
        let dir = page_dir_of(id_str.as_str());
        let ghost ts = list_view(templates);
        let ghost wanted = notebook_jobs(self.prefix@, id, ns, ts);
        let ghost arranged = number_order(keys@, keys@.len());
        let mut jobs: Vec<PageJob> = Vec::new();
        let mut j: usize = 0;
        assert(job_views(jobs@) =~= wanted.take(0));
        while j < order.len()
            invariant
                j <= order.len(),
                ns == views(names@),
                ts == list_view(templates),
                all == page_entries(ns, ns.len()),
                places(entries@) == all,
                keys@ == page_keys(id, ns, all),
                entries.len() == keys.len(),
                order.len() == keys.len(),
                forall|i: int| 0 <= i < order.len() ==> order[i] < keys.len(),
                forall|i: int| 0 <= i < entries.len() ==> entries[i] < names.len(),
                forall|i: int| 0 <= i < keys.len() ==> keys[i] <= usize::MAX,
                forall|i: int|
                    0 <= i < entries.len() ==> entry_page(id, ns[#[trigger] entries[i] as int])
                        == Some(keys[i] as nat),
                arranged == number_order(keys@, keys@.len()),
                places(order@) == arranged,
                wanted == notebook_jobs(self.prefix@, id, ns, ts),
                dir@ == page_dir(id),
                job_views(jobs@) == wanted.take(j as int),
            decreases order.len() - j,
        {
            let k: usize = order[j];
            let entry: usize = entries[k];
            let number: u64 = keys[k];
            let page: usize = number as usize;
            assert(arranged[j as int] == k as int) by {
                assert(places(order@)[j as int] == order@[j as int] as int);
            }
            assert(all[k as int] == entry as int) by {
                assert(places(entries@)[k as int] == entries@[k as int] as int);
            }
            assert(entry_page(id, ns[entry as int]) == Some(number as nat));
            let template: Option<String> = match templates {
                Some(list) => {
                    if page < list.len() {
                        Some(list[page].clone())
                    } else {
                        None
                    }
                },
                None => None,
            };
            let image = ".svg";
            proof {
                reveal_strlit(".svg");
                assert(image@ =~= image_suffix());
            }
            let file = chain(number_text(number).as_str(), image);
            let output = join(dir.as_str(), file.as_str());
            let link = join(self.prefix.as_str(), output.as_str());
            let job = PageJob { entry, page, template, output, link };
            assert(job@ == job_for(self.prefix@, id, ns, ts, entry as int)) by {
                assert(job@.template == template_for(ts, page as nat));
            }
            let ghost done = job_views(jobs@);
            jobs.push(job);
            assert(job_views(jobs@) =~= done.push(job@));
            assert(wanted.take(j + 1) =~= wanted.take(j as int).push(wanted[j as int]));
            j = j + 1;
        }
        assert(wanted.take(order.len() as int) =~= wanted);
        Ok(jobs)
    }

    /// The pages of a document that the cache says is rendered, taken from
    /// its page directory. `listing` holds the names of the files in that
    /// directory, in any order, or is `None` where the directory could not be
    /// read.
    ///
    /// The result links to each file, in the numeric order of the stems. A
    /// missing directory, and a file whose stem is no page number, say that
    /// the cache is wrong; neither is taken for a document to render.
    pub fn cached_pages(&self, id: u128, listing: Option<&Vec<String>>) -> (r: Result<
        Vec<String>,
        RenderError,
    >)
        ensures
            links_result_view(r) == cached_plan(self.prefix@, id, list_view(listing)),
    {
        let files = match listing {
            Some(files) => files,
            None => {
                return Err(RenderError::CacheDirectory { id });
            },
        };
        let ghost fs = views(files@);
        let mut keys: Vec<u64> = Vec::new();
        let mut i: usize = 0;
        assert(keys@ =~= stem_keys(fs.take(0)));
        while i < files.len()
            invariant
                i <= files.len(),
                fs == views(files@),
                list_view(listing) == Some(fs),
                first_stray(fs, 0) == first_stray(fs, i as int),
                keys@ == stem_keys(fs.take(i as int)),
            decreases files.len() - i,
        {
            let chars = to_chars(files[i].as_str());
            let ghost file = fs[i as int];
            assert(file == files[i as int]@);
            let stem = stem_len(&chars);
            assert(chars@.subrange(0, stem as int) =~= file_stem(file));
            match parse_number(&chars, 0, stem, 65535) {
                None => {
                    assert(stem_number(file) is None);
                    assert(first_stray(fs, i as int) == Some(i as int));
                    return Err(RenderError::CachePage { id, file: files[i].clone() });
                },
                Some(n) => {
                    assert(stem_number(file) == Some(n as nat));
                    keys.push(n);
                    assert(fs.take(i + 1) =~= fs.take(i as int).push(file));
                    assert(keys@ =~= stem_keys(fs.take(i + 1)));
                },
            }
            i = i + 1;
        }
        assert(fs.take(files.len() as int) =~= fs);
        assert(first_stray(fs, 0) is None);
        let order = order_by_number(&keys);
        let id_str = id_to_text(id);
        let dir = page_dir_of(id_str.as_str());
        let ghost wanted = cached_links(self.prefix@, id, fs);
        let mut links: Vec<String> = Vec::new();
        let mut j: usize = 0;
        assert(views(links@) =~= wanted.take(0));
        while j < order.len()
            invariant
                j <= order.len(),
                fs == views(files@),
                keys@ == stem_keys(fs),
                order.len() == keys.len(),
                keys.len() == files.len(),
                forall|i: int| 0 <= i < order.len() ==> order[i] < keys.len(),
                places(order@) == number_order(keys@, keys@.len()),
                wanted == cached_links(self.prefix@, id, fs),
                dir@ == page_dir(id),
                views(links@) == wanted.take(j as int),
            decreases order.len() - j,
        {
            let k: usize = order[j];
            assert(number_order(keys@, keys@.len())[j as int] == k as int) by {
                assert(places(order@)[j as int] == order@[j as int] as int);
            }
            let path = join(dir.as_str(), files[k].as_str());
            let link = join(self.prefix.as_str(), path.as_str());
            assert(link@ == wanted[j as int]);
            let ghost done = views(links@);
            links.push(link);
            assert(views(links@) =~= done.push(link@));
            assert(wanted.take(j + 1) =~= wanted.take(j as int).push(wanted[j as int]));
            j = j + 1;
        }
        assert(wanted.take(order.len() as int) =~= wanted);
        Ok(links)
    }
}

/// Whether the cache `entries` holds, for each of `docs`, the document's
/// current modification time.
pub open spec fn all_up_to_date(entries: Map<u128, Timestamp>, docs: Seq<DocView>) -> bool {
    forall|i: int| 0 <= i < docs.len() ==> up_to_date(entries, #[trigger] docs[i])
}

/// With every document up to date, nothing is rendered again.
///
/// Where the cache holds the current modification time of every document of
/// the manifest, there is one task for each document and each reuses the
/// pages that lie in the document's directory.
pub proof fn lemma_fresh_cache_reuses(entries: Map<u128, Timestamp>, manifest: ManifestView)
    requires
        all_up_to_date(entries, manifest.docs()),
    ensures
        render_tasks(entries, manifest).len() == manifest.docs().len(),
        forall|i: int|
            0 <= i < manifest.docs().len() ==> (#[trigger] render_tasks(entries, manifest)[i]).id
                == manifest.docs()[i].id && render_tasks(entries, manifest)[i].action
                == RenderAction::Reuse,
{
    assert forall|i: int| 0 <= i < manifest.docs().len() implies (#[trigger] render_tasks(
        entries,
        manifest,
    )[i]).id == manifest.docs()[i].id && render_tasks(entries, manifest)[i].action
        == RenderAction::Reuse by {
        assert(up_to_date(entries, manifest.docs()[i]));
    }
}

/// A document whose cached time is not its own is rendered.
///
/// Where the cache has no entry for a document, or an entry with another
/// time than the document's, be it earlier or later, the document's task
/// renders it.
pub proof fn lemma_stale_renders(entries: Map<u128, Timestamp>, manifest: ManifestView, i: int)
    requires
        0 <= i < manifest.docs().len(),
        !entries.contains_key(manifest.docs()[i].id) || entries[manifest.docs()[i].id]
            != manifest.docs()[i].modified_at,
    ensures
        render_tasks(entries, manifest)[i].id == manifest.docs()[i].id,
        render_tasks(entries, manifest)[i].action == RenderAction::Render,
{
}

/// Whether no two of `docs` have one identifier and different modification times.
pub open spec fn agree(docs: Seq<DocView>) -> bool {
    forall|i: int, j: int|
        0 <= i < docs.len() && 0 <= j < docs.len() && (#[trigger] docs[i]).id == (
        #[trigger] docs[j]).id ==> docs[i].modified_at == docs[j].modified_at
}

/// What recording leaves for an identifier: the time of the last document
/// recorded under it, and what stood there before where there is none.
pub proof fn lemma_recorded(entries: Map<u128, Timestamp>, docs: Seq<DocView>, id: u128)
    ensures
        (exists|i: int| 0 <= i < docs.len() && docs[i].id == id) ==> crate::cache::recorded(
            entries,
            docs,
        ).contains_key(id) && exists|i: int|
            0 <= i < docs.len() && docs[i].id == id && crate::cache::recorded(entries, docs)[id]
                == (#[trigger] docs[i]).modified_at,
        !(exists|i: int| 0 <= i < docs.len() && docs[i].id == id) ==> (crate::cache::recorded(
            entries,
            docs,
        ).contains_key(id) <==> entries.contains_key(id)) && (entries.contains_key(id)
            ==> crate::cache::recorded(entries, docs)[id] == entries[id]),
    decreases docs.len(),
{
    if docs.len() > 0 {
        let before = docs.drop_last();
        lemma_recorded(entries, before, id);
        let last = docs.last();
        if last.id == id {
            assert(docs[docs.len() - 1].id == id);
        } else if exists|i: int| 0 <= i < before.len() && before[i].id == id {
            let i = choose|i: int|
                0 <= i < before.len() && before[i].id == id && crate::cache::recorded(
                    entries,
                    before,
                )[id] == (#[trigger] before[i]).modified_at;
            assert(docs[i] == before[i]);
        } else {
            assert forall|i: int| 0 <= i < docs.len() implies docs[i].id != id by {
                if i < before.len() {
                    assert(before[i] == docs[i]);
                }
            }
        }
    }
}

/// After a run the cache is up to date, and the next run reuses everything.
///
/// Recording the documents of a manifest leaves each of them up to date,
/// also those that were stale before, provided that no two documents of the
/// manifest have one identifier and different modification times. A run on
/// the cache so recorded has a reusing task for every document.
pub proof fn lemma_run_brings_up_to_date(entries: Map<u128, Timestamp>, manifest: ManifestView)
    requires
        agree(manifest.docs()),
    ensures
        all_up_to_date(crate::cache::recorded(entries, manifest.docs()), manifest.docs()),
        forall|i: int|
            0 <= i < manifest.docs().len() ==> (#[trigger] render_tasks(
                crate::cache::recorded(entries, manifest.docs()),
                manifest,
            )[i]).action == RenderAction::Reuse,
{
    let docs = manifest.docs();
    let after = crate::cache::recorded(entries, docs);
    assert forall|i: int| 0 <= i < docs.len() implies up_to_date(after, #[trigger] docs[i]) by {
        lemma_recorded(entries, docs, docs[i].id);
        let j = choose|j: int|
            0 <= j < docs.len() && docs[j].id == docs[i].id && after[docs[i].id] == (
            #[trigger] docs[j]).modified_at;
        assert(docs[j].modified_at == docs[i].modified_at);
    }
    lemma_fresh_cache_reuses(after, manifest);
}

/// The pages of a reused document come in the numeric order of their stems.
///
/// Where every file of a page directory has a page number for its stem, the
/// links hold every file once, the page numbers ascend along them as
/// numbers, so that 2 comes before 10, and files of one page number keep the
/// order of the listing.
pub proof fn lemma_cached_in_number_order(prefix: Seq<char>, id: u128, files: Seq<Seq<char>>)
    requires
        first_stray(files, 0) is None,
    ensures
        ({
            let order = number_order(stem_keys(files), files.len());
            let links = cached_links(prefix, id, files);
            &&& links.len() == files.len()
            &&& crate::order::arranges(order, files.len())
            &&& forall|a: int|
                0 <= a < links.len() ==> #[trigger] links[a] == joined(
                    prefix,
                    joined(page_dir(id), files[order[a]]),
                )
            &&& forall|a: int, b: int|
                0 <= a < b < order.len() ==> stem_number(files[#[trigger] order[a]]).unwrap()
                    < stem_number(files[#[trigger] order[b]]).unwrap() || (stem_number(
                    files[order[a]],
                ) == stem_number(files[order[b]]) && order[a] < order[b])
        }),
{
    let keys = stem_keys(files);
    let order = number_order(keys, files.len());
    crate::order::lemma_number_order(keys, files.len());
    lemma_no_stray(files, 0);
    assert forall|a: int, b: int| 0 <= a < b < order.len() implies stem_number(
        files[#[trigger] order[a]],
    ).unwrap() < stem_number(files[#[trigger] order[b]]).unwrap() || (stem_number(files[order[a]])
        == stem_number(files[order[b]]) && order[a] < order[b]) by {
        let x = order[a];
        let y = order[b];
        assert(0 <= x < files.len() && 0 <= y < files.len());
        assert(stem_number(files[x]) is Some && stem_number(files[y]) is Some);
        assert(keys[x] == stem_number(files[x]).unwrap() as u64);
        assert(keys[y] == stem_number(files[y]).unwrap() as u64);
    }
}

/// Where no stray file is found from `from` on, every file from there on
/// has a page number for its stem.
proof fn lemma_no_stray(files: Seq<Seq<char>>, from: int)
    requires
        0 <= from,
        first_stray(files, from) is None,
    ensures
        forall|i: int| from <= i < files.len() ==> stem_number(#[trigger] files[i]) is Some,
    decreases files.len() - from,
{
    if from < files.len() {
        lemma_no_stray(files, from + 1);
    }
}

/// Where no unreadable entry is found from `from` on, every entry from
/// there on that holds a page gives its number.
proof fn lemma_all_readable(id: u128, names: Seq<Seq<char>>, from: int)
    requires
        0 <= from,
        first_unreadable(id, names, from) is None,
    ensures
        forall|e: int|
            from <= e < names.len() && is_page_entry(#[trigger] names[e]) ==> entry_page(
                id,
                names[e],
            ) is Some,
    decreases names.len() - from,
{
    if from < names.len() {
        lemma_all_readable(id, names, from + 1);
    }
}

/// The page entries among the first `n` entries are exactly the places
/// below `n` whose entry holds a page, in ascending order.
pub proof fn lemma_page_entries(names: Seq<Seq<char>>, n: nat)
    requires
        n <= names.len(),
    ensures
        forall|k: int|
            0 <= k < page_entries(names, n).len() ==> 0 <= (#[trigger] page_entries(names, n)[k])
                < n && is_page_entry(names[page_entries(names, n)[k]]),
        forall|a: int, b: int|
            0 <= a < b < page_entries(names, n).len() ==> page_entries(names, n)[a]
                < page_entries(names, n)[b],
        forall|e: int|
            0 <= e < n && is_page_entry(#[trigger] names[e]) ==> page_entries(names, n).contains(e),
    decreases n,
{
    if n > 0 {
        let before = page_entries(names, (n - 1) as nat);
        lemma_page_entries(names, (n - 1) as nat);
        let all = page_entries(names, n);
        if is_page_entry(names[n - 1]) {
            assert(all == before.push(n - 1));
            assert forall|e: int| 0 <= e < n && is_page_entry(#[trigger] names[e]) implies all.contains(
                e,
            ) by {
                if e < n - 1 {
                    let k = choose|k: int| 0 <= k < before.len() && before[k] == e;
                    assert(all[k] == e);
                } else {
                    assert(all[all.len() - 1] == e);
                }
            }
        }
    }
}

/// The jobs of an archive come in the numeric order of their pages.
///
/// Where every entry that holds a page gives its number, there is a job for
/// each such entry and for nothing else, the page numbers ascend along the
/// jobs as numbers, and jobs of one page number keep the order of the
/// archive.
pub proof fn lemma_jobs_in_page_order(
    prefix: Seq<char>,
    id: u128,
    names: Seq<Seq<char>>,
    templates: Option<Seq<Seq<char>>>,
)
    requires
        first_unreadable(id, names, 0) is None,
    ensures
        ({
            let jobs = notebook_jobs(prefix, id, names, templates);
            &&& forall|k: int|
                0 <= k < jobs.len() ==> 0 <= (#[trigger] jobs[k]).entry < names.len()
                    && is_page_entry(names[jobs[k].entry]) && jobs[k] == job_for(
                    prefix,
                    id,
                    names,
                    templates,
                    jobs[k].entry,
                )
            &&& forall|e: int|
                0 <= e < names.len() && is_page_entry(#[trigger] names[e]) ==> exists|k: int|
                    0 <= k < jobs.len() && (#[trigger] jobs[k]).entry == e
            &&& forall|a: int, b: int|
                0 <= a < b < jobs.len() ==> (#[trigger] jobs[a]).page < (#[trigger] jobs[b]).page
                    || (jobs[a].page == jobs[b].page && jobs[a].entry < jobs[b].entry)
        }),
{
    let entries = page_entries(names, names.len());
    let keys = page_keys(id, names, entries);
    let order = number_order(keys, entries.len());
    let jobs = notebook_jobs(prefix, id, names, templates);
    lemma_page_entries(names, names.len());
    lemma_all_readable(id, names, 0);
    crate::order::lemma_number_order(keys, entries.len());
    assert forall|k: int| 0 <= k < jobs.len() implies 0 <= (#[trigger] jobs[k]).entry < names.len()
        && is_page_entry(names[jobs[k].entry]) && jobs[k] == job_for(
        prefix,
        id,
        names,
        templates,
        jobs[k].entry,
    ) by {
        assert(0 <= order[k] < entries.len());
    }
    assert forall|e: int| 0 <= e < names.len() && is_page_entry(
        #[trigger] names[e],
    ) implies exists|k: int| 0 <= k < jobs.len() && (#[trigger] jobs[k]).entry == e by {
        assert(entries.contains(e));
        let x = choose|x: int| 0 <= x < entries.len() && entries[x] == e;
        assert(order.contains(x));
        let k = choose|k: int| 0 <= k < order.len() && order[k] == x;
        assert(jobs[k].entry == e);
    }
    assert forall|a: int, b: int| 0 <= a < b < jobs.len() implies (#[trigger] jobs[a]).page < (
    #[trigger] jobs[b]).page || (jobs[a].page == jobs[b].page && jobs[a].entry
        < jobs[b].entry) by {
        let x = order[a];
        let y = order[b];
        assert(0 <= x < entries.len() && 0 <= y < entries.len());
        assert(entry_page(id, names[entries[x]]) is Some);
        assert(entry_page(id, names[entries[y]]) is Some);
        assert(keys[x] == entry_page(id, names[entries[x]]).unwrap() as u64);
        assert(keys[y] == entry_page(id, names[entries[y]]).unwrap() as u64);
        assert(jobs[a].page == entry_page(id, names[entries[x]]).unwrap());
        assert(jobs[b].page == entry_page(id, names[entries[y]]).unwrap());
        if x < y {
            assert(entries[x] < entries[y]);
        } else if y < x {
            assert(entries[y] < entries[x]);
        }
    }
}

/// The name of the file that holds the image of the page `page`.
pub open spec fn page_file(page: nat) -> Seq<char> {
    decimal_text(page) + image_suffix()
}

/// The name of a page image gives the page number back.
pub proof fn lemma_page_file_number(page: nat)
    requires
        page <= u16::MAX,
    ensures
        stem_number(page_file(page)) == Some(page),
{
    let digits = decimal_text(page);
    let name = page_file(page);
    crate::text::lemma_decimal_text(page);
    crate::text::lemma_parse_decimal_text(page, u16::MAX as nat);
    lemma_last_dot_of_digits(digits, image_suffix().len() as int);
    assert(name.take(name.len() as int) == name);
    assert(name.take(digits.len() as int) =~= digits);
    assert(name[0] == digits[0]);
    assert(crate::text::is_digit(digits[0]));
    assert(name != seq!['.', '.']);
}

/// In digits followed by `.svg`, the last dot is the one after the digits.
proof fn lemma_last_dot_of_digits(digits: Seq<char>, k: int)
    requires
        crate::text::all_digits(digits),
        1 <= k <= image_suffix().len(),
    ensures
        crate::text::last_dot((digits + image_suffix()).take(digits.len() + k)) == digits.len(),
    decreases k,
{
    let name = digits + image_suffix();
    let upto = name.take(digits.len() + k);
    assert(upto.last() == image_suffix()[k - 1]);
    if k > 1 {
        assert(upto.drop_last() =~= name.take(digits.len() + k - 1));
        lemma_last_dot_of_digits(digits, k - 1);
    }
}

/// Two runs of numbers that ascend, are equally long and hold the same
/// numbers are the same run.
proof fn lemma_ascending_runs_equal(u: Seq<nat>, v: Seq<nat>)
    requires
        u.len() == v.len(),
        forall|a: int, b: int| 0 <= a < b < u.len() ==> u[a] < u[b],
        forall|a: int, b: int| 0 <= a < b < v.len() ==> v[a] < v[b],
        forall|k: int| 0 <= k < u.len() ==> v.contains(#[trigger] u[k]),
        forall|k: int| 0 <= k < v.len() ==> u.contains(#[trigger] v[k]),
    ensures
        u == v,
    decreases u.len(),
{
    if u.len() > 0 {
        let n = u.len() - 1;
        assert(v.contains(u[n]));
        assert(u.contains(v[n]));
        let i = choose|i: int| 0 <= i < v.len() && v[i] == u[n];
        let j = choose|j: int| 0 <= j < u.len() && u[j] == v[n];
        assert(u[n] == v[n]) by {
            if i < n {
                assert(v[i] < v[n]);
            }
            if j < n {
                assert(u[j] < u[n]);
            }
        }
        let us = u.drop_last();
        let vs = v.drop_last();
        assert forall|k: int| 0 <= k < us.len() implies vs.contains(#[trigger] us[k]) by {
            assert(v.contains(u[k]));
            let m = choose|m: int| 0 <= m < v.len() && v[m] == u[k];
            assert(u[k] < u[n]);
            assert(vs[m] == us[k]);
        }
        assert forall|k: int| 0 <= k < vs.len() implies us.contains(#[trigger] vs[k]) by {
            assert(u.contains(v[k]));
            let m = choose|m: int| 0 <= m < u.len() && u[m] == v[k];
            assert(v[k] < v[n]);
            assert(us[m] == vs[k]);
        }
        lemma_ascending_runs_equal(us, vs);
        assert(u =~= us.push(u[n]));
        assert(v =~= vs.push(v[n]));
    } else {
        assert(u =~= v);
    }
}

/// Reusing gives back what rendering gave.
///
/// Let an archive be rendered: no two of its pages have one number, and the
/// numbers fit in 16 bits. Let `files` be what the page directory then
/// holds, in whatever order a listing gives it: the image of each page,
/// each once, and nothing else. Then the pages taken from the directory are
/// the links of the jobs, one for one.
pub proof fn lemma_reuse_gives_rendered_pages(
    prefix: Seq<char>,
    id: u128,
    names: Seq<Seq<char>>,
    templates: Option<Seq<Seq<char>>>,
    files: Seq<Seq<char>>,
)
    requires
        first_unreadable(id, names, 0) is None,
        forall|a: int, b: int|
            0 <= a < b < notebook_jobs(prefix, id, names, templates).len() ==> (
            #[trigger] notebook_jobs(prefix, id, names, templates)[a]).page != (
            #[trigger] notebook_jobs(prefix, id, names, templates)[b]).page,
        forall|k: int|
            0 <= k < notebook_jobs(prefix, id, names, templates).len() ==> (
            #[trigger] notebook_jobs(prefix, id, names, templates)[k]).page <= u16::MAX,
        files.no_duplicates(),
        files.len() == notebook_jobs(prefix, id, names, templates).len(),
        forall|k: int|
            0 <= k < notebook_jobs(prefix, id, names, templates).len() ==> files.contains(
                page_file((#[trigger] notebook_jobs(prefix, id, names, templates)[k]).page),
            ),
    ensures
        cached_plan(prefix, id, Some(files)) == Ok::<Seq<Seq<char>>, RenderErrorView>(
            job_links(notebook_jobs(prefix, id, names, templates)),
        ),
{
    let jobs = notebook_jobs(prefix, id, names, templates);
    let n = jobs.len();
    lemma_jobs_in_page_order(prefix, id, names, templates);
    // The files of the jobs, in job order.
    let written = Seq::new(n, |k: int| page_file(jobs[k].page));
    assert forall|k: int| 0 <= k < n implies stem_number(#[trigger] written[k]) == Some(
        jobs[k].page,
    ) by {
        lemma_page_file_number(jobs[k].page);
    }
    assert(written.no_duplicates()) by {
        assert forall|a: int, b: int| 0 <= a < n && 0 <= b < n && a != b implies written[a]
            != written[b] by {
            assert(stem_number(written[a]) == Some(jobs[a].page));
            assert(stem_number(written[b]) == Some(jobs[b].page));
            if a < b {
                assert(jobs[a].page != jobs[b].page);
            } else {
                assert(jobs[b].page != jobs[a].page);
            }
        }
    }
    // The directory holds exactly these files.
    written.unique_seq_to_set();
    files.unique_seq_to_set();
    assert(written.to_set().subset_of(files.to_set())) by {
        assert forall|f: Seq<char>| written.to_set().contains(f) implies files.to_set().contains(
            f,
        ) by {
            let k = choose|k: int| 0 <= k < written.len() && written[k] == f;
            assert(files.contains(page_file(jobs[k].page)));
        }
    }
    vstd::set_lib::lemma_subset_equality(written.to_set(), files.to_set());
    assert forall|i: int| 0 <= i < files.len() implies written.contains(#[trigger] files[i]) by {
        assert(files.to_set().contains(files[i]));
        assert(written.to_set().contains(files[i]));
    }
    assert forall|i: int| 0 <= i < files.len() implies stem_number(#[trigger] files[i]) is Some by {
        let k = choose|k: int| 0 <= k < written.len() && written[k] == files[i];
        assert(stem_number(written[k]) == Some(jobs[k].page));
    }
    lemma_none_stray(files, 0);
    lemma_cached_in_number_order(prefix, id, files);
    let order = number_order(stem_keys(files), files.len());
    let links = cached_links(prefix, id, files);
    // The page numbers along both.
    let u = Seq::new(n, |a: int| stem_number(files[order[a]]).unwrap());
    let v = Seq::new(n, |a: int| jobs[a].page);
    assert forall|a: int, b: int| 0 <= a < b < u.len() implies u[a] < u[b] by {
        let x = order[a];
        let y = order[b];
        assert(0 <= x < files.len() && 0 <= y < files.len());
        if u[a] == u[b] {
            assert(x < y);
            let kx = choose|k: int| 0 <= k < written.len() && written[k] == files[x];
            let ky = choose|k: int| 0 <= k < written.len() && written[k] == files[y];
            assert(stem_number(written[kx]) == Some(jobs[kx].page));
            assert(stem_number(written[ky]) == Some(jobs[ky].page));
            if kx < ky {
                assert(jobs[kx].page != jobs[ky].page);
            } else if ky < kx {
                assert(jobs[ky].page != jobs[kx].page);
            } else {
                assert(files[x] == files[y]);
            }
        }
    }
    assert forall|a: int, b: int| 0 <= a < b < v.len() implies v[a] < v[b] by {
        assert(jobs[a].page != jobs[b].page);
    }
    assert forall|a: int| 0 <= a < u.len() implies v.contains(#[trigger] u[a]) by {
        let x = order[a];
        assert(0 <= x < files.len());
        let k = choose|k: int| 0 <= k < written.len() && written[k] == files[x];
        assert(stem_number(written[k]) == Some(jobs[k].page));
        assert(v[k] == u[a]);
    }
    assert forall|k: int| 0 <= k < v.len() implies u.contains(#[trigger] v[k]) by {
        assert(files.contains(page_file(jobs[k].page)));
        let i = choose|i: int| 0 <= i < files.len() && files[i] == page_file(jobs[k].page);
        assert(files[i] == written[k]);
        assert(order.contains(i));
        let a = choose|a: int| 0 <= a < order.len() && order[a] == i;
        assert(u[a] == v[k]);
    }
    lemma_ascending_runs_equal(u, v);
    assert forall|a: int| 0 <= a < n implies links[a] == job_links(jobs)[a] by {
        let x = order[a];
        assert(0 <= x < files.len());
        let k = choose|k: int| 0 <= k < written.len() && written[k] == files[x];
        assert(stem_number(written[k]) == Some(jobs[k].page));
        assert(u[a] == jobs[k].page);
        assert(v[a] == jobs[a].page);
        assert(files[x] == page_file(jobs[a].page));
        assert(jobs[a] == job_for(prefix, id, names, templates, jobs[a].entry));
    }
    assert(links =~= job_links(jobs));
}

/// Where every file from `from` on has a page number for its stem, no stray
/// file is found from there on.
proof fn lemma_none_stray(files: Seq<Seq<char>>, from: int)
    requires
        0 <= from,
        forall|i: int| from <= i < files.len() ==> stem_number(#[trigger] files[i]) is Some,
    ensures
        first_stray(files, from) is None,
    decreases files.len() - from,
{
    if from < files.len() {
        lemma_none_stray(files, from + 1);
    }
}

/// Different documents have different page directories and archives.
///
/// The page directory and the archive of a document are named by its
/// identifier, so the tasks of two documents never write to one place, and
/// since all page directories have names of one length, none lies in another.
pub proof fn lemma_directories_apart(a: u128, b: u128)
    requires
        a != b,
    ensures
        page_dir(a) != page_dir(b),
        page_dir(a).len() == page_dir(b).len(),
        archive_path(a) != archive_path(b),
{
    crate::ident::lemma_id_text_differs(a, b);
    let x = id_text(a);
    let y = id_text(b);
    if page_dir(a) == page_dir(b) {
        assert(page_dir(a).subrange(4, 40) =~= x);
        assert(page_dir(b).subrange(4, 40) =~= y);
    }
    if archive_path(a) == archive_path(b) {
        assert(archive_path(a).subrange(4, 40) =~= x);
        assert(archive_path(b).subrange(4, 40) =~= y);
    }
}

} // verus!
