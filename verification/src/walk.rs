//! What the assembled site holds for each folder and each document,
//! however deep it lies.
//!
//! A way through the posts gives, step by step, the place of the folder to
//! enter. The laws here say what the site brings about for the folder a way
//! leads to, and for the documents in it.

use crate::manifest::{DocView, ManifestView, PostsView};
use crate::site::{
    back_link, doc_outputs, doc_page, folder_crumb, folder_dir, folder_outputs, folder_page,
    html_suffix, link_to, page_path, posts_dir, site_outputs, subfolder_outputs, CrumbView,
    OutputView, SiteView,
};
use crate::site::{index_page, PageView};
use crate::text::{ends_with, joined, lemma_sanitized_chars, sanitized, starts_with};
use vstd::prelude::*;

verus! {

/// Whether `way` leads through the folders of `posts`: each step is the
/// place of a folder in the folder reached so far.
pub open spec fn leads(posts: PostsView, way: Seq<int>) -> bool
    decreases way.len(),
{
    way.len() == 0 || (0 <= way[0] < posts.folders.len() && leads(
        posts.folders[way[0]].1,
        way.drop_first(),
    ))
}

/// The folder that `way` leads to.
pub open spec fn folder_at(posts: PostsView, way: Seq<int>) -> PostsView
    decreases way.len(),
{
    if way.len() == 0 {
        posts
    } else {
        folder_at(posts.folders[way[0]].1, way.drop_first())
    }
}

/// The directory of the folder that `way` leads to, where `dir` is the
/// directory of `posts`.
pub open spec fn dir_at(dir: Seq<char>, posts: PostsView, way: Seq<int>) -> Seq<char>
    decreases way.len(),
{
    if way.len() == 0 {
        dir
    } else {
        dir_at(
            folder_dir(dir, posts.folders[way[0]].0),
            posts.folders[way[0]].1,
            way.drop_first(),
        )
    }
}

/// The trail to what lies in the folder that `way` leads to, where `crumbs`
/// is the trail to what lies in `posts`: one more breadcrumb for each folder
/// entered, with the folder's name and the link to the folder's page.
pub open spec fn trail_at(
    site: SiteView,
    crumbs: Seq<CrumbView>,
    dir: Seq<char>,
    posts: PostsView,
    way: Seq<int>,
) -> Seq<CrumbView>
    decreases way.len(),
{
    if way.len() == 0 {
        crumbs
    } else {
        trail_at(
            site,
            crumbs.push(folder_crumb(site, dir, posts.folders[way[0]].0)),
            folder_dir(dir, posts.folders[way[0]].0),
            posts.folders[way[0]].1,
            way.drop_first(),
        )
    }
}

/// What lies in a folder brings about: the pages of its documents, then what
/// its sub-folders bring about.
pub open spec fn contents_outputs(
    site: SiteView,
    crumbs: Seq<CrumbView>,
    dir: Seq<char>,
    posts: PostsView,
) -> Seq<OutputView> {
    doc_outputs(site, crumbs, dir, posts.documents) + subfolder_outputs(
        site,
        crumbs,
        dir,
        posts,
        posts.folders.len(),
    )
}

/// What one sub-folder brings about is part of what the sub-folders bring about.
proof fn lemma_subfolder_part(
    site: SiteView,
    crumbs: Seq<CrumbView>,
    dir: Seq<char>,
    posts: PostsView,
    n: nat,
    j: int,
    o: OutputView,
)
    requires
        0 <= j < n <= posts.folders.len(),
        folder_outputs(site, crumbs, dir, posts.folders[j].0, posts.folders[j].1).contains(o),
    ensures
        subfolder_outputs(site, crumbs, dir, posts, n).contains(o),
    decreases n,
{
    let before = subfolder_outputs(site, crumbs, dir, posts, (n - 1) as nat);
    let last = folder_outputs(site, crumbs, dir, posts.folders[n - 1].0, posts.folders[n - 1].1);
    assert(subfolder_outputs(site, crumbs, dir, posts, n) == before + last);
    if j == n - 1 {
        let k = choose|k: int| 0 <= k < last.len() && last[k] == o;
        assert((before + last)[before.len() + k] == o);
    } else {
        lemma_subfolder_part(site, crumbs, dir, posts, (n - 1) as nat, j, o);
        let k = choose|k: int| 0 <= k < before.len() && before[k] == o;
        assert((before + last)[k] == o);
    }
}

/// A folder brings about its directory, its page, and what lies in it.
proof fn lemma_folder_parts(
    site: SiteView,
    crumbs: Seq<CrumbView>,
    parent: Seq<char>,
    name: Seq<char>,
    posts: PostsView,
)
    ensures
        folder_outputs(site, crumbs, parent, name, posts).contains(
            OutputView::Directory { path: folder_dir(parent, name) },
        ),
        folder_outputs(site, crumbs, parent, name, posts).contains(
            OutputView::Page { page: folder_page(site, crumbs, parent, name, posts) },
        ),
        forall|o: OutputView|
            contents_outputs(
                site,
                crumbs.push(folder_crumb(site, parent, name)),
                folder_dir(parent, name),
                posts,
            ).contains(o) ==> #[trigger] folder_outputs(site, crumbs, parent, name, posts).contains(o),
{
    let all = folder_outputs(site, crumbs, parent, name, posts);
    let dir = folder_dir(parent, name);
    let inner = crumbs.push(folder_crumb(site, parent, name));
    let first = seq![OutputView::Directory { path: dir }];
    let docs = doc_outputs(site, inner, dir, posts.documents);
    let subs = subfolder_outputs(site, inner, dir, posts, posts.folders.len());
    let last = seq![OutputView::Page { page: folder_page(site, crumbs, parent, name, posts) }];
    assert(all == first + docs + subs + last);
    assert(all[0] == first[0]);
    assert(all[all.len() - 1] == last[0]);
    assert forall|o: OutputView| contents_outputs(site, inner, dir, posts).contains(
        o,
    ) implies #[trigger] all.contains(o) by {
        let within = docs + subs;
        let k = choose|k: int| 0 <= k < within.len() && within[k] == o;
        assert(all[1 + k] == o);
    }
}

/// What lies in a folder that a way leads to is part of what lies in the
/// folder the way starts from.
proof fn lemma_reaches(
    site: SiteView,
    crumbs: Seq<CrumbView>,
    dir: Seq<char>,
    posts: PostsView,
    way: Seq<int>,
    o: OutputView,
)
    requires
        leads(posts, way),
        contents_outputs(
            site,
            trail_at(site, crumbs, dir, posts, way),
            dir_at(dir, posts, way),
            folder_at(posts, way),
        ).contains(o),
    ensures
        contents_outputs(site, crumbs, dir, posts).contains(o),
    decreases way.len(),
{
    if way.len() > 0 {
        let j = way[0];
        let name = posts.folders[j].0;
        let sub = posts.folders[j].1;
        let inner = crumbs.push(folder_crumb(site, dir, name));
        let below = folder_dir(dir, name);
        lemma_reaches(site, inner, below, sub, way.drop_first(), o);
        lemma_folder_parts(site, crumbs, dir, name, sub);
        assert(folder_outputs(site, crumbs, dir, name, sub).contains(o));
        lemma_subfolder_part(site, crumbs, dir, posts, posts.folders.len(), j, o);
        let docs = doc_outputs(site, crumbs, dir, posts.documents);
        let subs = subfolder_outputs(site, crumbs, dir, posts, posts.folders.len());
        let k = choose|k: int| 0 <= k < subs.len() && subs[k] == o;
        assert((docs + subs)[docs.len() + k] == o);
    }
}

/// What lies in the posts is part of the site.
proof fn lemma_site_holds(site: SiteView, manifest: ManifestView, o: OutputView)
    requires
        contents_outputs(site, seq![site.home_crumb()], posts_dir(), manifest.posts).contains(o),
    ensures
        site_outputs(site, manifest).contains(o),
{
    let within = contents_outputs(site, seq![site.home_crumb()], posts_dir(), manifest.posts);
    let all = site_outputs(site, manifest);
    let k = choose|k: int| 0 <= k < within.len() && within[k] == o;
    assert(all[1 + k] == o);
}

/// The trail to what lies in the folder that `way` leads to, from the index.
pub open spec fn site_trail(site: SiteView, manifest: ManifestView, way: Seq<int>) -> Seq<
    CrumbView,
> {
    trail_at(site, seq![site.home_crumb()], posts_dir(), manifest.posts, way)
}

/// The directory of the folder that `way` leads to, below the output root.
pub open spec fn site_dir(manifest: ManifestView, way: Seq<int>) -> Seq<char> {
    dir_at(posts_dir(), manifest.posts, way)
}

/// Every document has its page, whatever the way to it.
///
/// Let `way` lead to a folder of the posts, and let `i` be the place of a
/// document in that folder. Then the site renders the document's page. Its
/// file is the document's sanitized name with `.html`, in the folder's
/// directory. Its breadcrumbs are the trail to the folder, and its back
/// link is the link of the last of them.
pub proof fn lemma_document_page(site: SiteView, manifest: ManifestView, way: Seq<int>, i: int)
    requires
        leads(manifest.posts, way),
        0 <= i < folder_at(manifest.posts, way).documents.len(),
    ensures
        ({
            let doc = folder_at(manifest.posts, way).documents[i];
            let trail = site_trail(site, manifest, way);
            let page = doc_page(site, trail, site_dir(manifest, way), doc);
            &&& site_outputs(site, manifest).contains(OutputView::Page { page })
            &&& page.path == joined(site_dir(manifest, way), sanitized(doc.name) + html_suffix())
            &&& page.breadcrumbs == trail
            &&& page.back_link == back_link(trail)
        }),
{
    let folder = folder_at(manifest.posts, way);
    let doc = folder.documents[i];
    let trail = site_trail(site, manifest, way);
    let dir = site_dir(manifest, way);
    let o = OutputView::Page { page: doc_page(site, trail, dir, doc) };
    let docs = doc_outputs(site, trail, dir, folder.documents);
    let subs = subfolder_outputs(site, trail, dir, folder, folder.folders.len());
    assert(docs[i] == o);
    assert((docs + subs)[i] == o);
    lemma_reaches(site, seq![site.home_crumb()], posts_dir(), manifest.posts, way, o);
    lemma_site_holds(site, manifest, o);
}

/// Every folder has its directory and, beside it, its page.
///
/// Let `way` lead to a folder of the posts, and let `j` be the place of a
/// sub-folder in that folder. Then the site makes a directory for the
/// sub-folder, named by its sanitized name, in the folder's directory, and
/// renders the sub-folder's page into the file of the same path with
/// `.html` at its end.
pub proof fn lemma_folder_mirrored(site: SiteView, manifest: ManifestView, way: Seq<int>, j: int)
    requires
        leads(manifest.posts, way),
        0 <= j < folder_at(manifest.posts, way).folders.len(),
    ensures
        ({
            let entry = folder_at(manifest.posts, way).folders[j];
            let parent = site_dir(manifest, way);
            let trail = site_trail(site, manifest, way);
            let page = folder_page(site, trail, parent, entry.0, entry.1);
            &&& site_outputs(site, manifest).contains(
                OutputView::Directory { path: folder_dir(parent, entry.0) },
            )
            &&& site_outputs(site, manifest).contains(OutputView::Page { page })
            &&& folder_dir(parent, entry.0) == joined(parent, sanitized(entry.0))
            &&& page.path == folder_dir(parent, entry.0) + html_suffix()
            &&& page.breadcrumbs == trail
            &&& page.back_link == back_link(trail)
        }),
{
    let folder = folder_at(manifest.posts, way);
    let entry = folder.folders[j];
    let parent = site_dir(manifest, way);
    let trail = site_trail(site, manifest, way);
    let page = folder_page(site, trail, parent, entry.0, entry.1);
    let d = OutputView::Directory { path: folder_dir(parent, entry.0) };
    let p = OutputView::Page { page };
    lemma_folder_parts(site, trail, parent, entry.0, entry.1);
    lemma_subfolder_part(site, trail, parent, folder, folder.folders.len(), j, d);
    lemma_subfolder_part(site, trail, parent, folder, folder.folders.len(), j, p);
    let docs = doc_outputs(site, trail, parent, folder.documents);
    let subs = subfolder_outputs(site, trail, parent, folder, folder.folders.len());
    let kd = choose|k: int| 0 <= k < subs.len() && subs[k] == d;
    assert((docs + subs)[docs.len() + kd] == d);
    let kp = choose|k: int| 0 <= k < subs.len() && subs[k] == p;
    assert((docs + subs)[docs.len() + kp] == p);
    lemma_reaches(site, seq![site.home_crumb()], posts_dir(), manifest.posts, way, d);
    lemma_reaches(site, seq![site.home_crumb()], posts_dir(), manifest.posts, way, p);
    lemma_site_holds(site, manifest, d);
    lemma_site_holds(site, manifest, p);
    assert(page.path =~= folder_dir(parent, entry.0) + html_suffix());
}

/// The trail to a folder: the index first, then one breadcrumb for each
/// folder on the way, in order, each with the folder's name.
pub proof fn lemma_trail(
    site: SiteView,
    crumbs: Seq<CrumbView>,
    dir: Seq<char>,
    posts: PostsView,
    way: Seq<int>,
)
    requires
        leads(posts, way),
    ensures
        trail_at(site, crumbs, dir, posts, way).len() == crumbs.len() + way.len(),
        forall|k: int|
            0 <= k < crumbs.len() ==> trail_at(site, crumbs, dir, posts, way)[k] == crumbs[k],
        forall|k: int|
            0 <= k < way.len() ==> (#[trigger] trail_at(site, crumbs, dir, posts, way)[crumbs.len()
                + k]) == folder_crumb(
                site,
                dir_at(dir, posts, way.take(k)),
                folder_at(posts, way.take(k)).folders[way[k]].0,
            ),
    decreases way.len(),
{
    if way.len() > 0 {
        let j = way[0];
        let name = posts.folders[j].0;
        let sub = posts.folders[j].1;
        let inner = crumbs.push(folder_crumb(site, dir, name));
        let below = folder_dir(dir, name);
        let rest = way.drop_first();
        lemma_trail(site, inner, below, sub, rest);
        let trail = trail_at(site, crumbs, dir, posts, way);
        assert(trail == trail_at(site, inner, below, sub, rest));
        assert forall|k: int| 0 <= k < crumbs.len() implies trail[k] == crumbs[k] by {
            assert(inner[k] == crumbs[k]);
        }
        assert forall|k: int| 0 <= k < way.len() implies (#[trigger] trail[crumbs.len() + k])
            == folder_crumb(
            site,
            dir_at(dir, posts, way.take(k)),
            folder_at(posts, way.take(k)).folders[way[k]].0,
        ) by {
            if k == 0 {
                assert(way.take(0) =~= Seq::<int>::empty());
                assert(trail[crumbs.len() as int] == inner[crumbs.len() as int]);
            } else {
                assert(way.take(k).drop_first() =~= rest.take(k - 1));
                assert(way.take(k)[0] == j);
                assert(trail[inner.len() + (k - 1)] == folder_crumb(
                    site,
                    dir_at(below, sub, rest.take(k - 1)),
                    folder_at(sub, rest.take(k - 1)).folders[rest[k - 1]].0,
                ));
                assert(dir_at(dir, posts, way.take(k)) == dir_at(below, sub, rest.take(k - 1)));
                assert(folder_at(posts, way.take(k)) == folder_at(sub, rest.take(k - 1)));
            }
        }
    }
}

/// A document under the folders A and B has the trail index, A, B, and the
/// link to B's page is where it leads back to.
///
/// Let the way enter the folder at `a` of the posts, and in it the folder at
/// `b`. Then the trail to the documents of that folder is the breadcrumb of
/// the index, the breadcrumb of the first folder and the breadcrumb of the
/// second, and the back link of their pages is the link to the second
/// folder's page.
pub proof fn lemma_nested_trail(site: SiteView, manifest: ManifestView, a: int, b: int)
    requires
        0 <= a < manifest.posts.folders.len(),
        0 <= b < manifest.posts.folders[a].1.folders.len(),
    ensures
        ({
            let first = manifest.posts.folders[a];
            let second = first.1.folders[b];
            let trail = site_trail(site, manifest, seq![a, b]);
            &&& leads(manifest.posts, seq![a, b])
            &&& folder_at(manifest.posts, seq![a, b]) == second.1
            &&& trail == seq![
                site.home_crumb(),
                folder_crumb(site, posts_dir(), first.0),
                folder_crumb(site, folder_dir(posts_dir(), first.0), second.0),
            ]
            &&& back_link(trail) == Some(
                link_to(site, page_path(folder_dir(posts_dir(), first.0), second.0)),
            )
        }),
{
    let way = seq![a, b];
    let first = manifest.posts.folders[a];
    let second = first.1.folders[b];
    let rest = way.drop_first();
    assert(rest =~= seq![b]);
    assert(rest.drop_first() =~= Seq::<int>::empty());
    assert(leads(first.1, rest)) by {
        assert(leads(second.1, rest.drop_first()));
    }
    assert(leads(manifest.posts, way));
    assert(folder_at(first.1, rest) == second.1) by {
        assert(folder_at(second.1, rest.drop_first()) == second.1);
    }
    let home = seq![site.home_crumb()];
    let one = home.push(folder_crumb(site, posts_dir(), first.0));
    let two = one.push(folder_crumb(site, folder_dir(posts_dir(), first.0), second.0));
    assert(trail_at(site, one, folder_dir(posts_dir(), first.0), first.1, rest) == two) by {
        assert(trail_at(
            site,
            two,
            folder_dir(folder_dir(posts_dir(), first.0), second.0),
            second.1,
            rest.drop_first(),
        ) == two);
    }
    assert(site_trail(site, manifest, way) =~= seq![
        site.home_crumb(),
        folder_crumb(site, posts_dir(), first.0),
        folder_crumb(site, folder_dir(posts_dir(), first.0), second.0),
    ]);
}

/// Whether a path holds no dot.
pub open spec fn dotless(path: Seq<char>) -> bool {
    !path.contains('.')
}

/// Whether `o` keeps directories and pages apart: a directory has no dot in
/// its path, and the path of a page ends in `.html`.
pub open spec fn well_placed(o: OutputView) -> bool {
    match o {
        OutputView::Directory { path } => dotless(path),
        OutputView::Page { page } => ends_with(page.path, html_suffix()),
    }
}

/// The directory of a folder has no dot where the directory above has none.
proof fn lemma_folder_dir_dotless(parent: Seq<char>, name: Seq<char>)
    requires
        dotless(parent),
    ensures
        dotless(folder_dir(parent, name)),
{
    lemma_sanitized_chars(name);
    let dir = folder_dir(parent, name);
    let clean = sanitized(name);
    assert forall|i: int| 0 <= i < dir.len() implies dir[i] != '.' by {
        if i < parent.len() {
            assert(dir[i] == parent[i]);
            assert(parent.contains(parent[i]));
        } else if parent.len() == 0 || parent.last() == '/' {
            assert(dir[i] == clean[i - parent.len()]);
            assert(clean.contains(clean[i - parent.len()]));
        } else if i == parent.len() {
            assert(dir[i] == '/');
        } else {
            assert(dir[i] == clean[i - parent.len() - 1]);
            assert(clean.contains(clean[i - parent.len() - 1]));
        }
    }
}

/// The path of a page ends in `.html`.
proof fn lemma_page_path_ends(parent: Seq<char>, name: Seq<char>)
    ensures
        ends_with(page_path(parent, name), html_suffix()),
{
    let path = page_path(parent, name);
    let file = sanitized(name) + html_suffix();
    assert(path.subrange(path.len() - html_suffix().len(), path.len() as int) =~= html_suffix());
}

/// What a folder brings about keeps directories and pages apart.
proof fn lemma_folder_well_placed(
    site: SiteView,
    crumbs: Seq<CrumbView>,
    parent: Seq<char>,
    name: Seq<char>,
    posts: PostsView,
)
    requires
        dotless(parent),
    ensures
        forall|k: int|
            0 <= k < folder_outputs(site, crumbs, parent, name, posts).len() ==> well_placed(
                #[trigger] folder_outputs(site, crumbs, parent, name, posts)[k],
            ),
    decreases posts, posts.folders.len() + 1,
{
    let all = folder_outputs(site, crumbs, parent, name, posts);
    let dir = folder_dir(parent, name);
    let inner = crumbs.push(folder_crumb(site, parent, name));
    let first = seq![OutputView::Directory { path: dir }];
    let docs = doc_outputs(site, inner, dir, posts.documents);
    let subs = subfolder_outputs(site, inner, dir, posts, posts.folders.len());
    let last = seq![OutputView::Page { page: folder_page(site, crumbs, parent, name, posts) }];
    assert(all == first + docs + subs + last);
    lemma_folder_dir_dotless(parent, name);
    lemma_page_path_ends(parent, name);
    lemma_subfolders_well_placed(site, inner, dir, posts, posts.folders.len());
    assert forall|k: int| 0 <= k < all.len() implies well_placed(#[trigger] all[k]) by {
        if k == 0 {
        } else if k < 1 + docs.len() {
            assert(all[k] == docs[k - 1]);
            lemma_page_path_ends(dir, posts.documents[k - 1].name);
        } else if k < 1 + docs.len() + subs.len() {
            assert(all[k] == subs[k - 1 - docs.len()]);
        } else {
            assert(all[k] == last[0]);
        }
    }
}

/// What the first `n` sub-folders bring about keeps directories and pages apart.
proof fn lemma_subfolders_well_placed(
    site: SiteView,
    crumbs: Seq<CrumbView>,
    dir: Seq<char>,
    posts: PostsView,
    n: nat,
)
    requires
        dotless(dir),
    ensures
        forall|k: int|
            0 <= k < subfolder_outputs(site, crumbs, dir, posts, n).len() ==> well_placed(
                #[trigger] subfolder_outputs(site, crumbs, dir, posts, n)[k],
            ),
    decreases posts, n,
{
    if n == 0 || n > posts.folders.len() {
    } else {
        let before = subfolder_outputs(site, crumbs, dir, posts, (n - 1) as nat);
        let last = folder_outputs(
            site,
            crumbs,
            dir,
            posts.folders[n - 1].0,
            posts.folders[n - 1].1,
        );
        let all = subfolder_outputs(site, crumbs, dir, posts, n);
        assert(all == before + last);
        lemma_subfolders_well_placed(site, crumbs, dir, posts, (n - 1) as nat);
        lemma_folder_well_placed(
            site,
            crumbs,
            dir,
            posts.folders[n - 1].0,
            posts.folders[n - 1].1,
        );
        assert forall|k: int| 0 <= k < all.len() implies well_placed(#[trigger] all[k]) by {
            if k < before.len() {
                assert(all[k] == before[k]);
            } else {
                assert(all[k] == last[k - before.len()]);
            }
        }
    }
}

/// No path is a directory and a page at once.
///
/// Every directory of the site has a path without a dot, and every page has
/// a path that ends in `.html`. So the file of a document, or of a folder's
/// page, is never a directory of the site, whatever the names are.
pub proof fn lemma_pages_are_no_directories(site: SiteView, manifest: ManifestView)
    ensures
        forall|k: int|
            0 <= k < site_outputs(site, manifest).len() ==> well_placed(
                #[trigger] site_outputs(site, manifest)[k],
            ),
        forall|a: int, b: int|
            0 <= a < site_outputs(site, manifest).len() && 0 <= b < site_outputs(
                site,
                manifest,
            ).len() ==> !((#[trigger] site_outputs(site, manifest)[a]) matches OutputView::Directory {
                path,
            } && (#[trigger] site_outputs(site, manifest)[b]) matches OutputView::Page { page }
                && page.path == path),
{
    let all = site_outputs(site, manifest);
    let trail = seq![site.home_crumb()];
    let first = seq![OutputView::Directory { path: posts_dir() }];
    let docs = doc_outputs(site, trail, posts_dir(), manifest.posts.documents);
    let subs = subfolder_outputs(
        site,
        trail,
        posts_dir(),
        manifest.posts,
        manifest.posts.folders.len(),
    );
    let last = seq![OutputView::Page { page: index_page(site, manifest) }];
    assert(all == first + docs + subs + last);
    assert(dotless(posts_dir())) by {
        assert forall|i: int| 0 <= i < posts_dir().len() implies posts_dir()[i] != '.' by {}
    }
    lemma_subfolders_well_placed(
        site,
        trail,
        posts_dir(),
        manifest.posts,
        manifest.posts.folders.len(),
    );
    assert forall|k: int| 0 <= k < all.len() implies well_placed(#[trigger] all[k]) by {
        if k == 0 {
        } else if k < 1 + docs.len() {
            assert(all[k] == docs[k - 1]);
            lemma_page_path_ends(posts_dir(), manifest.posts.documents[k - 1].name);
        } else if k < 1 + docs.len() + subs.len() {
            assert(all[k] == subs[k - 1 - docs.len()]);
        } else {
            assert(all[k] == last[0]);
            let path = crate::site::index_path();
            assert(path.subrange(path.len() - html_suffix().len(), path.len() as int)
                =~= html_suffix());
        }
    }
    assert forall|a: int, b: int| 0 <= a < all.len() && 0 <= b < all.len() implies !((
    #[trigger] all[a]) matches OutputView::Directory { path } && (
    #[trigger] all[b]) matches OutputView::Page { page } && page.path == path) by {
        assert(well_placed(all[a]));
        assert(well_placed(all[b]));
        if all[a] is Directory && all[b] is Page {
            let path = all[a]->Directory_path;
            let page = all[b]->Page_page;
            if page.path == path {
                let n = path.len();
                assert(path.subrange(n - 5, n as int) == html_suffix());
                assert(path[n - 5] == path.subrange(n - 5, n as int)[0]);
                assert(path[n - 5] == '.');
                assert(path.contains('.'));
            }
        }
    }
}

/// Whether every breadcrumb of the trail links below the prefix.
pub open spec fn trail_below_prefix(site: SiteView, crumbs: Seq<CrumbView>) -> bool {
    forall|k: int| 0 <= k < crumbs.len() ==> starts_with((#[trigger] crumbs[k]).link, site.prefix)
}

/// Whether `page` is a page of the site: it carries the site's nonce,
/// prefix, title and logo, and every link to a page that it holds begins
/// with the prefix.
pub open spec fn belongs(site: SiteView, page: PageView) -> bool {
    &&& page.build_nonce == site.build_nonce
    &&& page.prefix == site.prefix
    &&& page.title == site.title
    &&& page.logo == site.first_page(site.logo)
    &&& trail_below_prefix(site, page.breadcrumbs)
    &&& (page.back_link matches Some(link) ==> starts_with(link, site.prefix))
    &&& forall|k: int|
        0 <= k < page.documents.len() ==> starts_with(
            (#[trigger] page.documents[k]).link,
            site.prefix,
        )
    &&& forall|k: int|
        0 <= k < page.folders.len() ==> starts_with((#[trigger] page.folders[k]).link, site.prefix)
}

/// Whether `o`, if it is a page, is a page of the site.
pub open spec fn output_belongs(site: SiteView, o: OutputView) -> bool {
    match o {
        OutputView::Directory { path } => true,
        OutputView::Page { page } => belongs(site, page),
    }
}

/// A link begins with the prefix.
proof fn lemma_link_below_prefix(site: SiteView, path: Seq<char>)
    ensures
        starts_with(link_to(site, path), site.prefix),
{
    assert(link_to(site, path).subrange(0, site.prefix.len() as int) =~= site.prefix);
}

/// What a folder lists links below the prefix.
proof fn lemma_entries_below_prefix(site: SiteView, dir: Seq<char>, posts: PostsView)
    ensures
        forall|k: int|
            0 <= k < posts.documents.len() ==> starts_with(
                (#[trigger] crate::site::document_entries(site, dir, posts.documents)[k]).link,
                site.prefix,
            ),
        forall|k: int|
            0 <= k < posts.folders.len() ==> starts_with(
                (#[trigger] crate::site::folder_entries(site, dir, posts.folders)[k]).link,
                site.prefix,
            ),
{
    assert forall|k: int| 0 <= k < posts.documents.len() implies starts_with(
        (#[trigger] crate::site::document_entries(site, dir, posts.documents)[k]).link,
        site.prefix,
    ) by {
        lemma_link_below_prefix(site, page_path(dir, posts.documents[k].name));
    }
    assert forall|k: int| 0 <= k < posts.folders.len() implies starts_with(
        (#[trigger] crate::site::folder_entries(site, dir, posts.folders)[k]).link,
        site.prefix,
    ) by {
        lemma_link_below_prefix(site, page_path(dir, posts.folders[k].0));
    }
}

/// The pages that a folder brings about are pages of the site.
proof fn lemma_folder_belongs(
    site: SiteView,
    crumbs: Seq<CrumbView>,
    parent: Seq<char>,
    name: Seq<char>,
    posts: PostsView,
)
    requires
        trail_below_prefix(site, crumbs),
    ensures
        forall|k: int|
            0 <= k < folder_outputs(site, crumbs, parent, name, posts).len() ==> output_belongs(
                site,
                #[trigger] folder_outputs(site, crumbs, parent, name, posts)[k],
            ),
    decreases posts, posts.folders.len() + 1,
{
    let all = folder_outputs(site, crumbs, parent, name, posts);
    let dir = folder_dir(parent, name);
    let inner = crumbs.push(folder_crumb(site, parent, name));
    let first = seq![OutputView::Directory { path: dir }];
    let docs = doc_outputs(site, inner, dir, posts.documents);
    let subs = subfolder_outputs(site, inner, dir, posts, posts.folders.len());
    let last = seq![OutputView::Page { page: folder_page(site, crumbs, parent, name, posts) }];
    assert(all == first + docs + subs + last);
    lemma_link_below_prefix(site, page_path(parent, name));
    assert(trail_below_prefix(site, inner)) by {
        assert forall|k: int| 0 <= k < inner.len() implies starts_with(
            (#[trigger] inner[k]).link,
            site.prefix,
        ) by {
            if k < crumbs.len() {
                assert(inner[k] == crumbs[k]);
            }
        }
    }
    lemma_entries_below_prefix(site, dir, posts);
    lemma_subfolders_belong(site, inner, dir, posts, posts.folders.len());
    assert forall|k: int| 0 <= k < all.len() implies output_belongs(site, #[trigger] all[k]) by {
        if k == 0 {
        } else if k < 1 + docs.len() {
            assert(all[k] == docs[k - 1]);
            assert(belongs(site, doc_page(site, inner, dir, posts.documents[k - 1])));
        } else if k < 1 + docs.len() + subs.len() {
            assert(all[k] == subs[k - 1 - docs.len()]);
        } else {
            assert(all[k] == last[0]);
            assert(belongs(site, folder_page(site, crumbs, parent, name, posts)));
        }
    }
}

/// The pages that the first `n` sub-folders bring about are pages of the site.
proof fn lemma_subfolders_belong(
    site: SiteView,
    crumbs: Seq<CrumbView>,
    dir: Seq<char>,
    posts: PostsView,
    n: nat,
)
    requires
        trail_below_prefix(site, crumbs),
    ensures
        forall|k: int|
            0 <= k < subfolder_outputs(site, crumbs, dir, posts, n).len() ==> output_belongs(
                site,
                #[trigger] subfolder_outputs(site, crumbs, dir, posts, n)[k],
            ),
    decreases posts, n,
{
    if n == 0 || n > posts.folders.len() {
    } else {
        let before = subfolder_outputs(site, crumbs, dir, posts, (n - 1) as nat);
        let last = folder_outputs(
            site,
            crumbs,
            dir,
            posts.folders[n - 1].0,
            posts.folders[n - 1].1,
        );
        let all = subfolder_outputs(site, crumbs, dir, posts, n);
        assert(all == before + last);
        lemma_subfolders_belong(site, crumbs, dir, posts, (n - 1) as nat);
        lemma_folder_belongs(site, crumbs, dir, posts.folders[n - 1].0, posts.folders[n - 1].1);
        assert forall|k: int| 0 <= k < all.len() implies output_belongs(site, #[trigger] all[k]) by {
            if k < before.len() {
                assert(all[k] == before[k]);
            } else {
                assert(all[k] == last[k - before.len()]);
            }
        }
    }
}

/// Every page is a page of this site.
///
/// Each page that the site renders carries the same nonce, prefix, title and
/// logo, and every link to a page that it holds, in its breadcrumbs, as its
/// back link and in what it lists, begins with the prefix.
pub proof fn lemma_pages_belong(site: SiteView, manifest: ManifestView)
    ensures
        forall|k: int|
            0 <= k < site_outputs(site, manifest).len() ==> output_belongs(
                site,
                #[trigger] site_outputs(site, manifest)[k],
            ),
{
    let all = site_outputs(site, manifest);
    let trail = seq![site.home_crumb()];
    let first = seq![OutputView::Directory { path: posts_dir() }];
    let docs = doc_outputs(site, trail, posts_dir(), manifest.posts.documents);
    let subs = subfolder_outputs(
        site,
        trail,
        posts_dir(),
        manifest.posts,
        manifest.posts.folders.len(),
    );
    let last = seq![OutputView::Page { page: index_page(site, manifest) }];
    assert(all == first + docs + subs + last);
    assert(trail_below_prefix(site, trail)) by {
        assert(site.prefix.subrange(0, site.prefix.len() as int) =~= site.prefix);
    }
    lemma_entries_below_prefix(site, posts_dir(), manifest.posts);
    lemma_subfolders_belong(
        site,
        trail,
        posts_dir(),
        manifest.posts,
        manifest.posts.folders.len(),
    );
    assert forall|k: int| 0 <= k < all.len() implies output_belongs(site, #[trigger] all[k]) by {
        if k == 0 {
        } else if k < 1 + docs.len() {
            assert(all[k] == docs[k - 1]);
            assert(belongs(
                site,
                doc_page(site, trail, posts_dir(), manifest.posts.documents[k - 1]),
            ));
        } else if k < 1 + docs.len() + subs.len() {
            assert(all[k] == subs[k - 1 - docs.len()]);
        } else {
            assert(all[k] == last[0]);
            assert(belongs(site, index_page(site, manifest)));
        }
    }
}

} // verus!
