use marker_site::site::{Crumb, DocumentEntry, FolderEntry, GenError, Output, Page, Template};
use marker_site::{Config, DocumentMeta, Generator, Manifest, Posts, Timestamp};

const H: u128 = 0x11;
const L: u128 = 0x12;
const D1: u128 = 0x21;
const D2: u128 = 0x22;

fn doc(id: u128, name: &str) -> DocumentMeta {
    DocumentMeta { id, name: name.to_string(), modified_at: Timestamp { secs: 5, nanos: 0 } }
}

fn config() -> Config {
    Config { site_root: "root".to_string(), title: "My Site".to_string(), theme: "marker".to_string() }
}

fn manifest() -> Manifest {
    Manifest {
        home: doc(H, "Home"),
        logo: doc(L, "Logo"),
        posts: Posts {
            documents: vec![doc(D1, "Welcome")],
            folders: vec![(
                "Recipes".to_string(),
                Posts { documents: vec![doc(D2, "Soup")], folders: vec![] },
            )],
        },
    }
}

fn svg(id: u128, page: usize) -> String {
    format!("/svg/{}/{}.svg", uuid::Uuid::from_u128(id), page)
}

fn rendered(gen: &mut Generator, docs: &[(u128, usize)]) {
    let results = docs
        .iter()
        .map(|(id, n)| (*id, (0..*n).map(|p| svg(*id, p)).collect()))
        .collect();
    gen.finish_rendering(results);
}

fn generator(manifest: Manifest, prefix: &str) -> Generator {
    Generator::prepare(config(), manifest, prefix.to_string(), "2021-01-01T00-00-00".to_string(), None, false)
}

fn site() -> Vec<Output> {
    let mut gen = generator(manifest(), "/");
    rendered(&mut gen, &[(H, 2), (L, 1), (D1, 1), (D2, 3)]);
    gen.gen_index().unwrap()
}

fn paths(outs: &[Output]) -> Vec<String> {
    outs.iter()
        .map(|o| match o {
            Output::Directory { path } => format!("{}/", path),
            Output::Page { page } => page.path.clone(),
        })
        .collect()
}

fn page_at<'a>(outs: &'a [Output], path: &str) -> &'a Page {
    let found: Vec<&Page> = outs
        .iter()
        .filter_map(|o| match o {
            Output::Page { page } if page.path == path => Some(page),
            _ => None,
        })
        .collect();
    assert_eq!(found.len(), 1, "{}", path);
    found[0]
}

fn crumb(name: &str, link: &str) -> Crumb {
    Crumb { name: name.to_string(), link: link.to_string() }
}

#[test]
fn site_outputs_in_order() {
    assert_eq!(
        paths(&site()),
        vec![
            "posts/",
            "posts/Welcome.html",
            "posts/Recipes/",
            "posts/Recipes/Soup.html",
            "posts/Recipes.html",
            "index.html",
        ]
    );
}

#[test]
fn whole_run_from_an_empty_cache() {
    // An empty cache: every document is rendered.
    let mut gen = generator(manifest(), "/");
    let tasks = gen.render_all_svgs();
    assert_eq!(tasks.iter().map(|t| t.id).collect::<Vec<_>>(), vec![H, L, D1, D2]);
    assert!(tasks.iter().all(|t| t.action == marker_site::render::RenderAction::Render));
    // Each archive holds one page; the jobs say where the images go.
    let mut results = Vec::new();
    let mut images = Vec::new();
    for task in &tasks {
        let names = vec![format!("{}/0.rm", uuid::Uuid::from_u128(task.id))];
        let jobs = gen.render_notebook_zip(task.id, &names, None).unwrap();
        images.extend(jobs.iter().map(|j| j.output.clone()));
        results.push((task.id, jobs.into_iter().map(|j| j.link).collect()));
    }
    assert_eq!(
        images,
        vec![
            format!("svg/{}/0.svg", uuid::Uuid::from_u128(H)),
            format!("svg/{}/0.svg", uuid::Uuid::from_u128(L)),
            format!("svg/{}/0.svg", uuid::Uuid::from_u128(D1)),
            format!("svg/{}/0.svg", uuid::Uuid::from_u128(D2)),
        ]
    );
    gen.finish_rendering(results);
    let outs = gen.gen_index().unwrap();
    let files: Vec<String> = paths(&outs).into_iter().filter(|p| !p.ends_with('/')).collect();
    assert_eq!(
        files,
        vec!["posts/Welcome.html", "posts/Recipes/Soup.html", "posts/Recipes.html", "index.html"]
    );
    // The cache records all four documents.
    let recorded: Vec<u128> = gen.render_cache.cache.keys().copied().collect();
    assert_eq!(recorded, vec![H, L, D1, D2]);
    for id in [H, L, D1, D2] {
        assert_eq!(gen.render_cache.get(id), Some(Timestamp { secs: 5, nanos: 0 }));
    }
}

#[test]
fn index_page_exact() {
    let outs = site();
    let index = page_at(&outs, "index.html");
    assert_eq!(
        *index,
        Page {
            template: Template::Index,
            path: "index.html".to_string(),
            build_nonce: "2021-01-01T00-00-00".to_string(),
            prefix: "/".to_string(),
            title: "My Site".to_string(),
            logo: svg(L, 0),
            name: "Home".to_string(),
            breadcrumbs: vec![],
            back_link: None,
            pages: vec![svg(H, 0), svg(H, 1)],
            render_nav_thumbnails: true,
            documents: vec![DocumentEntry {
                name: "Welcome".to_string(),
                svg: svg(D1, 0),
                link: "/posts/Welcome.html".to_string(),
            }],
            folders: vec![FolderEntry {
                name: "Recipes".to_string(),
                link: "/posts/Recipes.html".to_string(),
            }],
        }
    );
}

#[test]
fn document_page_exact() {
    let outs = site();
    let soup = page_at(&outs, "posts/Recipes/Soup.html");
    assert_eq!(
        *soup,
        Page {
            template: Template::Document,
            path: "posts/Recipes/Soup.html".to_string(),
            build_nonce: "2021-01-01T00-00-00".to_string(),
            prefix: "/".to_string(),
            title: "My Site".to_string(),
            logo: svg(L, 0),
            name: "Soup".to_string(),
            breadcrumbs: vec![crumb("Home", "/"), crumb("Recipes", "/posts/Recipes.html")],
            back_link: Some("/posts/Recipes.html".to_string()),
            pages: vec![svg(D2, 0), svg(D2, 1), svg(D2, 2)],
            render_nav_thumbnails: true,
            documents: vec![],
            folders: vec![],
        }
    );
    let welcome = page_at(&outs, "posts/Welcome.html");
    assert_eq!(welcome.breadcrumbs, vec![crumb("Home", "/")]);
    assert_eq!(welcome.back_link, Some("/".to_string()));
    assert_eq!(welcome.pages, vec![svg(D1, 0)]);
    assert!(!welcome.render_nav_thumbnails);
}

#[test]
fn folder_page_exact() {
    let outs = site();
    let recipes = page_at(&outs, "posts/Recipes.html");
    assert_eq!(
        *recipes,
        Page {
            template: Template::Folder,
            path: "posts/Recipes.html".to_string(),
            build_nonce: "2021-01-01T00-00-00".to_string(),
            prefix: "/".to_string(),
            title: "My Site".to_string(),
            logo: svg(L, 0),
            name: "Recipes".to_string(),
            breadcrumbs: vec![crumb("Home", "/")],
            back_link: Some("/".to_string()),
            pages: vec![],
            render_nav_thumbnails: false,
            documents: vec![DocumentEntry {
                name: "Soup".to_string(),
                svg: svg(D2, 0),
                link: "/posts/Recipes/Soup.html".to_string(),
            }],
            folders: vec![],
        }
    );
}

fn nested() -> Manifest {
    Manifest {
        home: doc(H, "Home"),
        logo: doc(L, "Logo"),
        posts: Posts {
            documents: vec![],
            folders: vec![(
                "A".to_string(),
                Posts {
                    documents: vec![],
                    folders: vec![(
                        "B".to_string(),
                        Posts { documents: vec![doc(D1, "Deep one")], folders: vec![] },
                    )],
                },
            )],
        },
    }
}

#[test]
fn breadcrumbs_of_a_nested_document() {
    let mut gen = generator(nested(), "/");
    rendered(&mut gen, &[(H, 1), (L, 1), (D1, 1)]);
    let outs = gen.gen_index().unwrap();
    let page = page_at(&outs, "posts/A/B/Deep-one.html");
    assert_eq!(
        page.breadcrumbs,
        vec![crumb("Home", "/"), crumb("A", "/posts/A.html"), crumb("B", "/posts/A/B.html")]
    );
    assert_eq!(page.back_link, Some("/posts/A/B.html".to_string()));
    // The folder B itself is reached over Home and A.
    let b = page_at(&outs, "posts/A/B.html");
    assert_eq!(b.breadcrumbs, vec![crumb("Home", "/"), crumb("A", "/posts/A.html")]);
    assert_eq!(b.back_link, Some("/posts/A.html".to_string()));
    assert_eq!(b.documents[0].link, "/posts/A/B/Deep-one.html");
}

#[test]
fn every_folder_has_a_directory_and_a_page_beside_it() {
    let mut gen = generator(nested(), "/");
    rendered(&mut gen, &[(H, 1), (L, 1), (D1, 1)]);
    let outs = gen.gen_index().unwrap();
    let all = paths(&outs);
    assert_eq!(
        all,
        vec![
            "posts/",
            "posts/A/",
            "posts/A/B/",
            "posts/A/B/Deep-one.html",
            "posts/A/B.html",
            "posts/A.html",
            "index.html",
        ]
    );
    for dir in ["posts/A", "posts/A/B"] {
        assert!(all.contains(&format!("{}/", dir)));
        assert!(all.contains(&format!("{}.html", dir)));
    }
    // No page is a directory.
    for out in &outs {
        match out {
            Output::Directory { path } => assert!(!path.contains('.')),
            Output::Page { page } => assert!(page.path.ends_with(".html")),
        }
    }
}

#[test]
fn names_are_sanitized_in_paths_only() {
    let manifest = Manifest {
        home: doc(H, "Home"),
        logo: doc(L, "Logo"),
        posts: Posts {
            documents: vec![doc(D1, "What's new? (v1.2)")],
            folders: vec![(
                "../etc".to_string(),
                Posts { documents: vec![doc(D2, "a/b.html")], folders: vec![] },
            )],
        },
    };
    let mut gen = generator(manifest, "/");
    rendered(&mut gen, &[(H, 1), (L, 1), (D1, 1), (D2, 1)]);
    let outs = gen.gen_index().unwrap();
    assert_eq!(
        paths(&outs),
        vec![
            "posts/",
            "posts/What-s-new---v1-2-.html",
            "posts/---etc/",
            "posts/---etc/a-b-html.html",
            "posts/---etc.html",
            "index.html",
        ]
    );
    let page = page_at(&outs, "posts/---etc/a-b-html.html");
    assert_eq!(page.name, "a/b.html");
    assert_eq!(page.breadcrumbs[1], crumb("../etc", "/posts/---etc.html"));
    let index = page_at(&outs, "index.html");
    assert_eq!(index.documents[0].name, "What's new? (v1.2)");
    assert_eq!(index.folders[0].name, "../etc");
}

#[test]
fn site_links_start_with_the_prefix() {
    let mut gen = generator(manifest(), "/notes");
    gen.finish_rendering(vec![
        (H, vec!["h".to_string()]),
        (L, vec!["l".to_string()]),
        (D1, vec!["d1".to_string()]),
        (D2, vec!["d2".to_string()]),
    ]);
    assert_eq!(gen.relative_to_root("posts/x.html"), "/notes/posts/x.html");
    let outs = gen.gen_index().unwrap();
    // Files stay below the output root; only links carry the prefix.
    assert_eq!(paths(&outs)[1], "posts/Welcome.html");
    let soup = page_at(&outs, "posts/Recipes/Soup.html");
    assert_eq!(
        soup.breadcrumbs,
        vec![crumb("Home", "/notes"), crumb("Recipes", "/notes/posts/Recipes.html")]
    );
    let index = page_at(&outs, "index.html");
    assert_eq!(index.documents[0].link, "/notes/posts/Welcome.html");
    assert_eq!(index.folders[0].link, "/notes/posts/Recipes.html");
    assert_eq!(index.prefix, "/notes");
}

#[test]
fn empty_posts_give_index_only() {
    let manifest = Manifest {
        home: doc(H, "Home"),
        logo: doc(L, "Logo"),
        posts: Posts { documents: vec![], folders: vec![] },
    };
    let mut gen = generator(manifest, "/");
    rendered(&mut gen, &[(H, 0), (L, 1)]);
    let outs = gen.gen_index().unwrap();
    assert_eq!(paths(&outs), vec!["posts/", "index.html"]);
    let index = page_at(&outs, "index.html");
    // The home document may be empty: it is shown by all its pages.
    assert!(index.pages.is_empty());
    assert!(!index.render_nav_thumbnails);
}

#[test]
fn document_without_rendering_fails() {
    let mut gen = generator(manifest(), "/");
    assert_eq!(gen.check_rendered(), Some(GenError::MissingPages { id: H }));
    assert_eq!(gen.gen_index(), Err(GenError::MissingPages { id: H }));
    rendered(&mut gen, &[(H, 1), (L, 1), (D1, 1)]);
    assert_eq!(gen.gen_index(), Err(GenError::MissingPages { id: D2 }));
    assert_eq!(gen.doc_pages(D2), None);
    assert_eq!(gen.doc_pages(D1), Some(&vec![svg(D1, 0)]));
}

#[test]
fn document_without_pages_fails() {
    let mut gen = generator(manifest(), "/");
    rendered(&mut gen, &[(H, 1), (L, 0), (D1, 1), (D2, 1)]);
    assert_eq!(gen.gen_index(), Err(GenError::NoPages { id: L }));
    let mut gen = generator(manifest(), "/");
    rendered(&mut gen, &[(H, 0), (L, 1), (D1, 1), (D2, 0)]);
    assert_eq!(gen.gen_index(), Err(GenError::NoPages { id: D2 }));
    // The first problem in the order home, logo, posts decides.
    let mut gen = generator(manifest(), "/");
    rendered(&mut gen, &[(H, 1), (L, 1), (D1, 0)]);
    assert_eq!(gen.gen_index(), Err(GenError::NoPages { id: D1 }));
    assert_eq!(gen.check_rendered(), Some(GenError::NoPages { id: D1 }));
}

#[test]
fn ready_site_has_no_problem() {
    let mut gen = generator(manifest(), "/");
    rendered(&mut gen, &[(H, 1), (L, 1), (D1, 1), (D2, 1)]);
    assert_eq!(gen.check_rendered(), None);
}

#[test]
fn same_input_same_site() {
    assert_eq!(site(), site());
}
