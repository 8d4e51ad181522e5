use marker_site::render::{RenderAction, RenderTask};
use marker_site::{Config, DocumentMeta, Generator, Manifest, Posts, RenderCache, Timestamp};
use std::collections::BTreeMap;

fn at(secs: i64) -> Timestamp {
    Timestamp { secs, nanos: 0 }
}

fn doc(id: u128, name: &str, secs: i64) -> DocumentMeta {
    DocumentMeta { id, name: name.to_string(), modified_at: at(secs) }
}

fn config() -> Config {
    Config { site_root: "root".to_string(), title: "Title".to_string(), theme: "marker".to_string() }
}

fn manifest() -> Manifest {
    Manifest {
        home: doc(1, "Home", 100),
        logo: doc(2, "Logo", 200),
        posts: Posts {
            documents: vec![doc(3, "Welcome", 300)],
            folders: vec![(
                "Recipes".to_string(),
                Posts { documents: vec![doc(4, "Soup", 400)], folders: vec![] },
            )],
        },
    }
}

fn cache_of(version: &str, entries: &[(u128, i64)]) -> RenderCache {
    let mut cache = BTreeMap::new();
    for (id, secs) in entries {
        cache.insert(*id, at(*secs));
    }
    RenderCache { version: version.to_string(), cache }
}

fn current() -> String {
    RenderCache::default().version
}

fn generator(stored: Option<RenderCache>, no_cache: bool) -> Generator {
    Generator::prepare(config(), manifest(), "/".to_string(), "nonce".to_string(), stored, no_cache)
}

fn actions(tasks: &[RenderTask]) -> Vec<RenderAction> {
    tasks.iter().map(|t| t.action).collect()
}

#[test]
fn default_cache_is_empty_and_current() {
    let cache = RenderCache::default();
    assert!(cache.cache.is_empty());
    assert!(cache.is_current_version());
    assert_eq!(cache.version, "0.1.0");
    assert_eq!(cache.get(1), None);
}

#[test]
fn get_finds_what_was_recorded() {
    let cache = cache_of(&current(), &[(7, 70)]);
    assert_eq!(cache.get(7), Some(at(70)));
    assert_eq!(cache.get(8), None);
}

#[test]
fn up_to_date_needs_the_same_time() {
    let cache = cache_of(&current(), &[(3, 300)]);
    assert!(cache.is_up_to_date(&doc(3, "Welcome", 300)));
    // A document newer than the cache, and one older than the cache.
    assert!(!cache.is_up_to_date(&doc(3, "Welcome", 301)));
    assert!(!cache.is_up_to_date(&doc(3, "Welcome", 299)));
    // No entry at all.
    assert!(!cache.is_up_to_date(&doc(5, "Other", 300)));
    // The nanoseconds count too.
    let fine = DocumentMeta {
        id: 3,
        name: "Welcome".to_string(),
        modified_at: Timestamp { secs: 300, nanos: 1 },
    };
    assert!(!cache.is_up_to_date(&fine));
}

#[test]
fn load_keeps_a_cache_of_the_current_version() {
    let stored = cache_of(&current(), &[(1, 100), (2, 200)]);
    let loaded = RenderCache::load(Some(stored.clone()));
    assert_eq!(loaded, stored);
}

#[test]
fn load_drops_a_cache_of_another_version() {
    let stored = cache_of("0.0.9", &[(1, 100), (2, 200)]);
    let loaded = RenderCache::load(Some(stored));
    assert_eq!(loaded, RenderCache::default());
    assert!(loaded.cache.is_empty());
}

#[test]
fn load_without_a_stored_cache_is_empty() {
    assert_eq!(RenderCache::load(None), RenderCache::default());
}

#[test]
fn record_replaces_and_adds() {
    let mut cache = cache_of(&current(), &[(1, 1), (9, 9)]);
    cache.record(&vec![doc(1, "Home", 100), doc(2, "Logo", 200), doc(1, "Home", 101)]);
    assert_eq!(cache.get(1), Some(at(101)));
    assert_eq!(cache.get(2), Some(at(200)));
    assert_eq!(cache.get(9), Some(at(9)));
    assert_eq!(cache.cache.len(), 3);
    assert_eq!(cache.version, current());
}

#[test]
fn prepare_takes_the_stored_cache() {
    let stored = cache_of(&current(), &[(1, 100)]);
    let gen = generator(Some(stored.clone()), false);
    assert_eq!(gen.render_cache, stored);
    assert!(gen.svgs.is_empty());
    assert_eq!(gen.prefix, "/");
    assert_eq!(gen.build_nonce, "nonce");
    assert_eq!(gen.title(), "Title");
    assert_eq!(gen.manifest, manifest());
}

#[test]
fn prepare_without_cache_sets_it_aside() {
    let stored = cache_of(&current(), &[(1, 100), (2, 200), (3, 300), (4, 400)]);
    let gen = generator(Some(stored), true);
    assert!(gen.render_cache.cache.is_empty());
    let tasks = gen.render_all_svgs();
    assert_eq!(actions(&tasks), vec![RenderAction::Render; 4]);
}

#[test]
fn empty_cache_renders_everything() {
    let gen = generator(None, false);
    let tasks = gen.render_all_svgs();
    assert_eq!(tasks.iter().map(|t| t.id).collect::<Vec<_>>(), vec![1, 2, 3, 4]);
    assert_eq!(actions(&tasks), vec![RenderAction::Render; 4]);
    // Only the logo is cropped.
    assert_eq!(tasks.iter().map(|t| t.crop).collect::<Vec<_>>(), vec![false, true, false, false]);
}

#[test]
fn up_to_date_cache_reuses_everything() {
    let stored = cache_of(&current(), &[(1, 100), (2, 200), (3, 300), (4, 400)]);
    let gen = generator(Some(stored), false);
    let tasks = gen.render_all_svgs();
    assert_eq!(actions(&tasks), vec![RenderAction::Reuse; 4]);
}

#[test]
fn stale_documents_are_rendered_either_way() {
    // 2 is newer than the cache, 3 is older than the cache, 4 is unknown to it.
    let stored = cache_of(&current(), &[(1, 100), (2, 199), (3, 301)]);
    let gen = generator(Some(stored), false);
    let tasks = gen.render_all_svgs();
    assert_eq!(
        actions(&tasks),
        vec![RenderAction::Reuse, RenderAction::Render, RenderAction::Render, RenderAction::Render]
    );
}

#[test]
fn tasks_have_their_own_directories() {
    let gen = generator(None, false);
    let tasks = gen.render_all_svgs();
    for (i, a) in tasks.iter().enumerate() {
        assert!(a.directory.starts_with("svg/"));
        assert!(a.archive.starts_with("zip/") && a.archive.ends_with(".zip"));
        for b in &tasks[i + 1..] {
            assert_ne!(a.directory, b.directory);
            assert_ne!(a.archive, b.archive);
        }
    }
}

#[test]
fn finishing_records_every_document() {
    let stored = cache_of(&current(), &[(1, 100), (2, 199), (3, 301), (9, 9)]);
    let mut gen = generator(Some(stored), false);
    gen.finish_rendering(vec![
        (1, vec!["/svg/a/0.svg".to_string()]),
        (2, vec!["/svg/b/0.svg".to_string()]),
        (3, vec!["/svg/c/0.svg".to_string()]),
        (4, vec!["/svg/d/0.svg".to_string(), "/svg/d/1.svg".to_string()]),
    ]);
    // Reused or rendered, each document of the manifest now stands at its own time.
    assert_eq!(gen.render_cache.get(1), Some(at(100)));
    assert_eq!(gen.render_cache.get(2), Some(at(200)));
    assert_eq!(gen.render_cache.get(3), Some(at(300)));
    assert_eq!(gen.render_cache.get(4), Some(at(400)));
    assert_eq!(gen.render_cache.get(9), Some(at(9)));
    assert_eq!(gen.svgs.len(), 4);
    assert_eq!(gen.svgs[&4].len(), 2);
    // The next run reuses all of them.
    let next = generator(Some(gen.render_cache.clone()), false);
    assert_eq!(actions(&next.render_all_svgs()), vec![RenderAction::Reuse; 4]);
}

#[test]
fn finishing_keeps_the_last_result_of_a_document() {
    let mut gen = generator(None, false);
    gen.finish_rendering(vec![
        (1, vec!["first".to_string()]),
        (1, vec!["second".to_string(), "third".to_string()]),
    ]);
    assert_eq!(gen.svgs[&1], vec!["second".to_string(), "third".to_string()]);
}

#[test]
fn document_lists_go_home_logo_posts() {
    let m = manifest();
    assert_eq!(m.doc_ids(), vec![1, 2, 3, 4]);
    assert_eq!(m.posts.doc_ids(), vec![3, 4]);
    assert_eq!(m.docs(), vec![doc(1, "Home", 100), doc(2, "Logo", 200), doc(3, "Welcome", 300), doc(4, "Soup", 400)]);
    assert_eq!(m.posts.docs(), vec![doc(3, "Welcome", 300), doc(4, "Soup", 400)]);
}

#[test]
fn document_lists_take_a_folder_before_the_next() {
    let deep = Posts {
        documents: vec![doc(10, "a", 0)],
        folders: vec![
            (
                "x".to_string(),
                Posts {
                    documents: vec![doc(11, "b", 0), doc(12, "c", 0)],
                    folders: vec![("y".to_string(), Posts { documents: vec![doc(13, "d", 0)], folders: vec![] })],
                },
            ),
            ("z".to_string(), Posts { documents: vec![doc(14, "e", 0)], folders: vec![] }),
        ],
    };
    assert_eq!(deep.doc_ids(), vec![10, 11, 12, 13, 14]);
}
