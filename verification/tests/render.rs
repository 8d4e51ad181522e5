use marker_site::render::{templates_entry, PageJob, RenderError};
use marker_site::{Config, DocumentMeta, Generator, Manifest, Posts, Timestamp};

const ID: u128 = 0x936DA01F9ABD4D9D80C702AF85C822A8;
const ID_TEXT: &str = "936da01f-9abd-4d9d-80c7-02af85c822a8";

fn doc(id: u128, name: &str) -> DocumentMeta {
    DocumentMeta { id, name: name.to_string(), modified_at: Timestamp { secs: 0, nanos: 0 } }
}

fn generator(prefix: &str) -> Generator {
    let manifest = Manifest {
        home: doc(1, "Home"),
        logo: doc(2, "Logo"),
        posts: Posts { documents: vec![], folders: vec![] },
    };
    let config = Config {
        site_root: "root".to_string(),
        title: "Title".to_string(),
        theme: "marker".to_string(),
    };
    Generator::prepare(config, manifest, prefix.to_string(), "n".to_string(), None, false)
}

fn strings(items: &[&str]) -> Vec<String> {
    items.iter().map(|s| s.to_string()).collect()
}

fn page_entry(n: &str) -> String {
    format!("{}/{}.rm", ID_TEXT, n)
}

fn pages(jobs: &[PageJob]) -> Vec<usize> {
    jobs.iter().map(|j| j.page).collect()
}

#[test]
fn templates_entry_is_the_first_pagedata() {
    assert_eq!(templates_entry(&strings(&["a.content", "a.pagedata", "b.pagedata"])), Some(1));
    assert_eq!(templates_entry(&strings(&["a.content", "a/0.rm"])), None);
    assert_eq!(templates_entry(&strings(&[])), None);
    assert_eq!(templates_entry(&strings(&[".pagedata"])), Some(0));
    assert_eq!(templates_entry(&strings(&["pagedata", "x.pagedata.bak"])), None);
}

#[test]
fn one_job_for_each_page_entry() {
    let gen = generator("/");
    let names = vec![
        format!("{}.content", ID_TEXT),
        page_entry("0"),
        format!("{}/0-metadata.json", ID_TEXT),
        page_entry("1"),
        format!("{}.pagedata", ID_TEXT),
    ];
    let templates = strings(&["Blank", "P Grid"]);
    let jobs = gen.render_notebook_zip(ID, &names, Some(&templates)).unwrap();
    assert_eq!(
        jobs,
        vec![
            PageJob {
                entry: 1,
                page: 0,
                template: Some("Blank".to_string()),
                output: format!("svg/{}/0.svg", ID_TEXT),
                link: format!("/svg/{}/0.svg", ID_TEXT),
            },
            PageJob {
                entry: 3,
                page: 1,
                template: Some("P Grid".to_string()),
                output: format!("svg/{}/1.svg", ID_TEXT),
                link: format!("/svg/{}/1.svg", ID_TEXT),
            },
        ]
    );
}

#[test]
fn pages_order_as_numbers() {
    let gen = generator("/");
    // The order in which names sort as text: 0, 1, 10, 2, ...
    let mut names: Vec<String> = (0..=10).map(|n| page_entry(&n.to_string())).collect();
    names.sort();
    assert_eq!(names[2], page_entry("10"));
    let jobs = gen.render_notebook_zip(ID, &names, None).unwrap();
    assert_eq!(pages(&jobs), (0..=10).collect::<Vec<usize>>());
    let links: Vec<String> = jobs.iter().map(|j| j.link.clone()).collect();
    let expected: Vec<String> = (0..=10).map(|n| format!("/svg/{}/{}.svg", ID_TEXT, n)).collect();
    assert_eq!(links, expected);
    // Each job still knows its entry.
    for job in &jobs {
        assert_eq!(names[job.entry], page_entry(&job.page.to_string()));
    }
}

#[test]
fn equal_pages_keep_archive_order() {
    let gen = generator("/");
    let names = vec![page_entry("2"), page_entry("01"), page_entry("1"), page_entry("+1"), page_entry("0")];
    let jobs = gen.render_notebook_zip(ID, &names, None).unwrap();
    assert_eq!(pages(&jobs), vec![0, 1, 1, 1, 2]);
    assert_eq!(jobs.iter().map(|j| j.entry).collect::<Vec<_>>(), vec![4, 1, 2, 3, 0]);
}

#[test]
fn templates_go_by_page_number() {
    let gen = generator("/");
    let names = vec![page_entry("2"), page_entry("0"), page_entry("5")];
    let templates = strings(&["zero", "one", "two"]);
    let jobs = gen.render_notebook_zip(ID, &names, Some(&templates)).unwrap();
    assert_eq!(
        jobs.iter().map(|j| j.template.clone()).collect::<Vec<_>>(),
        vec![Some("zero".to_string()), Some("two".to_string()), None]
    );
    let jobs = gen.render_notebook_zip(ID, &names, None).unwrap();
    assert!(jobs.iter().all(|j| j.template.is_none()));
}

#[test]
fn page_numbers_are_what_is_left_of_the_name() {
    let gen = generator("/");
    // The identifier in front and the suffix at the end go as often as they stand there.
    let names = vec![
        format!("{}/{}/7.rm.rm", ID_TEXT, ID_TEXT),
        "3.rm".to_string(),
        format!("{}/0012.rm", ID_TEXT),
    ];
    let jobs = gen.render_notebook_zip(ID, &names, None).unwrap();
    assert_eq!(pages(&jobs), vec![3, 7, 12]);
}

#[test]
fn unreadable_page_number_fails_with_the_first() {
    let gen = generator("/");
    let names = vec![
        page_entry("0"),
        format!("{}/cover.rm", ID_TEXT),
        format!("other/{}/1.rm", ID_TEXT),
    ];
    let err = gen.render_notebook_zip(ID, &names, None).unwrap_err();
    assert_eq!(err, RenderError::PageNumber { id: ID, entry: format!("{}/cover.rm", ID_TEXT) });
    assert!(!err.is_cache_corruption());
    // The identifier of another document is no part of a page number.
    let names = vec![format!("00000000-0000-0000-0000-000000000001/1.rm")];
    let err = gen.render_notebook_zip(ID, &names, None).unwrap_err();
    assert_eq!(err, RenderError::PageNumber { id: ID, entry: names[0].clone() });
    // Nothing is left of this name.
    let names = vec![".rm".to_string()];
    assert!(gen.render_notebook_zip(ID, &names, None).is_err());
    let names = vec![page_entry("-1")];
    assert!(gen.render_notebook_zip(ID, &names, None).is_err());
}

#[test]
fn archive_without_pages_has_no_jobs() {
    let gen = generator("/");
    assert_eq!(gen.render_notebook_zip(ID, &vec![], None), Ok(vec![]));
    assert_eq!(gen.render_notebook_zip(ID, &strings(&["a.content", "rm", "x.rmx"]), None), Ok(vec![]));
}

#[test]
fn page_links_start_with_the_prefix() {
    let names = vec![page_entry("4")];
    let jobs = generator("/notes").render_notebook_zip(ID, &names, None).unwrap();
    assert_eq!(jobs[0].output, format!("svg/{}/4.svg", ID_TEXT));
    assert_eq!(jobs[0].link, format!("/notes/svg/{}/4.svg", ID_TEXT));
    let jobs = generator("").render_notebook_zip(ID, &names, None).unwrap();
    assert_eq!(jobs[0].link, format!("svg/{}/4.svg", ID_TEXT));
}

#[test]
fn cached_pages_order_as_numbers() {
    let gen = generator("/");
    let files = strings(&["10.svg", "9.svg", "1.svg", "0.svg", "5.svg", "2.svg", "8.svg", "3.svg", "7.svg", "4.svg", "6.svg"]);
    let links = gen.cached_pages(ID, Some(&files)).unwrap();
    let expected: Vec<String> = (0..=10).map(|n| format!("/svg/{}/{}.svg", ID_TEXT, n)).collect();
    assert_eq!(links, expected);
}

#[test]
fn cached_pages_are_what_rendering_gave() {
    let gen = generator("/site");
    let mut names: Vec<String> = (0..=12).map(|n| page_entry(&n.to_string())).collect();
    names.reverse();
    let jobs = gen.render_notebook_zip(ID, &names, None).unwrap();
    // The files that the jobs wrote, as a directory lists them: in no order.
    let mut files: Vec<String> = jobs
        .iter()
        .map(|j| j.output.rsplit('/').next().unwrap().to_string())
        .collect();
    files.sort();
    let links = gen.cached_pages(ID, Some(&files)).unwrap();
    assert_eq!(links, jobs.iter().map(|j| j.link.clone()).collect::<Vec<_>>());
}

#[test]
fn cached_pages_link_to_the_files_as_named() {
    let gen = generator("/");
    let files = strings(&["2.png", "002.svg", "1"]);
    let links = gen.cached_pages(ID, Some(&files)).unwrap();
    assert_eq!(
        links,
        vec![
            format!("/svg/{}/1", ID_TEXT),
            format!("/svg/{}/2.png", ID_TEXT),
            format!("/svg/{}/002.svg", ID_TEXT),
        ]
    );
}

#[test]
fn cached_pages_of_an_empty_directory() {
    let gen = generator("/");
    assert_eq!(gen.cached_pages(ID, Some(&vec![])), Ok(vec![]));
}

#[test]
fn missing_directory_is_cache_corruption() {
    let gen = generator("/");
    let err = gen.cached_pages(ID, None).unwrap_err();
    assert_eq!(err, RenderError::CacheDirectory { id: ID });
    assert!(err.is_cache_corruption());
}

#[test]
fn stray_file_is_cache_corruption() {
    let gen = generator("/");
    let files = strings(&["0.svg", "notes.txt", "x.svg"]);
    let err = gen.cached_pages(ID, Some(&files)).unwrap_err();
    assert_eq!(err, RenderError::CachePage { id: ID, file: "notes.txt".to_string() });
    assert!(err.is_cache_corruption());
    // One file alone is held to the rule too.
    let err = gen.cached_pages(ID, Some(&strings(&["cover.svg"]))).unwrap_err();
    assert_eq!(err, RenderError::CachePage { id: ID, file: "cover.svg".to_string() });
    // A page number has 16 bits.
    assert!(gen.cached_pages(ID, Some(&strings(&["65535.svg"]))).is_ok());
    let err = gen.cached_pages(ID, Some(&strings(&["65536.svg"]))).unwrap_err();
    assert_eq!(err, RenderError::CachePage { id: ID, file: "65536.svg".to_string() });
    // The stem of a name that begins with its only dot is the whole name.
    assert!(gen.cached_pages(ID, Some(&strings(&[".svg"]))).is_err());
}
