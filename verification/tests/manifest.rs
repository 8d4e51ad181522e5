use marker_site::resolve::{resolve_root, ManifestError};
use marker_site::{DocumentMeta, Manifest, Posts, Timestamp};
use remarkable_cloud_api::Documents;

const ROOT: &str = "00000000-0000-0000-0000-0000000000a0";
const HOME: &str = "00000000-0000-0000-0000-0000000000a1";
const LOGO: &str = "00000000-0000-0000-0000-0000000000a2";
const POSTS: &str = "00000000-0000-0000-0000-0000000000a3";
const WELCOME: &str = "00000000-0000-0000-0000-0000000000b1";
const RECIPES: &str = "00000000-0000-0000-0000-0000000000b2";
const SOUP: &str = "00000000-0000-0000-0000-0000000000c1";

fn record(id: &str, name: &str, parent: &str, doc_type: &str, modified: &str) -> String {
    format!(
        "{{\"ID\":\"{}\",\"VissibleName\":\"{}\",\"Parent\":\"{}\",\"Type\":\"{}\",\
         \"CurrentPage\":0,\"Bookmarked\":false,\"Message\":\"\",\"ModifiedClient\":\"{}\",\
         \"BlobURLGet\":\"\",\"BlobURLGetExpires\":\"0001-01-01T00:00:00Z\"}}",
        id, name, parent, doc_type, modified
    )
}

fn folder(id: &str, name: &str, parent: &str) -> String {
    record(id, name, parent, "CollectionType", "2021-01-01T00:00:00Z")
}

fn document(id: &str, name: &str, parent: &str) -> String {
    record(id, name, parent, "DocumentType", "2021-01-01T00:00:00Z")
}

fn documents(records: &[String]) -> Documents {
    serde_json::from_str(&format!("[{}]", records.join(","))).unwrap()
}

fn id(text: &str) -> u128 {
    uuid::Uuid::parse_str(text).unwrap().as_u128()
}

fn meta(id_text: &str, name: &str) -> DocumentMeta {
    DocumentMeta {
        id: id(id_text),
        name: name.to_string(),
        modified_at: Timestamp { secs: 1609459200, nanos: 0 },
    }
}

fn site() -> Vec<String> {
    vec![
        folder(ROOT, "My Site", ""),
        document(HOME, "Home", ROOT),
        document(LOGO, "Logo", ROOT),
        folder(POSTS, "Posts", ROOT),
        document(WELCOME, "Welcome", POSTS),
        folder(RECIPES, "Recipes", POSTS),
        document(SOUP, "Soup", RECIPES),
    ]
}

fn expected() -> Manifest {
    Manifest {
        home: meta(HOME, "Home"),
        logo: meta(LOGO, "Logo"),
        posts: Posts {
            documents: vec![meta(WELCOME, "Welcome")],
            folders: vec![(
                "Recipes".to_string(),
                Posts { documents: vec![meta(SOUP, "Soup")], folders: vec![] },
            )],
        },
    }
}

fn without(records: Vec<String>, id: &str) -> Vec<String> {
    records.into_iter().filter(|r| !r.contains(&format!("\"ID\":\"{}\"", id))).collect()
}

#[test]
fn build_by_name() {
    let manifest = Manifest::build("My Site".to_string(), documents(&site())).unwrap();
    assert_eq!(manifest, expected());
}

#[test]
fn build_by_identifier() {
    let manifest = Manifest::build(ROOT.to_string(), documents(&site())).unwrap();
    assert_eq!(manifest, expected());
    // The same identifier, written without hyphens and in capitals.
    let simple = ROOT.replace('-', "").to_uppercase();
    let manifest = Manifest::build(simple, documents(&site())).unwrap();
    assert_eq!(manifest, expected());
}

#[test]
fn build_by_identifier_of_a_nested_folder() {
    // A root given by its identifier need not lie at the top level.
    let mut records = site();
    records[0] = folder(ROOT, "My Site", "00000000-0000-0000-0000-00000000ffff");
    let manifest = Manifest::build(ROOT.to_string(), documents(&records)).unwrap();
    assert_eq!(manifest, expected());
    // By name it is not found there.
    let err = Manifest::build("My Site".to_string(), documents(&records)).unwrap_err();
    assert_eq!(err, ManifestError::RootName { name: "My Site".to_string(), found: 0 });
}

#[test]
fn build_keeps_the_modification_time() {
    let mut records = site();
    records[1] = record(HOME, "Home", ROOT, "DocumentType", "2021-03-04T05:06:07.123456789Z");
    let manifest = Manifest::build(ROOT.to_string(), documents(&records)).unwrap();
    assert_eq!(manifest.home.modified_at, Timestamp { secs: 1614834367, nanos: 123456789 });
    assert_eq!(manifest.logo.modified_at, Timestamp { secs: 1609459200, nanos: 0 });
}

#[test]
fn build_orders_by_name() {
    let mut records = site();
    for (i, name) in ["b", "B", "a10", "a2", "", "é", "zz", "z"].iter().enumerate() {
        records.push(document(&format!("00000000-0000-0000-0000-00000000d{:03}", i), name, POSTS));
        records.push(folder(&format!("00000000-0000-0000-0000-00000000e{:03}", i), name, POSTS));
    }
    let manifest = Manifest::build(ROOT.to_string(), documents(&records)).unwrap();
    let names: Vec<&str> = manifest.posts.documents.iter().map(|d| d.name.as_str()).collect();
    assert_eq!(names, vec!["", "B", "Welcome", "a10", "a2", "b", "z", "zz", "é"]);
    let mut sorted = names.clone();
    sorted.sort();
    assert_eq!(names, sorted);
    let folders: Vec<&str> = manifest.posts.folders.iter().map(|f| f.0.as_str()).collect();
    assert_eq!(folders, vec!["", "B", "Recipes", "a10", "a2", "b", "z", "zz", "é"]);
}

#[test]
fn build_keeps_one_of_two_documents_of_a_name() {
    let mut records = site();
    let twin = "00000000-0000-0000-0000-0000000000b9";
    records.push(document(twin, "Welcome", POSTS));
    let manifest = Manifest::build(ROOT.to_string(), documents(&records)).unwrap();
    assert_eq!(manifest.posts.documents.len(), 1);
    let kept = &manifest.posts.documents[0];
    assert_eq!(kept.name, "Welcome");
    assert!(kept.id == id(WELCOME) || kept.id == id(twin));
}

#[test]
fn build_goes_by_the_type_tag() {
    let mut records = site();
    // Neither a document nor a folder: it appears nowhere.
    records.push(record("00000000-0000-0000-0000-0000000000f1", "Odd", POSTS, "TrashType", "2021-01-01T00:00:00Z"));
    // A folder named Home and a document named Posts do not stand in for the real ones.
    records.push(folder("00000000-0000-0000-0000-0000000000f2", "Home", ROOT));
    records.push(document("00000000-0000-0000-0000-0000000000f3", "Posts", ROOT));
    let manifest = Manifest::build(ROOT.to_string(), documents(&records)).unwrap();
    assert_eq!(manifest, expected());
}

#[test]
fn build_mirrors_deep_folders() {
    let mut records = site();
    let mut parent = RECIPES.to_string();
    for depth in 0..20 {
        let next = format!("00000000-0000-0000-0000-0000000001{:02}", depth);
        records.push(folder(&next, &format!("level{}", depth), &parent));
        parent = next;
    }
    records.push(document("00000000-0000-0000-0000-000000000200", "Bottom", &parent));
    let manifest = Manifest::build(ROOT.to_string(), documents(&records)).unwrap();
    let mut node = &manifest.posts.folders[0].1;
    for depth in 0..20 {
        assert_eq!(node.folders.len(), 1);
        assert_eq!(node.folders[0].0, format!("level{}", depth));
        node = &node.folders[0].1;
    }
    assert_eq!(node.documents, vec![meta("00000000-0000-0000-0000-000000000200", "Bottom")]);
    assert_eq!(manifest.doc_ids().len(), 5);
}

#[test]
fn unknown_root_identifier() {
    let other = "00000000-0000-0000-0000-00000000dead";
    let err = Manifest::build(other.to_string(), documents(&site())).unwrap_err();
    assert_eq!(err, ManifestError::UnknownRoot { id: id(other) });
}

#[test]
fn root_identifier_of_a_document() {
    let err = Manifest::build(HOME.to_string(), documents(&site())).unwrap_err();
    assert_eq!(err, ManifestError::RootNotFolder { doc_type: "DocumentType".to_string() });
}

#[test]
fn root_name_that_no_folder_has() {
    let err = Manifest::build("Elsewhere".to_string(), documents(&site())).unwrap_err();
    assert_eq!(err, ManifestError::RootName { name: "Elsewhere".to_string(), found: 0 });
    // A folder of that name below the top level does not count, nor does a document.
    let err = Manifest::build("Recipes".to_string(), documents(&site())).unwrap_err();
    assert_eq!(err, ManifestError::RootName { name: "Recipes".to_string(), found: 0 });
    let mut records = site();
    records.push(document("00000000-0000-0000-0000-0000000000f4", "Sheet", ""));
    let err = Manifest::build("Sheet".to_string(), documents(&records)).unwrap_err();
    assert_eq!(err, ManifestError::RootName { name: "Sheet".to_string(), found: 0 });
}

#[test]
fn root_name_that_several_folders_have() {
    let mut records = site();
    records.push(folder("00000000-0000-0000-0000-0000000000f5", "My Site", ""));
    records.push(folder("00000000-0000-0000-0000-0000000000f6", "My Site", ""));
    let err = Manifest::build("My Site".to_string(), documents(&records)).unwrap_err();
    assert_eq!(err, ManifestError::RootName { name: "My Site".to_string(), found: 3 });
}

#[test]
fn missing_home_and_logo() {
    let err = Manifest::build(ROOT.to_string(), documents(&without(site(), HOME))).unwrap_err();
    assert_eq!(err, ManifestError::MissingDocument { name: "Home".to_string() });
    let err = Manifest::build(ROOT.to_string(), documents(&without(site(), LOGO))).unwrap_err();
    assert_eq!(err, ManifestError::MissingDocument { name: "Logo".to_string() });
    // Home is looked for first.
    let neither = without(without(site(), HOME), LOGO);
    let err = Manifest::build(ROOT.to_string(), documents(&neither)).unwrap_err();
    assert_eq!(err, ManifestError::MissingDocument { name: "Home".to_string() });
}

#[test]
fn several_homes_and_logos() {
    let mut records = site();
    records.push(document("00000000-0000-0000-0000-0000000000f7", "Logo", ROOT));
    let err = Manifest::build(ROOT.to_string(), documents(&records)).unwrap_err();
    assert_eq!(err, ManifestError::MultipleDocuments { name: "Logo".to_string() });
    records.push(document("00000000-0000-0000-0000-0000000000f8", "Home", ROOT));
    let err = Manifest::build(ROOT.to_string(), documents(&records)).unwrap_err();
    assert_eq!(err, ManifestError::MultipleDocuments { name: "Home".to_string() });
}

#[test]
fn missing_posts() {
    let err = Manifest::build(ROOT.to_string(), documents(&without(site(), POSTS))).unwrap_err();
    assert_eq!(err, ManifestError::MissingPosts);
}

#[test]
fn several_posts() {
    let mut records = site();
    records.push(folder("00000000-0000-0000-0000-0000000000f9", "Posts", ROOT));
    let err = Manifest::build(ROOT.to_string(), documents(&records)).unwrap_err();
    assert_eq!(err, ManifestError::MultiplePosts);
}

#[test]
fn folders_in_a_circle() {
    // The site root lies in its own folder of posts.
    let mut records = site();
    records[0] = folder(ROOT, "My Site", POSTS);
    let err = Manifest::build(ROOT.to_string(), documents(&records)).unwrap_err();
    assert_eq!(err, ManifestError::TooDeep);
}

#[test]
fn empty_store() {
    let err = Manifest::build("My Site".to_string(), documents(&[])).unwrap_err();
    assert_eq!(err, ManifestError::RootName { name: "My Site".to_string(), found: 0 });
    let err = Manifest::build(ROOT.to_string(), documents(&[])).unwrap_err();
    assert_eq!(err, ManifestError::UnknownRoot { id: id(ROOT) });
}

#[test]
fn empty_posts() {
    let records: Vec<String> = site().into_iter().take(4).collect();
    let manifest = Manifest::build("My Site".to_string(), documents(&records)).unwrap();
    assert_eq!(manifest.posts, Posts { documents: vec![], folders: vec![] });
    assert_eq!(manifest.doc_ids(), vec![id(HOME), id(LOGO)]);
}

#[test]
fn root_from_a_parsed_identifier() {
    let docs = documents(&site());
    // With an identifier the name plays no part.
    assert_eq!(resolve_root(Some(id(ROOT)), "anything", &docs), Ok(id(ROOT)));
    assert_eq!(
        resolve_root(Some(id(SOUP)), "My Site", &docs),
        Err(ManifestError::RootNotFolder { doc_type: "DocumentType".to_string() })
    );
    assert_eq!(resolve_root(Some(7), "My Site", &docs), Err(ManifestError::UnknownRoot { id: 7 }));
    // Without one the text is a name, also where it looks like an identifier.
    assert_eq!(resolve_root(None, "My Site", &docs), Ok(id(ROOT)));
    assert_eq!(
        resolve_root(None, ROOT, &docs),
        Err(ManifestError::RootName { name: ROOT.to_string(), found: 0 })
    );
}

#[test]
fn root_name_that_reads_as_no_identifier() {
    // One character short of an identifier: a name, and no folder has it.
    let short = &ROOT[1..];
    let err = Manifest::build(short.to_string(), documents(&site())).unwrap_err();
    assert_eq!(err, ManifestError::RootName { name: short.to_string(), found: 0 });
    // A folder may be named like that.
    let mut records = site();
    records[0] = folder(ROOT, short, "");
    let manifest = Manifest::build(short.to_string(), documents(&records)).unwrap();
    assert_eq!(manifest, expected());
}
