use marker_site::{DocumentMeta, Manifest, Posts, Timestamp};

fn doc(id: u128, name: &str, secs: i64, nanos: u32) -> DocumentMeta {
    DocumentMeta { id, name: name.to_string(), modified_at: Timestamp { secs, nanos } }
}

fn manifest(times: [(i64, u32); 4]) -> Manifest {
    Manifest {
        home: doc(1, "Home", times[0].0, times[0].1),
        logo: doc(2, "Logo", times[1].0, times[1].1),
        posts: Posts {
            documents: vec![doc(3, "Welcome", times[2].0, times[2].1)],
            folders: vec![(
                "Recipes".to_string(),
                Posts { documents: vec![doc(4, "Soup", times[3].0, times[3].1)], folders: vec![] },
            )],
        },
    }
}

fn ids(docs: &[DocumentMeta]) -> Vec<u128> {
    docs.iter().map(|d| d.id).collect()
}

#[test]
fn without_material_everything_is_downloaded() {
    let now = manifest([(10, 0); 4]);
    assert_eq!(now.to_download(None), now.docs());
}

#[test]
fn unchanged_material_is_left_alone() {
    let now = manifest([(10, 0); 4]);
    assert_eq!(now.to_download(Some(&now)), vec![]);
}

#[test]
fn newer_documents_are_downloaded() {
    let earlier = manifest([(10, 0), (10, 0), (10, 5), (10, 0)]);
    // Home is newer by a second, Logo is older, Welcome is newer by a nanosecond.
    let now = manifest([(11, 0), (9, 0), (10, 6), (10, 0)]);
    assert_eq!(ids(&now.to_download(Some(&earlier))), vec![1, 3]);
    assert_eq!(now.to_download(Some(&earlier))[1], doc(3, "Welcome", 10, 6));
}

#[test]
fn unknown_documents_are_downloaded() {
    let earlier = Manifest {
        home: doc(1, "Home", 10, 0),
        logo: doc(2, "Logo", 10, 0),
        posts: Posts { documents: vec![], folders: vec![] },
    };
    let now = manifest([(10, 0); 4]);
    assert_eq!(ids(&now.to_download(Some(&earlier))), vec![3, 4]);
}
