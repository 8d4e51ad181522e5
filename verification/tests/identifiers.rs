use marker_site::{Config, DocumentMeta, Generator, Manifest, Posts, Timestamp};

fn doc(id: u128, name: &str, secs: i64) -> DocumentMeta {
    DocumentMeta { id, name: name.to_string(), modified_at: Timestamp { secs, nanos: 0 } }
}

fn generator() -> Generator {
    let manifest = Manifest {
        home: doc(1, "Home", 1),
        logo: doc(2, "Logo", 1),
        posts: Posts { documents: vec![], folders: vec![] },
    };
    let config = Config {
        site_root: "root".to_string(),
        title: "Title".to_string(),
        theme: "marker".to_string(),
    };
    Generator::prepare(config, manifest, "/".to_string(), "n".to_string(), None, false)
}

#[test]
fn identifier_text_is_hyphenated_lower_case() {
    let gen = generator();
    let id: u128 = 0x936DA01F9ABD4D9D80C702AF85C822A8;
    let task = gen.render_doc_meta(&doc(id, "x", 0), false);
    assert_eq!(task.directory, "svg/936da01f-9abd-4d9d-80c7-02af85c822a8");
    assert_eq!(task.archive, "zip/936da01f-9abd-4d9d-80c7-02af85c822a8.zip");
}

#[test]
fn identifier_text_keeps_leading_zeros() {
    let gen = generator();
    let task = gen.render_doc_meta(&doc(0, "x", 0), false);
    assert_eq!(task.directory, "svg/00000000-0000-0000-0000-000000000000");
    let task = gen.render_doc_meta(&doc(0xabc, "x", 0), false);
    assert_eq!(task.directory, "svg/00000000-0000-0000-0000-000000000abc");
    let task = gen.render_doc_meta(&doc(u128::MAX, "x", 0), false);
    assert_eq!(task.directory, "svg/ffffffff-ffff-ffff-ffff-ffffffffffff");
}

#[test]
fn identifier_text_as_the_uuid_writes_it() {
    let gen = generator();
    for id in [1u128, 0x0123456789abcdef0123456789abcdef, 1 << 127, 0xdeadbeef << 64] {
        let task = gen.render_doc_meta(&doc(id, "x", 0), false);
        assert_eq!(task.directory, format!("svg/{}", uuid::Uuid::from_u128(id)));
    }
}

#[test]
fn timestamps_compare_by_both_fields() {
    let a = Timestamp { secs: 10, nanos: 5 };
    let b = Timestamp { secs: 10, nanos: 6 };
    let c = Timestamp { secs: 11, nanos: 0 };
    assert!(a.not_before(&a));
    assert!(b.not_before(&a));
    assert!(!a.not_before(&b));
    assert!(c.not_before(&b));
    assert!(!b.not_before(&c));
    assert_eq!(a, Timestamp { secs: 10, nanos: 5 });
    assert_ne!(a, b);
}
