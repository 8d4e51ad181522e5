//! The build cache: which documents were rendered, and as of when.

use crate::ident::Timestamp;
use crate::manifest::{DocView, DocumentMeta};
use std::collections::BTreeMap;
use vstd::prelude::*;

verus! {

/// The version that a cache must carry to be used.
pub open spec fn current_version() -> Seq<char> {
    seq!['0', '.', '1', '.', '0']
}

/// The version that a cache must carry to be used, as a string.
pub fn version_tag() -> (r: String)
    ensures
        r@ == current_version(),
{
    let tag = "0.1.0";
    proof {
        reveal_strlit("0.1.0");
        assert(tag@ =~= current_version());
    }
    tag.to_owned()
}

/// For each rendered document, the modification time it was rendered at.
#[derive(Debug, PartialEq, Eq)]
pub struct RenderCache {
    pub version: String,
    pub cache: BTreeMap<u128, Timestamp>,
}

/// Whether `entries` say that `doc` was rendered exactly as it now stands:
/// there is an entry for it, and its time equals the document's.
pub open spec fn up_to_date(entries: Map<u128, Timestamp>, doc: DocView) -> bool {
    entries.contains_key(doc.id) && entries[doc.id] == doc.modified_at
}

/// `entries` after recording each of `docs` in turn; a later record of an
/// identifier replaces an earlier one.
pub open spec fn recorded(entries: Map<u128, Timestamp>, docs: Seq<DocView>) -> Map<
    u128,
    Timestamp,
>
    decreases docs.len(),
{
    if docs.len() == 0 {
        entries
    } else {
        recorded(entries, docs.drop_last()).insert(docs.last().id, docs.last().modified_at)
    }
}

impl Clone for RenderCache {
    fn clone(&self) -> (r: Self)
        ensures
            r.version@ == self.version@,
            r.cache@ == self.cache@,
    {
        RenderCache { version: self.version.clone(), cache: self.cache.clone() }
    }
}

impl Default for RenderCache {
    /// An empty cache of the current version.
    fn default() -> (r: Self)
        ensures
            r.version@ == current_version(),
            r.cache@ == Map::<u128, Timestamp>::empty(),
    {
        RenderCache { version: version_tag(), cache: BTreeMap::new() }
    }
}

impl RenderCache {
    /// The time recorded for the document `id`, if any.
    pub fn get(&self, id: u128) -> (r: Option<Timestamp>)
        ensures
            r == (if self.cache@.contains_key(id) {
                Some(self.cache@[id])
            } else {
                None
            }),
    {
        broadcast use vstd::std_specs::btree::group_btree_axioms;

        match self.cache.get(&id) {
            Some(t) => Some(*t),
            None => None,
        }
    }

    /// Whether this cache was written by the current version.
    pub fn is_current_version(&self) -> (r: bool)
        ensures
            r == (self.version@ == current_version()),
    {
        self.version == version_tag()
    }

    /// The cache to work with, given what was stored, if anything was: the
    /// stored cache where it carries the current version, an empty one
    /// otherwise. A cache of another version is dropped whole.
    pub fn load(stored: Option<RenderCache>) -> (r: RenderCache)
        ensures
            r.version@ == current_version(),
            r.cache@ == (match stored {
                Some(c) => if c.version@ == current_version() {
                    c.cache@
                } else {
                    Map::empty()
                },
                None => Map::empty(),
            }),
    {
        match stored {
            Some(c) => {
                if c.is_current_version() {
                    c
                } else {
                    RenderCache::default()
                }
            },
            None => RenderCache::default(),
        }
    }

    /// Whether `doc` was rendered exactly as it now stands. A recorded time
    /// that differs from the document's, earlier or later, says no.
    pub fn is_up_to_date(&self, doc: &DocumentMeta) -> (r: bool)
        ensures
            r == up_to_date(self.cache@, doc@),
    {
        match self.get(doc.id) {
            Some(t) => t == doc.modified_at,
            None => false,
        }
    }

    /// Records each of `docs` as rendered at its current modification time.
    pub fn record(&mut self, docs: &Vec<DocumentMeta>)
        ensures
            final(self).version == old(self).version,
            final(self).cache@ == recorded(old(self).cache@, crate::manifest::doc_views(docs@)),
    {
        broadcast use vstd::std_specs::btree::group_btree_axioms;

        let ghost views = crate::manifest::doc_views(docs@);
        let mut i: usize = 0;
        assert(views.take(0) =~= Seq::<DocView>::empty());
        while i < docs.len()
            invariant
                i <= docs.len(),
                views == crate::manifest::doc_views(docs@),
                self.version == old(self).version,
                self.cache@ == recorded(old(self).cache@, views.take(i as int)),
            decreases docs.len() - i,
        {
            self.cache.insert(docs[i].id, docs[i].modified_at);
            assert(views.take(i + 1).drop_last() =~= views.take(i as int));
            assert(views.take(i + 1).last() == docs[i as int]@);
            i = i + 1;
        }
        assert(views.take(docs.len() as int) =~= views);
    }
}

} // verus!
