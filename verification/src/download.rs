//! Deciding which archives to download again.

use crate::cache::recorded;
use crate::ident::Timestamp;
use crate::manifest::{doc_views, DocView, DocumentMeta, Manifest, ManifestView};
use std::collections::BTreeMap;
use vstd::prelude::*;

verus! {

/// Whether the archive of `doc` is to be downloaded, where `known` holds the
/// modification times of the archives at hand: there is none for it, or the
/// one at hand is older than the document.
pub open spec fn is_outdated(known: Map<u128, Timestamp>, doc: DocView) -> bool {
    !(known.contains_key(doc.id) && known[doc.id].at_or_after(doc.modified_at))
}

/// Those of `docs` whose archives are to be downloaded, in order.
pub open spec fn outdated(known: Map<u128, Timestamp>, docs: Seq<DocView>) -> Seq<DocView>
    decreases docs.len(),
{
    if docs.len() == 0 {
        Seq::empty()
    } else if is_outdated(known, docs.last()) {
        outdated(known, docs.drop_last()).push(docs.last())
    } else {
        outdated(known, docs.drop_last())
    }
}

/// The modification times that a manifest records, by identifier.
pub open spec fn times_of(manifest: Option<ManifestView>) -> Map<u128, Timestamp> {
    match manifest {
        Some(m) => recorded(Map::empty(), m.docs()),
        None => Map::empty(),
    }
}

/// The view of an optional manifest.
pub open spec fn manifest_view(manifest: Option<&Manifest>) -> Option<ManifestView> {
    match manifest {
        Some(m) => Some(m@),
        None => None,
    }
}

impl Manifest {
    /// The documents whose archives are to be downloaded, given the manifest
    /// of the material at hand, if there is any: every document that the
    /// earlier manifest does not hold, or holds with an earlier modification
    /// time. A document that the earlier manifest holds as new as it now is,
    /// or newer, is left alone.
    pub fn to_download(&self, earlier: Option<&Manifest>) -> (r: Vec<DocumentMeta>)
        ensures
            doc_views(r@) == outdated(times_of(manifest_view(earlier)), self@.docs()),
    {
        broadcast use vstd::std_specs::btree::group_btree_axioms;

        let mut known: BTreeMap<u128, Timestamp> = BTreeMap::new();
        match earlier {
            Some(m) => {
                let held = m.docs();
                let ghost hv = doc_views(held@);
                let mut i: usize = 0;
                assert(hv.take(0) =~= Seq::<DocView>::empty());
                while i < held.len()
                    invariant
                        i <= held.len(),
                        hv == doc_views(held@),
                        known@ == recorded(Map::empty(), hv.take(i as int)),
                    decreases held.len() - i,
                {
                    known.insert(held[i].id, held[i].modified_at);
                    assert(hv.take(i + 1).drop_last() =~= hv.take(i as int));
                    assert(hv.take(i + 1).last() == held[i as int]@);
                    i = i + 1;
                }
                assert(hv.take(held.len() as int) =~= hv);
            },
            None => {},
        }
        let ghost times = times_of(manifest_view(earlier));
        assert(known@ == times);
        let docs = self.docs();
        let ghost dv = doc_views(docs@);
        let mut out: Vec<DocumentMeta> = Vec::new();
        let mut k: usize = 0;
        assert(dv.take(0) =~= Seq::<DocView>::empty());
        assert(doc_views(out@) =~= outdated(times, dv.take(0)));
        while k < docs.len()
            invariant
                k <= docs.len(),
                dv == doc_views(docs@),
                known@ == times,
                doc_views(out@) == outdated(times, dv.take(k as int)),
            decreases docs.len() - k,
        {
            let doc = &docs[k];
            assert(dv.take(k + 1).drop_last() =~= dv.take(k as int));
            assert(dv.take(k + 1).last() == doc@);
            let at_hand = match known.get(&doc.id) {
                Some(t) => t.not_before(&doc.modified_at),
                None => false,
            };
            if !at_hand {
                let ghost before = doc_views(out@);
                out.push(doc.clone());
                assert(doc_views(out@) =~= before.push(doc@));
            }
            k = k + 1;
        }
        assert(dv.take(docs.len() as int) =~= dv);
        out
    }
}

} // verus!
