//! The state of one generation run.

use crate::cache::RenderCache;
use crate::config::Config;
use crate::manifest::Manifest;
use std::collections::BTreeMap;
use vstd::prelude::*;

verus! {

/// Everything a run works from: where links start, the site's configuration
/// and manifest, the pages rendered so far, the nonce of this build, and the
/// build cache.
#[derive(Debug)]
pub struct Generator {
    /// What every link of the site begins with.
    pub prefix: String,
    pub config: Config,
    pub manifest: Manifest,
    /// The links to the page images of each rendered document, in page order.
    pub svgs: BTreeMap<u128, Vec<String>>,
    /// A text that differs from build to build, the same on every page of one.
    pub build_nonce: String,
    pub render_cache: RenderCache,
}

impl Generator {
    /// A run that has rendered nothing yet. With `no_cache` the stored cache
    /// is set aside and every document counts as never rendered.
    pub fn prepare(
        config: Config,
        manifest: Manifest,
        prefix: String,
        build_nonce: String,
        stored_cache: Option<RenderCache>,
        no_cache: bool,
    ) -> (r: Generator)
        ensures
            r.prefix == prefix,
            r.config == config,
            r.manifest == manifest,
            r.build_nonce == build_nonce,
            r.svgs@ == Map::<u128, Vec<String>>::empty(),
            r.render_cache.version@ == crate::cache::current_version(),
            r.render_cache.cache@ == (if no_cache {
                Map::empty()
            } else {
                match stored_cache {
                    Some(c) => if c.version@ == crate::cache::current_version() {
                        c.cache@
                    } else {
                        Map::empty()
                    },
                    None => Map::empty(),
                }
            }),
    {
        let render_cache = if no_cache {
            RenderCache::default()
        } else {
            RenderCache::load(stored_cache)
        };
        Generator { prefix, config, manifest, svgs: BTreeMap::new(), build_nonce, render_cache }
    }

    /// The title of the site.
    pub fn title(&self) -> (r: &str)
        ensures
            r@ == self.config.title@,
    {
        self.config.title.as_str()
    }
}

} // verus!
