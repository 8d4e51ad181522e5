//! The configuration of a site.

use vstd::prelude::*;

verus! {

/// What a site is generated from: where its material lives in the document
/// store, what it is called, and which theme dresses it.
#[derive(Debug, PartialEq, Eq)]
pub struct Config {
    /// The identifier, or the unique name, of the folder the site is read from.
    pub site_root: String,
    /// The title shown on every page.
    pub title: String,
    /// The name of the theme.
    pub theme: String,
}

} // verus!
