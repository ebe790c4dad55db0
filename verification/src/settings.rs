//! The legacy manifest schema: which archives to install and how to map
//! their contents into the game directory.
//!
//! Reading these values out of a JSON document is a configuration concern
//! that lives outside this crate; here they are plain data.

use vstd::prelude::*;

verus! {

/// One mod of the legacy manifest: the archive's URL and its mapping
/// pairs, each a source path within the archive (`"*"` for the archive
/// root) and a destination relative to the installation root.
pub struct BepinexMod {
    pub url: String,
    pub mapping: Vec<Vec<String>>,
}

impl BepinexMod {
    /// Builds an entry from its parts.
    pub fn new(url: String, mapping: Vec<Vec<String>>) -> (r: Self)
        ensures
            r.url == url,
            r.mapping == mapping,
    {
        Self { url, mapping }
    }
}

/// The loader package of the legacy manifest: the archive's URL and its
/// destination paths.
pub struct Bepinex {
    pub url: String,
    pub mapping: Vec<String>,
}

impl Bepinex {
    /// Builds the loader entry from its parts.
    pub fn new(url: String, mapping: Vec<String>) -> (r: Self)
        ensures
            r.url == url,
            r.mapping == mapping,
    {
        Self { url, mapping }
    }
}

/// A whole legacy manifest: the loader package and the mods to install
/// after it, in order.
pub struct Settings {
    pub bepinex: Bepinex,
    pub mods: Vec<BepinexMod>,
}

impl Settings {
    /// Builds a manifest from its parts.
    pub fn new(bepinex: Bepinex, mods: Vec<BepinexMod>) -> (r: Self)
        ensures
            r.bepinex == bepinex,
            r.mods == mods,
    {
        Self { bepinex, mods }
    }
}

} // verus!
