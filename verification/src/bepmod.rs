//! The hint-list manifest schema: one entry per mod to fetch from the mod
//! index, naming the package and how to place its archive.
//!
//! Reading these values out of a JSON document is a configuration concern
//! that lives outside this crate; here they are plain data.

use vstd::prelude::*;

verus! {

/// One mod hint: the index namespace and package name, the optional
/// archive-internal source directory, and the optional destination
/// relative to the installation root (absent meaning the root itself).
#[derive(Clone, Debug)]
pub struct BepinexMod {
    pub namespace: String,
    pub name: String,
    pub from: Option<String>,
    pub to: Option<String>,
}

} // verus!
