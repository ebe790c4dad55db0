//! The pure side of the mod-index fetch: which hint entries are usable,
//! and the query URL for one package.
//!
//! Performing the queries, and reading the JSON they return, is the
//! surrounding process's work; a failed or unusable entry is skipped
//! there without aborting the batch.

use vstd::prelude::*;

use crate::bepmod::BepinexMod;
use crate::text::{append_all, chars_of, trim, trim_spec};

verus! {

/// Whether a hint entry can be queried: its namespace and name must be
/// non-blank once trimmed.
pub open spec fn hint_usable(h: BepinexMod) -> bool {
    trim_spec(h.namespace@).len() > 0 && trim_spec(h.name@).len() > 0
}

/// The indices of the usable hint entries, in list order.
pub open spec fn usable_indices(hs: Seq<BepinexMod>) -> Seq<int>
    decreases hs.len(),
{
    if hs.len() == 0 {
        Seq::empty()
    } else {
        usable_indices(hs.drop_last()) + if hint_usable(hs.last()) {
            seq![hs.len() - 1]
        } else {
            Seq::empty()
        }
    }
}

/// Picks the usable hint entries: blank names or namespaces are skipped
/// silently, and skipping never aborts the batch.
pub fn usable_hints(hints: &Vec<BepinexMod>) -> (r: Vec<usize>)
    ensures
        r@.map_values(|u: usize| u as int) == usable_indices(hints@),
{
    let n = hints.len();
    let mut out: Vec<usize> = Vec::new();
    proof {
        assert(hints@.take(0) =~= Seq::<BepinexMod>::empty());
        assert(out@.map_values(|u: usize| u as int) =~= usable_indices(hints@.take(0)));
    }
    let mut i: usize = 0;
    while i < n
        invariant
            i <= n == hints@.len(),
            out@.map_values(|u: usize| u as int) == usable_indices(hints@.take(i as int)),
        decreases n - i,
    {
        let ghost prev = out@.map_values(|u: usize| u as int);
        let ns = trim(&hints[i].namespace_chars());
        let nm = trim(&hints[i].name_chars());
        if ns.len() > 0 && nm.len() > 0 {
            out.push(i);
            proof {
                assert(out@.map_values(|u: usize| u as int) =~= prev.push(i as int));
            }
        }
        proof {
            assert(hints@.take(i + 1).drop_last() =~= hints@.take(i as int));
            assert(hints@.take(i + 1).last() == hints@[i as int]);
            assert(out@.map_values(|u: usize| u as int) =~= usable_indices(hints@.take(i + 1)));
        }
        i = i + 1;
    }
    proof {
        assert(hints@.take(n as int) =~= hints@);
    }
    out
}

impl BepinexMod {
    /// The namespace, as characters.
    pub fn namespace_chars(&self) -> (r: Vec<char>)
        ensures
            r@ == self.namespace@,
    {
        chars_of(self.namespace.as_str())
    }

    /// The name, as characters.
    pub fn name_chars(&self) -> (r: Vec<char>)
        ensures
            r@ == self.name@,
    {
        chars_of(self.name.as_str())
    }
}

/// The mod-index query URL for one package, from its trimmed namespace
/// and name.
pub fn package_api_url(namespace: &Vec<char>, name: &Vec<char>) -> (r: Vec<char>)
    ensures
        r@ == "https://thunderstore.io/api/experimental/package/"@ + trim_spec(namespace@)
            + "/"@ + trim_spec(name@) + "/"@,
{
    let mut r = chars_of("https://thunderstore.io/api/experimental/package/");
    let ns = trim(namespace);
    append_all(&mut r, &ns);
    let sep = chars_of("/");
    append_all(&mut r, &sep);
    let nm = trim(name);
    append_all(&mut r, &nm);
    append_all(&mut r, &sep);
    proof {
        assert(r@ =~= "https://thunderstore.io/api/experimental/package/"@ + trim_spec(
            namespace@,
        ) + "/"@ + trim_spec(name@) + "/"@);
    }
    r
}

} // verus!
