//! The order of one installation batch.
//!
//! Of the selected mods, the loader package is installed first and every
//! other selected mod follows in list order; when no selected entry names
//! the loader, the batch installs nothing.

use vstd::prelude::*;

use crate::text::{chars_of, eq_chars, str_views};

verus! {

/// The mod-index name of the loader package.
pub open spec fn loader_name() -> Seq<char> {
    "BepInExPack"@
}

/// The first selected entry that names the loader, if any.
pub open spec fn loader_pick(names: Seq<Seq<char>>, enabled: Seq<bool>) -> Option<int>
    decreases names.len(),
{
    if names.len() == 0 {
        None
    } else if enabled[0] && names[0] == loader_name() {
        Some(0)
    } else {
        match loader_pick(names.drop_first(), enabled.drop_first()) {
            Some(i) => Some(i + 1),
            None => None,
        }
    }
}

/// `loader_pick` returns the first selected loader entry: the hit is
/// selected and names the loader, and no earlier entry does; `None` means
/// no selected entry names the loader.
pub proof fn lemma_loader_pick(names: Seq<Seq<char>>, enabled: Seq<bool>)
    requires
        names.len() == enabled.len(),
    ensures
        match loader_pick(names, enabled) {
            Some(i) => 0 <= i < names.len() && enabled[i] && names[i] == loader_name() && forall|
                j: int,
            | 0 <= j < i ==> !(enabled[j] && names[j] == loader_name()),
            None => forall|j: int|
                0 <= j < names.len() ==> !(enabled[j] && names[j] == loader_name()),
        },
    decreases names.len(),
{
    if names.len() > 0 && !(enabled[0] && names[0] == loader_name()) {
        let tn = names.drop_first();
        let te = enabled.drop_first();
        lemma_loader_pick(tn, te);
        match loader_pick(tn, te) {
            Some(i) => {
                assert(names[i + 1] == tn[i] && enabled[i + 1] == te[i]);
                assert forall|j: int| 0 <= j < i + 1 implies !(enabled[j] && names[j]
                    == loader_name()) by {
                    if j > 0 {
                        assert(tn[j - 1] == names[j] && te[j - 1] == enabled[j]);
                    }
                }
            },
            None => {
                assert forall|j: int| 0 <= j < names.len() implies !(enabled[j] && names[j]
                    == loader_name()) by {
                    if j > 0 {
                        assert(tn[j - 1] == names[j] && te[j - 1] == enabled[j]);
                    }
                }
            },
        }
    }
}

/// The indices of the selected entries that do not name the loader, in
/// order.
pub open spec fn follower_indices(names: Seq<Seq<char>>, enabled: Seq<bool>) -> Seq<int>
    decreases names.len(),
{
    if names.len() == 0 {
        Seq::empty()
    } else {
        follower_indices(names.drop_last(), enabled.drop_last()) + if enabled[names.len() - 1]
            && names[names.len() - 1] != loader_name() {
            seq![names.len() - 1]
        } else {
            Seq::empty()
        }
    }
}

/// First selected entry naming the loader, scanning in list order.
fn find_loader(names: &Vec<String>, enabled: &Vec<bool>, loader: &Vec<char>) -> (r: Option<usize>)
    requires
        names@.len() == enabled@.len(),
        loader@ == loader_name(),
    ensures
        match r {
            Some(i) => i < names@.len() && enabled@[i as int] && str_views(names@)[i as int]
                == loader_name() && forall|j: int|
                0 <= j < i ==> !(enabled@[j] && str_views(names@)[j] == loader_name()),
            None => forall|j: int|
                0 <= j < names@.len() ==> !(enabled@[j] && str_views(names@)[j] == loader_name()),
        },
{
    let n = names.len();
    let mut i: usize = 0;
    while i < n
        invariant
            i <= n == names@.len() == enabled@.len(),
            loader@ == loader_name(),
            forall|j: int| 0 <= j < i ==> !(enabled@[j] && str_views(names@)[j] == loader_name()),
        decreases n - i,
    {
        let name_cs = chars_of(names[i].as_str());
        if enabled[i] && eq_chars(&name_cs, loader) {
            return Some(i);
        }
        i = i + 1;
    }
    None
}

/// The order in which a selection is installed: the first selected loader
/// entry, then every other selected mod in list order; every selected
/// entry that names the loader is installed only through that first pick.
/// `None` when no selected entry names the loader — the batch then
/// installs nothing.
pub fn install_order(names: &Vec<String>, enabled: &Vec<bool>) -> (r: Option<Vec<usize>>)
    requires
        names@.len() == enabled@.len(),
    ensures
        match r {
            Some(v) => loader_pick(str_views(names@), enabled@) matches Some(i0) && v@.map_values(
                |u: usize| u as int,
            ) == seq![i0] + follower_indices(str_views(names@), enabled@),
            None => loader_pick(str_views(names@), enabled@) is None,
        },
{
    let ghost sv = str_views(names@);
    let ghost en = enabled@;
    let loader = chars_of("BepInExPack");
    let n = names.len();
    let li: usize = match find_loader(names, enabled, &loader) {
        Some(i) => i,
        None => {
            proof {
                lemma_loader_pick(sv, en);
                match loader_pick(sv, en) {
                    Some(i0) => {
                        assert(!(en[i0] && sv[i0] == loader_name()));
                    },
                    None => {},
                }
            }
            return None;
        },
    };
    proof {
        lemma_loader_pick(sv, en);
        match loader_pick(sv, en) {
            Some(i0) => {
                if i0 < li {
                    assert(!(en[i0] && sv[i0] == loader_name()));
                } else if li < i0 {
                    assert(en[li as int] && sv[li as int] == loader_name());
                }
            },
            None => {
                assert(en[li as int] && sv[li as int] == loader_name());
            },
        }
        assert(loader_pick(sv, en) == Some(li as int));
    }
    let mut out: Vec<usize> = Vec::new();
    out.push(li);
    proof {
        assert(sv.take(0) =~= Seq::<Seq<char>>::empty());
        assert(en.take(0) =~= Seq::<bool>::empty());
        assert(out@.map_values(|u: usize| u as int) =~= seq![li as int] + follower_indices(
            sv.take(0),
            en.take(0),
        ));
    }
    let mut k: usize = 0;
    while k < n
        invariant
            k <= n == names@.len() == enabled@.len(),
            sv == str_views(names@),
            en == enabled@,
            loader@ == loader_name(),
            out@.map_values(|u: usize| u as int) == seq![li as int] + follower_indices(
                sv.take(k as int),
                en.take(k as int),
            ),
        decreases n - k,
    {
        let ghost prev = out@.map_values(|u: usize| u as int);
        let name_cs = chars_of(names[k].as_str());
        if enabled[k] && !eq_chars(&name_cs, &loader) {
            out.push(k);
            proof {
                assert(out@.map_values(|u: usize| u as int) =~= prev.push(k as int));
            }
        }
        proof {
            assert(sv.take(k + 1).drop_last() =~= sv.take(k as int));
            assert(en.take(k + 1).drop_last() =~= en.take(k as int));
            assert(sv.take(k + 1).last() == sv[k as int]);
            assert(out@.map_values(|u: usize| u as int) =~= seq![li as int] + follower_indices(
                sv.take(k + 1),
                en.take(k + 1),
            ));
        }
        k = k + 1;
    }
    proof {
        assert(sv.take(n as int) =~= sv);
        assert(en.take(n as int) =~= en);
    }
    Some(out)
}

} // verus!
