//! The uninstaller: removal of the fixed set of loader artifacts.
//!
//! Uninstalling deletes, relative to the installation root, two loader
//! directories with everything under them and six loader files — a fixed
//! allowlist, kept by hand in step with what the loader package places.
//! Anything a mod put outside that allowlist stays.

use vstd::prelude::*;

use crate::fsmodel::{as_map, file_views, paths_unique, FsFile, FsModel};
use crate::text::{chars_of, copy_vec, eq_chars, has_prefix, seq_views, starts_with};

verus! {

/// The loader's files deleted on uninstall.
pub open spec fn loader_files() -> Seq<Seq<char>> {
    seq![
        "changelog.txt"@,
        "doorstop_config.ini"@,
        ".doorstop_version"@,
        "start_game_bepinex.sh"@,
        "start_server_bepinex.sh"@,
        "winhttp.dll"@,
    ]
}

/// The loader's directories deleted, with everything under them, on
/// uninstall.
pub open spec fn loader_dirs() -> Seq<Seq<char>> {
    seq!["BepInEx"@, "doorstop_libs"@]
}

/// Whether a path is removed by the uninstaller: one of the loader's files,
/// or anything under one of the loader's directories.
pub open spec fn is_loader_artifact(p: Seq<char>) -> bool {
    loader_files().contains(p) || exists|i: int|
        0 <= i < loader_dirs().len() && has_prefix(p, #[trigger] loader_dirs()[i] + seq!['/'])
}

/// The loader's files, as path vectors.
pub fn loader_file_names() -> (r: Vec<Vec<char>>)
    ensures
        seq_views(r@) == loader_files(),
{
    let mut r: Vec<Vec<char>> = Vec::new();
    r.push(chars_of("changelog.txt"));
    r.push(chars_of("doorstop_config.ini"));
    r.push(chars_of(".doorstop_version"));
    r.push(chars_of("start_game_bepinex.sh"));
    r.push(chars_of("start_server_bepinex.sh"));
    r.push(chars_of("winhttp.dll"));
    proof {
        assert(seq_views(r@) =~= loader_files());
    }
    r
}

/// The loader's directories, as path vectors.
pub fn loader_dir_names() -> (r: Vec<Vec<char>>)
    ensures
        seq_views(r@) == loader_dirs(),
{
    let mut r: Vec<Vec<char>> = Vec::new();
    r.push(chars_of("BepInEx"));
    r.push(chars_of("doorstop_libs"));
    proof {
        assert(seq_views(r@) =~= loader_dirs());
    }
    r
}

/// Whether the path is removed by the uninstaller.
pub fn is_loader_artifact_path(p: &Vec<char>) -> (r: bool)
    ensures
        r == is_loader_artifact(p@),
{
    let files = loader_file_names();
    let nf = files.len();
    let mut i: usize = 0;
    while i < nf
        invariant
            i <= nf == loader_files().len(),
            seq_views(files@) == loader_files(),
            forall|j: int| 0 <= j < i ==> loader_files()[j] != p@,
        decreases nf - i,
    {
        if eq_chars(&files[i], p) {
            proof {
                assert(loader_files()[i as int] == p@);
            }
            return true;
        }
        i = i + 1;
    }
    let dirs = loader_dir_names();
    let nd = dirs.len();
    let mut k: usize = 0;
    while k < nd
        invariant
            k <= nd == loader_dirs().len(),
            seq_views(dirs@) == loader_dirs(),
            forall|j: int| 0 <= j < k ==> !has_prefix(p@, #[trigger] loader_dirs()[j] + seq!['/']),
            forall|j: int| 0 <= j < loader_files().len() ==> loader_files()[j] != p@,
        decreases nd - k,
    {
        let mut pref = copy_vec(&dirs[k]);
        pref.push('/');
        proof {
            assert(pref@ =~= loader_dirs()[k as int] + seq!['/']);
        }
        if starts_with(p, &pref) {
            return true;
        }
        k = k + 1;
    }
    proof {
        assert(!loader_files().contains(p@));
    }
    false
}

/// The map after uninstalling: exactly the paths that are not loader
/// artifacts remain, with their contents unchanged.
pub open spec fn remove_artifacts(m: Map<Seq<char>, Seq<u8>>) -> Map<Seq<char>, Seq<u8>> {
    Map::new(|p: Seq<char>| m.dom().contains(p) && !is_loader_artifact(p), |p: Seq<char>| m[p])
}

/// The entries whose paths are not loader artifacts, in order.
pub open spec fn kept_views(vs: Seq<(Seq<char>, Seq<u8>)>) -> Seq<(Seq<char>, Seq<u8>)>
    decreases vs.len(),
{
    if vs.len() == 0 {
        Seq::empty()
    } else {
        kept_views(vs.drop_last()) + if is_loader_artifact(vs.last().0) {
            Seq::empty()
        } else {
            seq![vs.last()]
        }
    }
}

/// Every kept entry is one of the original entries.
proof fn lemma_kept_views_from(vs: Seq<(Seq<char>, Seq<u8>)>)
    ensures
        forall|k: int|
            #![trigger kept_views(vs)[k]]
            0 <= k < kept_views(vs).len() ==> exists|j: int|
                0 <= j < vs.len() && kept_views(vs)[k] == #[trigger] vs[j],
    decreases vs.len(),
{
    if vs.len() > 0 {
        let t = vs.drop_last();
        lemma_kept_views_from(t);
        assert forall|k: int| #![trigger kept_views(vs)[k]]
            0 <= k < kept_views(vs).len() implies exists|j: int|
            0 <= j < vs.len() && kept_views(vs)[k] == #[trigger] vs[j] by {
            if k < kept_views(t).len() {
                let j = choose|j: int| 0 <= j < t.len() && kept_views(t)[k] == #[trigger] t[j];
                assert(kept_views(vs)[k] == vs[j]);
            } else {
                assert(kept_views(vs)[k] == vs[vs.len() - 1]);
            }
        }
    }
}

/// Keeping the non-artifact entries keeps paths distinct and denotes
/// exactly the uninstalled map.
proof fn lemma_kept_views_map(vs: Seq<(Seq<char>, Seq<u8>)>)
    requires
        paths_unique(vs),
    ensures
        paths_unique(kept_views(vs)),
        as_map(kept_views(vs)) == remove_artifacts(as_map(vs)),
    decreases vs.len(),
{
    if vs.len() == 0 {
        assert(as_map(kept_views(vs)) =~= remove_artifacts(as_map(vs)));
    } else {
        let t = vs.drop_last();
        let last = vs.last();
        lemma_kept_views_map(t);
        lemma_kept_views_from(t);
        crate::fsmodel::lemma_as_map_dom(t);
        if is_loader_artifact(last.0) {
            assert(kept_views(vs) =~= kept_views(t));
            assert(as_map(vs) == as_map(t).insert(last.0, last.1));
            assert(as_map(kept_views(vs)) =~= remove_artifacts(as_map(vs)));
        } else {
            let ks = kept_views(vs);
            assert(ks =~= kept_views(t) + seq![last]);
            assert(ks.drop_last() =~= kept_views(t));
            assert(ks.last() == last);
            assert(as_map(ks) == as_map(kept_views(t)).insert(last.0, last.1));
            assert forall|k: int| 0 <= k < kept_views(t).len() implies kept_views(t)[k].0
                != last.0 by {
                let j = choose|j: int| 0 <= j < t.len() && kept_views(t)[k] == #[trigger] t[j];
                assert(vs[j] == t[j]);
                assert(vs[j].0 != vs[vs.len() - 1].0);
            }
            assert(paths_unique(ks));
            assert(as_map(kept_views(vs)) =~= remove_artifacts(as_map(vs)));
        }
    }
}

impl FsModel {
    /// Uninstalls: removes every loader artifact from the tree and nothing
    /// else. Every deletion is existence-guarded by construction: a path
    /// that is absent simply stays absent, so a missing artifact is never
    /// an error.
    pub fn uninstall(&mut self)
        requires
            old(self).wf(),
        ensures
            final(self).wf(),
            final(self)@ == remove_artifacts(old(self)@),
    {
        let ghost vs = file_views(self.files@);
        let n = self.files.len();
        let mut kept: Vec<FsFile> = Vec::new();
        let mut i: usize = 0;
        while i < n
            invariant
                i <= n == self.files@.len(),
                *self == *old(self),
                vs == file_views(self.files@),
                file_views(kept@) == kept_views(vs.take(i as int)),
            decreases n - i,
        {
            let ghost prev = file_views(kept@);
            let f = &self.files[i];
            let is_artifact = is_loader_artifact_path(&f.path);
            if !is_artifact {
                let path = copy_vec(&f.path);
                let data = copy_vec(&f.data);
                let copied = FsFile { path, data };
                proof {
                    assert(copied.path@ == vs[i as int].0 && copied.data@ == vs[i as int].1);
                }
                kept.push(copied);
                proof {
                    assert(file_views(kept@) =~= prev.push(vs[i as int]));
                }
            }
            proof {
                assert(vs.take(i + 1).drop_last() =~= vs.take(i as int));
                assert(vs.take(i + 1).last() == vs[i as int]);
                assert(file_views(kept@) =~= kept_views(vs.take(i + 1)));
            }
            i = i + 1;
        }
        proof {
            assert(vs.take(n as int) =~= vs);
            lemma_kept_views_map(vs);
        }
        self.files = kept;
    }
}

/// Idempotence of uninstalling: a second uninstall changes nothing, since
/// the first leaves no loader artifact behind and every deletion is
/// guarded by presence.
pub proof fn lemma_uninstall_idempotent(m: Map<Seq<char>, Seq<u8>>)
    ensures
        remove_artifacts(remove_artifacts(m)) == remove_artifacts(m),
{
    assert(remove_artifacts(remove_artifacts(m)) =~= remove_artifacts(m));
}

/// Round trip of installing and uninstalling: after a sequence of writes
/// followed by an uninstall, exactly the loader artifacts are gone; every
/// path outside the allowlist — whether just placed or there before —
/// remains, and a remaining file that no write touched keeps its contents.
/// Files a mod placed outside the allowlist are expressly not removed.
pub proof fn lemma_install_uninstall_round_trip(
    m: Map<Seq<char>, Seq<u8>>,
    ps: Seq<(Seq<char>, Seq<u8>)>,
)
    ensures
        forall|p: Seq<char>| #[trigger]
            remove_artifacts(crate::fsmodel::apply_writes(m, ps)).dom().contains(p) <==> ((
            m.dom().contains(p) || crate::fsmodel::writes_path(ps, p)) && !is_loader_artifact(p)),
        forall|p: Seq<char>|
            m.dom().contains(p) && !crate::fsmodel::writes_path(ps, p) && !is_loader_artifact(p)
                ==> #[trigger] remove_artifacts(crate::fsmodel::apply_writes(m, ps))[p] == m[p],
{
    crate::fsmodel::lemma_apply_writes_dom(m, ps);
}

} // verus!
