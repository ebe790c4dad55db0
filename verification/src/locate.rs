//! Discovery of the Steam installation and of the game's directory.
//!
//! The functions here build the candidate paths to probe and make every
//! selection decision; whether a path exists on disk is reported by the
//! caller through a vector of flags, one per candidate, since this crate
//! never touches the filesystem itself.

use vstd::prelude::*;

use crate::text::{
    append_all, chars_of, eq_chars, join_path, join_spec, last_segment, seq_views,
    split_last_segment,
};
use crate::vdf::{library_paths, line_path};

verus! {

/// Whether the directory's own name is the Steam library marker.
pub fn is_steamapps_dir(p: &Vec<char>) -> (r: bool)
    ensures
        r == (last_segment(p@) == "steamapps"@),
{
    let marker = chars_of("steamapps");
    let (_, base) = split_last_segment(p);
    eq_chars(&base, &marker)
}

/// The first directory of a walk, in walk order, whose own name is
/// `steamapps`. The walk itself — bounded to a small depth, and
/// best-effort — is the caller's; this picks the hit.
pub fn first_steamapps_dir(dirs: &Vec<Vec<char>>) -> (r: Option<usize>)
    ensures
        match r {
            Some(i) => i < dirs@.len() && last_segment(dirs@[i as int]@) == "steamapps"@
                && forall|j: int|
                0 <= j < i ==> last_segment(#[trigger] dirs@[j]@) != "steamapps"@,
            None => forall|j: int|
                0 <= j < dirs@.len() ==> last_segment(#[trigger] dirs@[j]@) != "steamapps"@,
        },
{
    let n = dirs.len();
    let mut i: usize = 0;
    while i < n
        invariant
            i <= n == dirs@.len(),
            forall|j: int| 0 <= j < i ==> last_segment(#[trigger] dirs@[j]@) != "steamapps"@,
        decreases n - i,
    {
        if is_steamapps_dir(&dirs[i]) {
            return Some(i);
        }
        i = i + 1;
    }
    None
}

/// The drive letters probed when Steam is not in a well-known place.
pub open spec fn drive_letters() -> Seq<char> {
    "CDEFGHIJKLMNOPQRSTUVWXYZ"@
}

/// The two locations probed on one drive.
pub open spec fn drive_pair(l: char) -> Seq<Seq<char>> {
    seq![seq![l] + ":\\Steam"@, seq![l] + ":\\Program Files (x86)\\Steam"@]
}

/// The locations probed for a sequence of drive letters, in order.
pub open spec fn drive_candidates_of(ls: Seq<char>) -> Seq<Seq<char>>
    decreases ls.len(),
{
    if ls.len() == 0 {
        Seq::empty()
    } else {
        drive_candidates_of(ls.drop_last()) + drive_pair(ls.last())
    }
}

/// The two well-known Windows installation paths, probed first.
pub fn windows_fixed_candidates() -> (r: Vec<Vec<char>>)
    ensures
        seq_views(r@) == seq![
            "C:\\Program Files (x86)\\Steam"@,
            "C:\\Program Files\\Steam"@,
        ],
{
    let mut r: Vec<Vec<char>> = Vec::new();
    r.push(chars_of("C:\\Program Files (x86)\\Steam"));
    r.push(chars_of("C:\\Program Files\\Steam"));
    proof {
        assert(seq_views(r@) =~= seq![
            "C:\\Program Files (x86)\\Steam"@,
            "C:\\Program Files\\Steam"@,
        ]);
    }
    r
}

/// The per-drive fallback candidates: for each drive letter from C to Z,
/// the drive's root Steam directory and its Program Files Steam directory.
pub fn windows_drive_candidates() -> (r: Vec<Vec<char>>)
    ensures
        seq_views(r@) == drive_candidates_of(drive_letters()),
{
    let letters = chars_of("CDEFGHIJKLMNOPQRSTUVWXYZ");
    let root_suffix = chars_of(":\\Steam");
    let pf_suffix = chars_of(":\\Program Files (x86)\\Steam");
    let n = letters.len();
    let mut r: Vec<Vec<char>> = Vec::new();
    proof {
        assert(drive_letters().take(0) =~= Seq::<char>::empty());
        assert(seq_views(r@) =~= drive_candidates_of(drive_letters().take(0)));
    }
    let mut i: usize = 0;
    while i < n
        invariant
            i <= n == letters@.len(),
            letters@ == drive_letters(),
            root_suffix@ == ":\\Steam"@,
            pf_suffix@ == ":\\Program Files (x86)\\Steam"@,
            seq_views(r@) == drive_candidates_of(drive_letters().take(i as int)),
        decreases n - i,
    {
        let ghost prev = seq_views(r@);
        let mut p1: Vec<char> = Vec::new();
        p1.push(letters[i]);
        append_all(&mut p1, &root_suffix);
        let mut p2: Vec<char> = Vec::new();
        p2.push(letters[i]);
        append_all(&mut p2, &pf_suffix);
        r.push(p1);
        r.push(p2);
        proof {
            let l = drive_letters()[i as int];
            assert(p1@ =~= seq![l] + ":\\Steam"@);
            assert(p2@ =~= seq![l] + ":\\Program Files (x86)\\Steam"@);
            assert(drive_letters().take(i + 1).drop_last() =~= drive_letters().take(i as int));
            assert(drive_letters().take(i + 1).last() == l);
            assert(seq_views(r@) =~= prev + drive_pair(l));
            assert(seq_views(r@) =~= drive_candidates_of(drive_letters().take(i + 1)));
        }
        i = i + 1;
    }
    proof {
        assert(drive_letters().take(n as int) =~= drive_letters());
    }
    r
}

/// The full, ordered Windows probe list: the two well-known installation
/// paths first, then the registry-reported candidates as given, then the
/// per-drive fallback locations — the order the locator prescribes.
pub fn windows_probe_order(registry: &Vec<Vec<char>>) -> (r: Vec<Vec<char>>)
    ensures
        seq_views(r@) == seq![
            "C:\\Program Files (x86)\\Steam"@,
            "C:\\Program Files\\Steam"@,
        ] + seq_views(registry@) + drive_candidates_of(drive_letters()),
{
    let mut r = windows_fixed_candidates();
    let ghost fixed = seq_views(r@);
    let n = registry.len();
    let mut i: usize = 0;
    while i < n
        invariant
            i <= n == registry@.len(),
            seq_views(r@) == fixed + seq_views(registry@).take(i as int),
        decreases n - i,
    {
        let ghost prev = seq_views(r@);
        let p = crate::text::copy_vec(&registry[i]);
        proof {
            assert(p@ == seq_views(registry@)[i as int]);
        }
        r.push(p);
        proof {
            assert(seq_views(r@) =~= prev.push(seq_views(registry@)[i as int]));
            assert(seq_views(registry@).take(i + 1) =~= seq_views(registry@).take(
                i as int,
            ).push(seq_views(registry@)[i as int]));
            assert(seq_views(r@) =~= fixed + seq_views(registry@).take(i + 1));
        }
        i = i + 1;
    }
    proof {
        assert(seq_views(registry@).take(n as int) =~= seq_views(registry@));
    }
    let mut drives = windows_drive_candidates();
    let ghost before = seq_views(r@);
    let ghost dv = seq_views(drives@);
    r.append(&mut drives);
    proof {
        assert(seq_views(r@) =~= before + dv);
        assert(seq_views(r@) =~= seq![
            "C:\\Program Files (x86)\\Steam"@,
            "C:\\Program Files\\Steam"@,
        ] + seq_views(registry@) + drive_candidates_of(drive_letters()));
    }
    r
}

/// The single well-known location under the user's home directory on macOS.
pub fn macos_candidates(home: &Vec<char>) -> (r: Vec<Vec<char>>)
    ensures
        seq_views(r@) == seq![home@ + "/Library/Application Support/Steam"@],
{
    let mut p: Vec<char> = Vec::new();
    append_all(&mut p, home);
    let suffix = chars_of("/Library/Application Support/Steam");
    append_all(&mut p, &suffix);
    let mut r: Vec<Vec<char>> = Vec::new();
    r.push(p);
    proof {
        assert(seq_views(r@) =~= seq![home@ + "/Library/Application Support/Steam"@]);
    }
    r
}

/// The well-known locations under the user's home directory on Linux,
/// including the sandboxed install path.
pub fn linux_candidates(home: &Vec<char>) -> (r: Vec<Vec<char>>)
    ensures
        seq_views(r@) == seq![
            home@ + "/.steam/steam"@,
            home@ + "/.local/share/Steam"@,
            home@ + "/.var/app/com.valvesoftware.Steam/.local/share/Steam"@,
        ],
{
    let mut r: Vec<Vec<char>> = Vec::new();
    let mut p1: Vec<char> = Vec::new();
    append_all(&mut p1, home);
    let s1 = chars_of("/.steam/steam");
    append_all(&mut p1, &s1);
    r.push(p1);
    let mut p2: Vec<char> = Vec::new();
    append_all(&mut p2, home);
    let s2 = chars_of("/.local/share/Steam");
    append_all(&mut p2, &s2);
    r.push(p2);
    let mut p3: Vec<char> = Vec::new();
    append_all(&mut p3, home);
    let s3 = chars_of("/.var/app/com.valvesoftware.Steam/.local/share/Steam");
    append_all(&mut p3, &s3);
    r.push(p3);
    proof {
        assert(seq_views(r@) =~= seq![
            home@ + "/.steam/steam"@,
            home@ + "/.local/share/Steam"@,
            home@ + "/.var/app/com.valvesoftware.Steam/.local/share/Steam"@,
        ]);
    }
    r
}

/// The `steamapps` directory whose presence marks `root` as a Steam root.
pub fn steamapps_probe(root: &Vec<char>) -> (r: Vec<char>)
    ensures
        r@ == join_spec(root@, "steamapps"@),
{
    let sub = chars_of("steamapps");
    join_path(root, &sub)
}

/// Index of the first candidate whose presence flag is set: candidates are
/// probed in order and the first hit wins.
pub fn first_present(present: &Vec<bool>) -> (r: Option<usize>)
    ensures
        match r {
            Some(i) => i < present@.len() && present@[i as int] && forall|j: int|
                0 <= j < i ==> !present@[j],
            None => forall|j: int| 0 <= j < present@.len() ==> !present@[j],
        },
{
    let n = present.len();
    let mut i: usize = 0;
    while i < n
        invariant
            i <= n == present@.len(),
            forall|j: int| 0 <= j < i ==> !present@[j],
        decreases n - i,
    {
        if present[i] {
            return Some(i);
        }
        i = i + 1;
    }
    None
}

/// The paths among `paths` whose flag in `usable` is set, in order.
pub open spec fn kept(paths: Seq<Seq<char>>, usable: Seq<bool>) -> Seq<Seq<char>>
    decreases paths.len(),
{
    if paths.len() == 0 {
        Seq::empty()
    } else {
        kept(paths.drop_last(), usable.drop_last()) + if usable[paths.len() - 1] {
            seq![paths.last()]
        } else {
            Seq::empty()
        }
    }
}

/// The full library list: the primary Steam root first, then every parsed
/// descriptor path that was found usable, in descriptor order.
pub open spec fn assembled(primary: Seq<char>, paths: Seq<Seq<char>>, usable: Seq<bool>) -> Seq<
    Seq<char>,
> {
    seq![primary] + kept(paths, usable)
}

/// Builds the library list from the primary root, the parsed descriptor
/// paths, and one usability flag per parsed path.
pub fn assemble_libraries(primary: &Vec<char>, parsed: &Vec<Vec<char>>, usable: &Vec<bool>) -> (r:
    Vec<Vec<char>>)
    requires
        parsed@.len() == usable@.len(),
    ensures
        seq_views(r@) == assembled(primary@, seq_views(parsed@), usable@),
{
    let mut r: Vec<Vec<char>> = Vec::new();
    let mut first: Vec<char> = Vec::new();
    append_all(&mut first, primary);
    proof {
        assert(first@ =~= primary@);
    }
    r.push(first);
    proof {
        assert(seq_views(parsed@).take(0) =~= Seq::<Seq<char>>::empty());
        assert(usable@.take(0) =~= Seq::<bool>::empty());
        assert(seq_views(r@) =~= seq![primary@] + kept(
            seq_views(parsed@).take(0),
            usable@.take(0),
        ));
    }
    let n = parsed.len();
    let mut i: usize = 0;
    while i < n
        invariant
            i <= n == parsed@.len() == usable@.len(),
            seq_views(r@) == seq![primary@] + kept(seq_views(parsed@).take(i as int), usable@.take(i as int)),
        decreases n - i,
    {
        let ghost prev = seq_views(r@);
        let ghost pv = seq_views(parsed@);
        if usable[i] {
            let mut p: Vec<char> = Vec::new();
            append_all(&mut p, &parsed[i]);
            proof {
                assert(p@ =~= pv[i as int]);
            }
            r.push(p);
            proof {
                assert(seq_views(r@) =~= prev.push(pv[i as int]));
            }
        }
        proof {
            assert(pv.take(i + 1).drop_last() =~= pv.take(i as int));
            assert(usable@.take(i + 1).drop_last() =~= usable@.take(i as int));
            assert(pv.take(i + 1).last() == pv[i as int]);
            assert(seq_views(r@) =~= seq![primary@] + kept(pv.take(i + 1), usable@.take(i + 1)));
        }
        i = i + 1;
    }
    proof {
        assert(seq_views(parsed@).take(n as int) =~= seq_views(parsed@));
        assert(usable@.take(n as int) =~= usable@);
    }
    r
}

/// Where the game's directory sits inside one library root.
pub open spec fn game_path_spec(lib: Seq<char>, game: Seq<char>) -> Seq<char> {
    join_spec(join_spec(join_spec(lib, "steamapps"@), "common"@), game)
}

/// Builds the path of the game's directory inside one library root.
pub fn game_dir_path(lib: &Vec<char>, game: &Vec<char>) -> (r: Vec<char>)
    ensures
        r@ == game_path_spec(lib@, game@),
{
    let steamapps = chars_of("steamapps");
    let common = chars_of("common");
    let a = join_path(lib, &steamapps);
    let b = join_path(&a, &common);
    join_path(&b, game)
}

/// Picks the game's directory: the libraries are probed in order and the
/// first whose game directory is present wins; the result is always that
/// library's `steamapps/common` game path.
pub fn find_game_in_libraries(libs: &Vec<Vec<char>>, game: &Vec<char>, present: &Vec<bool>) -> (r:
    Option<Vec<char>>)
    requires
        libs@.len() == present@.len(),
    ensures
        match r {
            Some(p) => exists|i: int|
                0 <= i < libs@.len() && present@[i] && p@ == game_path_spec(libs@[i]@, game@)
                    && (forall|j: int| 0 <= j < i ==> !present@[j]),
            None => forall|j: int| 0 <= j < libs@.len() ==> !present@[j],
        },
{
    match first_present(present) {
        Some(i) => {
            let p = game_dir_path(&libs[i], game);
            proof {
                assert(p@ == game_path_spec(libs@[i as int]@, game@));
            }
            Some(p)
        },
        None => None,
    }
}

/// Every usable parsed path is kept: with all flags set, the library list
/// holds the primary root first and then every parsed path.
pub proof fn lemma_kept_all(paths: Seq<Seq<char>>, usable: Seq<bool>)
    requires
        paths.len() == usable.len(),
        forall|i: int| 0 <= i < usable.len() ==> usable[i],
    ensures
        kept(paths, usable) == paths,
    decreases paths.len(),
{
    if paths.len() > 0 {
        lemma_kept_all(paths.drop_last(), usable.drop_last());
        assert(kept(paths, usable) =~= paths);
    }
}

/// Counting law for descriptor parsing: a descriptor whose lines hold `N`
/// well-formed `path` entries (interspersed with any number of malformed
/// lines, which are skipped) yields, when every parsed path is usable, a
/// library list of exactly `1 + N` entries, with the primary root first.
pub proof fn lemma_library_count(primary: Seq<char>, content: Seq<char>, usable: Seq<bool>)
    requires
        usable.len() == library_paths(content).len(),
        forall|i: int| 0 <= i < usable.len() ==> usable[i],
    ensures
        assembled(primary, library_paths(content), usable).len() == 1 + crate::text::spec_lines(
            content,
        ).filter(|l: Seq<char>| line_path(l) is Some).len(),
        assembled(primary, library_paths(content), usable)[0] == primary,
{
    crate::vdf::lemma_collect_paths_counts(crate::text::spec_lines(content));
    lemma_kept_all(library_paths(content), usable);
}

} // verus!
