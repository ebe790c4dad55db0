//! The archive installer: decoding a downloaded archive and placing its
//! contents under the installation root according to mappings.
//!
//! Decoding the zip format itself is the zip crate's work and sits behind
//! one trusted wrapper; everything from the decoded entries to the final
//! file tree is verified.

use vstd::prelude::*;

use crate::fsmodel::{apply_writes, file_views, FsFile, FsModel};
use crate::text::{copy_vec, eq_chars, has_prefix, join_path, join_spec, starts_with, sub_chars};

verus! {

/// The hard cap on how many bytes of an archive are buffered, however the
/// download announces its length.
pub const DOWNLOAD_CAP_BYTES: u64 = 100000000;

/// One entry read from an archive: its internal path, its bytes, and
/// whether it is a directory entry.
pub struct ZipEntry {
    pub name: Vec<char>,
    pub data: Vec<u8>,
    pub is_dir: bool,
}

/// The mathematical content of a sequence of entries.
pub open spec fn entry_views(s: Seq<ZipEntry>) -> Seq<(Seq<char>, Seq<u8>, bool)> {
    s.map_values(|e: ZipEntry| (e.name@, e.data@, e.is_dir))
}

/// What the zip decoder yields for given archive bytes: `None` when the
/// bytes are not a well-formed archive, else the entries as the zip crate
/// enumerates them, in its order — entries with duplicate names are
/// collapsed into one — each as name, decompressed bytes, and directory
/// flag. The decoder's output is a function of the bytes alone; its exact
/// relation to them is the zip format's and is not restated here.
pub uninterp spec fn zip_entries_of(bytes: Seq<u8>) -> Option<Seq<(Seq<char>, Seq<u8>, bool)>>;

#[verifier::external_type_specification]
#[verifier::external_body]
pub struct ExZipError(zip::result::ZipError);

/// Relies on zip's `ZipArchive`: `new` parses the bytes as an archive and
/// fails on malformed input; `by_index` opens each entry in index order,
/// whose `name`, `is_dir` and decompressed bytes (via `Read`) are recorded.
/// The outcome depends on the archive bytes alone.
#[verifier::external_body]
fn read_zip_entries(bytes: &Vec<u8>) -> (r: Result<Vec<ZipEntry>, zip::result::ZipError>)
    ensures
        r is Ok <==> zip_entries_of(bytes@) is Some,
        r matches Ok(es) ==> Some(entry_views(es@)) == zip_entries_of(bytes@),
{
    let mut archive = zip::ZipArchive::new(std::io::Cursor::new(bytes.clone()))?;
    let mut out = Vec::new();
    let n = archive.len();
    let mut i: usize = 0;
    while i < n {
        let mut f = archive.by_index(i)?;
        let name: Vec<char> = f.name().chars().collect();
        let is_dir = f.is_dir();
        let mut data = Vec::new();
        std::io::Read::read_to_end(&mut f, &mut data).map_err(zip::result::ZipError::from)?;
        out.push(ZipEntry { name, data, is_dir });
        i += 1;
    }
    Ok(out)
}

/// Failures of the archive installer.
#[derive(Clone, Copy, PartialEq, Eq, Debug)]
pub enum InstallError {
    /// The downloaded bytes are not a well-formed archive.
    BadArchive,
}

/// Decodes archive bytes into entries; fails exactly when the bytes are
/// not a well-formed archive.
pub fn decode_archive(bytes: &Vec<u8>) -> (r: Result<Vec<ZipEntry>, InstallError>)
    ensures
        r is Ok <==> zip_entries_of(bytes@) is Some,
        r matches Ok(es) ==> Some(entry_views(es@)) == zip_entries_of(bytes@),
{
    match read_zip_entries(bytes) {
        Ok(es) => Ok(es),
        Err(_) => Err(InstallError::BadArchive),
    }
}

/// The view of an optional archive-internal source directory.
pub open spec fn opt_view(o: Option<Vec<char>>) -> Option<Seq<char>> {
    match o {
        Some(v) => Some(v@),
        None => None,
    }
}

/// Where one archive entry lands for one legacy-manifest mapping: a
/// directory entry lands nowhere; with no internal source the entry keeps
/// its archive path under the destination; with a named source, the
/// entries under `<from>/` land at their path with that prefix stripped,
/// and an entry that is exactly `<from>` — a single file named as the
/// source — lands under the destination with its own filename. The
/// per-mod hint path matches by plain prefix alone: see
/// [`place_one_hint`].
pub open spec fn place_one(
    e: (Seq<char>, Seq<u8>, bool),
    from: Option<Seq<char>>,
    dest: Seq<char>,
) -> Option<(Seq<char>, Seq<u8>)> {
    if e.2 {
        None
    } else {
        match from {
            Option::None => Some((join_spec(dest, e.0), e.1)),
            Option::Some(d) => if has_prefix(e.0, d + seq!['/']) {
                Some((join_spec(dest, e.0.skip(d.len() as int + 1)), e.1))
            } else if e.0 == d {
                Some((join_spec(dest, crate::text::last_segment(d)), e.1))
            } else {
                None
            },
        }
    }
}

/// The files one mapping places, in archive order.
pub open spec fn placements_spec(
    es: Seq<(Seq<char>, Seq<u8>, bool)>,
    from: Option<Seq<char>>,
    dest: Seq<char>,
) -> Seq<(Seq<char>, Seq<u8>)>
    decreases es.len(),
{
    if es.len() == 0 {
        Seq::empty()
    } else {
        placements_spec(es.drop_last(), from, dest) + match place_one(es.last(), from, dest) {
            Some(q) => seq![q],
            None => Seq::empty(),
        }
    }
}

/// Computes one mapping's placements.
pub fn place_entries(entries: &Vec<ZipEntry>, from: &Option<Vec<char>>, dest: &Vec<char>) -> (r:
    Vec<FsFile>)
    ensures
        file_views(r@) == placements_spec(
            entry_views(entries@),
            match from {
                Some(d) => Some(d@),
                None => None,
            },
            dest@,
        ),
{
    let ghost ev = entry_views(entries@);
    let ghost fv: Option<Seq<char>> = match from {
        Some(d) => Some(d@),
        None => None,
    };
    let mut pref_opt: Option<(Vec<char>, Vec<char>, Vec<char>)> = None;
    match from {
        Some(d) => {
            let source = copy_vec(d);
            let mut p = copy_vec(d);
            p.push('/');
            proof {
                assert(p@ =~= d@ + seq!['/']);
            }
            let (_, fname) = crate::text::split_last_segment(d);
            pref_opt = Some((source, p, fname));
        },
        None => {},
    }
    let n = entries.len();
    let mut out: Vec<FsFile> = Vec::new();
    proof {
        assert(ev.take(0) =~= Seq::<(Seq<char>, Seq<u8>, bool)>::empty());
        assert(file_views(out@) =~= placements_spec(ev.take(0), fv, dest@));
    }
    let mut i: usize = 0;
    while i < n
        invariant
            i <= n == entries@.len(),
            ev == entry_views(entries@),
            match pref_opt {
                Some(t) => fv matches Some(d) && t.0@ == d && t.1@ == d + seq!['/'] && t.2@
                    == crate::text::last_segment(d),
                None => fv is None,
            },
            file_views(out@) == placements_spec(ev.take(i as int), fv, dest@),
        decreases n - i,
    {
        let ghost prev = file_views(out@);
        let e = &entries[i];
        if !e.is_dir {
            match &pref_opt {
                Some(t) => {
                    if starts_with(&e.name, &t.1) {
                        let rel = sub_chars(&e.name, t.1.len(), e.name.len());
                        proof {
                            assert(rel@ =~= e.name@.skip(t.1@.len() as int));
                        }
                        let path = join_path(dest, &rel);
                        let data = copy_vec(&e.data);
                        out.push(FsFile { path, data });
                        proof {
                            assert(file_views(out@) =~= prev.push(
                                (join_spec(dest@, ev[i as int].0.skip(t.1@.len() as int)), ev[i as int].1),
                            ));
                        }
                    } else if eq_chars(&e.name, &t.0) {
                        let path = join_path(dest, &t.2);
                        let data = copy_vec(&e.data);
                        out.push(FsFile { path, data });
                        proof {
                            assert(file_views(out@) =~= prev.push(
                                (join_spec(dest@, crate::text::last_segment(t.0@)), ev[i as int].1),
                            ));
                        }
                    }
                },
                None => {
                    let path = join_path(dest, &e.name);
                    let data = copy_vec(&e.data);
                    out.push(FsFile { path, data });
                    proof {
                        assert(file_views(out@) =~= prev.push(
                            (join_spec(dest@, ev[i as int].0), ev[i as int].1),
                        ));
                    }
                },
            }
        }
        proof {
            assert(ev.take(i + 1).drop_last() =~= ev.take(i as int));
            assert(ev.take(i + 1).last() == ev[i as int]);
            match place_one(ev[i as int], fv, dest@) {
                Some(q) => {
                    assert(file_views(out@) =~= placements_spec(ev.take(i as int), fv, dest@)
                        + seq![q]);
                },
                None => {
                    assert(file_views(out@) == placements_spec(ev.take(i as int), fv, dest@));
                },
            }
            assert(file_views(out@) =~= placements_spec(ev.take(i + 1), fv, dest@));
        }
        i = i + 1;
    }
    proof {
        assert(ev.take(n as int) =~= ev);
    }
    out
}

/// Where one archive entry lands on the per-mod hint path: as
/// [`place_one`], except that a named source matches by plain prefix
/// equality against `<from>/` alone — an entry named exactly `<from>`,
/// or `<from>` followed by anything but a separator, matches nothing and
/// is skipped.
pub open spec fn place_one_hint(
    e: (Seq<char>, Seq<u8>, bool),
    from: Option<Seq<char>>,
    dest: Seq<char>,
) -> Option<(Seq<char>, Seq<u8>)> {
    if e.2 {
        None
    } else {
        match from {
            Option::None => Some((join_spec(dest, e.0), e.1)),
            Option::Some(d) => if has_prefix(e.0, d + seq!['/']) {
                Some((join_spec(dest, e.0.skip(d.len() as int + 1)), e.1))
            } else {
                None
            },
        }
    }
}

/// The files one mod hint places, in archive order.
pub open spec fn hint_placements_spec(
    es: Seq<(Seq<char>, Seq<u8>, bool)>,
    from: Option<Seq<char>>,
    dest: Seq<char>,
) -> Seq<(Seq<char>, Seq<u8>)>
    decreases es.len(),
{
    if es.len() == 0 {
        Seq::empty()
    } else {
        hint_placements_spec(es.drop_last(), from, dest) + match place_one_hint(
            es.last(),
            from,
            dest,
        ) {
            Some(q) => seq![q],
            None => Seq::empty(),
        }
    }
}

/// Computes one mod hint's placements.
pub fn place_hint_entries(
    entries: &Vec<ZipEntry>,
    from: &Option<Vec<char>>,
    dest: &Vec<char>,
) -> (r: Vec<FsFile>)
    ensures
        file_views(r@) == hint_placements_spec(
            entry_views(entries@),
            match from {
                Some(d) => Some(d@),
                None => None,
            },
            dest@,
        ),
{
    let ghost ev = entry_views(entries@);
    let ghost fv: Option<Seq<char>> = match from {
        Some(d) => Some(d@),
        None => None,
    };
    let mut pref_opt: Option<Vec<char>> = None;
    match from {
        Some(d) => {
            let mut p = copy_vec(d);
            p.push('/');
            proof {
                assert(p@ =~= d@ + seq!['/']);
            }
            pref_opt = Some(p);
        },
        None => {},
    }
    let n = entries.len();
    let mut out: Vec<FsFile> = Vec::new();
    proof {
        assert(ev.take(0) =~= Seq::<(Seq<char>, Seq<u8>, bool)>::empty());
        assert(file_views(out@) =~= hint_placements_spec(ev.take(0), fv, dest@));
    }
    let mut i: usize = 0;
    while i < n
        invariant
            i <= n == entries@.len(),
            ev == entry_views(entries@),
            match pref_opt {
                Some(p) => fv matches Some(d) && p@ == d + seq!['/'],
                None => fv is None,
            },
            file_views(out@) == hint_placements_spec(ev.take(i as int), fv, dest@),
        decreases n - i,
    {
        let ghost prev = file_views(out@);
        let e = &entries[i];
        if !e.is_dir {
            match &pref_opt {
                Some(pref) => {
                    if starts_with(&e.name, pref) {
                        let rel = sub_chars(&e.name, pref.len(), e.name.len());
                        proof {
                            assert(rel@ =~= e.name@.skip(pref@.len() as int));
                        }
                        let path = join_path(dest, &rel);
                        let data = copy_vec(&e.data);
                        out.push(FsFile { path, data });
                        proof {
                            assert(file_views(out@) =~= prev.push(
                                (
                                    join_spec(dest@, ev[i as int].0.skip(pref@.len() as int)),
                                    ev[i as int].1,
                                ),
                            ));
                        }
                    }
                },
                None => {
                    let path = join_path(dest, &e.name);
                    let data = copy_vec(&e.data);
                    out.push(FsFile { path, data });
                    proof {
                        assert(file_views(out@) =~= prev.push(
                            (join_spec(dest@, ev[i as int].0), ev[i as int].1),
                        ));
                    }
                },
            }
        }
        proof {
            assert(ev.take(i + 1).drop_last() =~= ev.take(i as int));
            assert(ev.take(i + 1).last() == ev[i as int]);
            match place_one_hint(ev[i as int], fv, dest@) {
                Some(q) => {
                    assert(file_views(out@) =~= hint_placements_spec(ev.take(i as int), fv, dest@)
                        + seq![q]);
                },
                None => {
                    assert(file_views(out@) == hint_placements_spec(ev.take(i as int), fv, dest@));
                },
            }
            assert(file_views(out@) =~= hint_placements_spec(ev.take(i + 1), fv, dest@));
        }
        i = i + 1;
    }
    proof {
        assert(ev.take(n as int) =~= ev);
    }
    out
}

/// Where one directory entry lands for one mapping: only directory
/// entries land, under the same rules as files — kept whole from the
/// archive root, or with a named source's prefix stripped.
pub open spec fn place_dir_one(
    e: (Seq<char>, Seq<u8>, bool),
    from: Option<Seq<char>>,
    dest: Seq<char>,
) -> Option<Seq<char>> {
    if !e.2 {
        None
    } else {
        match from {
            Option::None => Some(join_spec(dest, e.0)),
            Option::Some(d) => if has_prefix(e.0, d + seq!['/']) {
                Some(join_spec(dest, e.0.skip(d.len() as int + 1)))
            } else {
                None
            },
        }
    }
}

/// The directories one mapping asks for, in archive order.
pub open spec fn dir_placements_spec(
    es: Seq<(Seq<char>, Seq<u8>, bool)>,
    from: Option<Seq<char>>,
    dest: Seq<char>,
) -> Seq<Seq<char>>
    decreases es.len(),
{
    if es.len() == 0 {
        Seq::empty()
    } else {
        dir_placements_spec(es.drop_last(), from, dest) + match place_dir_one(
            es.last(),
            from,
            dest,
        ) {
            Some(p) => seq![p],
            None => Seq::empty(),
        }
    }
}

/// Computes the directories one mapping creates, for the caller to make
/// on disk before the files are written.
pub fn place_dirs(entries: &Vec<ZipEntry>, from: &Option<Vec<char>>, dest: &Vec<char>) -> (r: Vec<
    Vec<char>,
>)
    ensures
        crate::text::seq_views(r@) == dir_placements_spec(
            entry_views(entries@),
            match from {
                Some(d) => Some(d@),
                None => None,
            },
            dest@,
        ),
{
    let ghost ev = entry_views(entries@);
    let ghost fv: Option<Seq<char>> = match from {
        Some(d) => Some(d@),
        None => None,
    };
    let mut pref_opt: Option<Vec<char>> = None;
    match from {
        Some(d) => {
            let mut p = copy_vec(d);
            p.push('/');
            proof {
                assert(p@ =~= d@ + seq!['/']);
            }
            pref_opt = Some(p);
        },
        None => {},
    }
    let n = entries.len();
    let mut out: Vec<Vec<char>> = Vec::new();
    proof {
        assert(ev.take(0) =~= Seq::<(Seq<char>, Seq<u8>, bool)>::empty());
        assert(crate::text::seq_views(out@) =~= dir_placements_spec(ev.take(0), fv, dest@));
    }
    let mut i: usize = 0;
    while i < n
        invariant
            i <= n == entries@.len(),
            ev == entry_views(entries@),
            match pref_opt {
                Some(p) => fv matches Some(d) && p@ == d + seq!['/'],
                None => fv is None,
            },
            crate::text::seq_views(out@) == dir_placements_spec(ev.take(i as int), fv, dest@),
        decreases n - i,
    {
        let ghost prev = crate::text::seq_views(out@);
        let e = &entries[i];
        if e.is_dir {
            match &pref_opt {
                Some(pref) => {
                    if starts_with(&e.name, pref) {
                        let rel = sub_chars(&e.name, pref.len(), e.name.len());
                        proof {
                            assert(rel@ =~= e.name@.skip(pref@.len() as int));
                        }
                        let path = join_path(dest, &rel);
                        out.push(path);
                        proof {
                            assert(crate::text::seq_views(out@) =~= prev.push(
                                join_spec(dest@, ev[i as int].0.skip(pref@.len() as int)),
                            ));
                        }
                    }
                },
                None => {
                    let path = join_path(dest, &e.name);
                    out.push(path);
                    proof {
                        assert(crate::text::seq_views(out@) =~= prev.push(
                            join_spec(dest@, ev[i as int].0),
                        ));
                    }
                },
            }
        }
        proof {
            assert(ev.take(i + 1).drop_last() =~= ev.take(i as int));
            assert(ev.take(i + 1).last() == ev[i as int]);
            match place_dir_one(ev[i as int], fv, dest@) {
                Some(p) => {
                    assert(crate::text::seq_views(out@) =~= dir_placements_spec(
                        ev.take(i as int),
                        fv,
                        dest@,
                    ) + seq![p]);
                },
                None => {
                    assert(crate::text::seq_views(out@) == dir_placements_spec(
                        ev.take(i as int),
                        fv,
                        dest@,
                    ));
                },
            }
            assert(crate::text::seq_views(out@) =~= dir_placements_spec(ev.take(i + 1), fv, dest@));
        }
        i = i + 1;
    }
    proof {
        assert(ev.take(n as int) =~= ev);
    }
    out
}

/// An entry that one mod hint places is present among that hint's
/// placements.
proof fn lemma_hint_placement_present(
    es: Seq<(Seq<char>, Seq<u8>, bool)>,
    from: Option<Seq<char>>,
    dest: Seq<char>,
    k: int,
)
    requires
        0 <= k < es.len(),
    ensures
        match place_one_hint(es[k], from, dest) {
            Some(q) => hint_placements_spec(es, from, dest).contains(q),
            None => true,
        },
    decreases es.len(),
{
    let pss = hint_placements_spec(es, from, dest);
    if k == es.len() - 1 {
        match place_one_hint(es[k], from, dest) {
            Some(q) => {
                assert(pss[pss.len() - 1] == q);
            },
            None => {},
        }
    } else {
        let t = es.drop_last();
        assert(t[k] == es[k]);
        lemma_hint_placement_present(t, from, dest, k);
        match place_one_hint(es[k], from, dest) {
            Some(q) => {
                let sub = hint_placements_spec(t, from, dest);
                assert(sub.contains(q));
                let i = choose|i: int| 0 <= i < sub.len() && sub[i] == q;
                assert(pss[i] == q);
            },
            None => {},
        }
    }
}

/// Any file a mod hint places comes from some entry that the hint places
/// there.
proof fn lemma_hint_placement_source(
    es: Seq<(Seq<char>, Seq<u8>, bool)>,
    from: Option<Seq<char>>,
    dest: Seq<char>,
    q: (Seq<char>, Seq<u8>),
)
    requires
        hint_placements_spec(es, from, dest).contains(q),
    ensures
        exists|k: int|
            0 <= k < es.len() && place_one_hint(#[trigger] es[k], from, dest) == Some(q),
    decreases es.len(),
{
    let pss = hint_placements_spec(es, from, dest);
    if es.len() == 0 {
        assert(pss.len() == 0);
    } else {
        let t = es.drop_last();
        let sub = hint_placements_spec(t, from, dest);
        let i = choose|i: int| 0 <= i < pss.len() && pss[i] == q;
        if i < sub.len() {
            assert(sub[i] == q);
            assert(sub.contains(q));
            lemma_hint_placement_source(t, from, dest, q);
            let k = choose|k: int|
                0 <= k < t.len() && place_one_hint(#[trigger] t[k], from, dest) == Some(q);
            assert(es[k] == t[k]);
            assert(place_one_hint(es[k], from, dest) == Some(q));
        } else {
            match place_one_hint(es.last(), from, dest) {
                Some(q2) => {
                    assert(pss[i] == q2);
                    assert(place_one_hint(es[es.len() - 1], from, dest) == Some(q));
                },
                None => {
                    assert(pss.len() == sub.len());
                },
            }
        }
    }
}

/// Placement under a named internal source directory, on the per-mod
/// path: a file entry lands exactly when its archive path sits under
/// `<from>/`, and then at that path with the prefix stripped, under the
/// destination; every entry outside the prefix — one named exactly
/// `<from>` included — is not copied at all.
pub proof fn lemma_named_source_placement(
    es: Seq<(Seq<char>, Seq<u8>, bool)>,
    d: Seq<char>,
    dest: Seq<char>,
)
    ensures
        forall|k: int|
            #![trigger es[k]]
            0 <= k < es.len() && !es[k].2 && has_prefix(es[k].0, d + seq!['/'])
                ==> hint_placements_spec(es, Some(d), dest).contains(
                (join_spec(dest, es[k].0.skip(d.len() as int + 1)), es[k].1),
            ),
        forall|q: (Seq<char>, Seq<u8>)| #[trigger]
            hint_placements_spec(es, Some(d), dest).contains(q) ==> exists|k: int|
                0 <= k < es.len() && !(#[trigger] es[k]).2 && has_prefix(es[k].0, d + seq!['/'])
                    && q == (join_spec(dest, es[k].0.skip(d.len() as int + 1)), es[k].1),
{
    assert forall|k: int|
        0 <= k < es.len() && !es[k].2 && has_prefix(#[trigger] es[k].0, d + seq!['/'])
        implies hint_placements_spec(es, Some(d), dest).contains(
        (join_spec(dest, es[k].0.skip(d.len() as int + 1)), es[k].1),
    ) by {
        lemma_hint_placement_present(es, Some(d), dest, k);
    }
    assert forall|q: (Seq<char>, Seq<u8>)| #[trigger]
        hint_placements_spec(es, Some(d), dest).contains(q) implies exists|k: int|
        0 <= k < es.len() && !(#[trigger] es[k]).2 && has_prefix(es[k].0, d + seq!['/']) && q == (
        join_spec(dest, es[k].0.skip(d.len() as int + 1)),
        es[k].1,
    ) by {
        lemma_hint_placement_source(es, Some(d), dest, q);
        let k = choose|k: int|
            0 <= k < es.len() && place_one_hint(#[trigger] es[k], Some(d), dest) == Some(q);
        assert(!es[k].2 && has_prefix(es[k].0, d + seq!['/']) && q == (
            join_spec(dest, es[k].0.skip(d.len() as int + 1)),
            es[k].1,
        ));
    }
}

/// One mapping: the archive-internal source directory (`None` meaning the
/// archive root) and the destination directory relative to the
/// installation root.
pub struct Mapping {
    pub from: Option<Vec<char>>,
    pub to: Vec<char>,
}

/// The mathematical content of a sequence of mappings.
pub open spec fn mapping_views(s: Seq<Mapping>) -> Seq<(Option<Seq<char>>, Seq<char>)> {
    s.map_values(|m: Mapping| (opt_view(m.from), m.to@))
}

/// All files an archive places under a sequence of mappings, mapping by
/// mapping, in order.
pub open spec fn install_placements(
    es: Seq<(Seq<char>, Seq<u8>, bool)>,
    ms: Seq<(Option<Seq<char>>, Seq<char>)>,
) -> Seq<(Seq<char>, Seq<u8>)>
    decreases ms.len(),
{
    if ms.len() == 0 {
        Seq::empty()
    } else {
        install_placements(es, ms.drop_last()) + placements_spec(
            es,
            ms.last().0,
            ms.last().1,
        )
    }
}

/// Computes every mapping's placements, in order.
pub fn place_all(entries: &Vec<ZipEntry>, mappings: &Vec<Mapping>) -> (r: Vec<FsFile>)
    ensures
        file_views(r@) == install_placements(entry_views(entries@), mapping_views(mappings@)),
{
    let ghost ev = entry_views(entries@);
    let ghost mv = mapping_views(mappings@);
    let n = mappings.len();
    let mut out: Vec<FsFile> = Vec::new();
    proof {
        assert(mv.take(0) =~= Seq::<(Option<Seq<char>>, Seq<char>)>::empty());
        assert(file_views(out@) =~= install_placements(ev, mv.take(0)));
    }
    let mut k: usize = 0;
    while k < n
        invariant
            k <= n == mappings@.len(),
            ev == entry_views(entries@),
            mv == mapping_views(mappings@),
            file_views(out@) == install_placements(ev, mv.take(k as int)),
        decreases n - k,
    {
        let ghost prev = file_views(out@);
        let m = &mappings[k];
        let mut part = place_entries(entries, &m.from, &m.to);
        let ghost partv = file_views(part@);
        proof {
            assert(partv == placements_spec(ev, mv[k as int].0, mv[k as int].1));
        }
        out.append(&mut part);
        proof {
            assert(file_views(out@) =~= prev + partv);
            assert(mv.take(k + 1).drop_last() =~= mv.take(k as int));
            assert(mv.take(k + 1).last() == mv[k as int]);
            assert(file_views(out@) =~= install_placements(ev, mv.take(k + 1)));
        }
        k = k + 1;
    }
    proof {
        assert(mv.take(n as int) =~= mv);
    }
    out
}

/// The mapping one manifest pair denotes: the first element is the
/// archive-internal source, `"*"` meaning the archive root, and the
/// second the destination; a pair without exactly two elements is
/// skipped.
pub open spec fn pair_mapping(p: Seq<String>) -> Option<(Option<Seq<char>>, Seq<char>)> {
    if p.len() == 2 {
        Some(
            (
                if p[0]@ == "*"@ {
                    Option::<Seq<char>>::None
                } else {
                    Option::Some(p[0]@)
                },
                p[1]@,
            ),
        )
    } else {
        None
    }
}

/// The mappings a manifest entry's pair list denotes, in order.
pub open spec fn manifest_mappings(ps: Seq<Vec<String>>) -> Seq<(Option<Seq<char>>, Seq<char>)>
    decreases ps.len(),
{
    if ps.len() == 0 {
        Seq::empty()
    } else {
        manifest_mappings(ps.drop_last()) + match pair_mapping(ps.last()@) {
            Some(m) => seq![m],
            None => Seq::empty(),
        }
    }
}

/// Converts a manifest entry's pair list into mappings.
pub fn convert_mappings(pairs: &Vec<Vec<String>>) -> (r: Vec<Mapping>)
    ensures
        mapping_views(r@) == manifest_mappings(pairs@),
{
    let star = crate::text::chars_of("*");
    let n = pairs.len();
    let mut out: Vec<Mapping> = Vec::new();
    proof {
        assert(pairs@.take(0) =~= Seq::<Vec<String>>::empty());
        assert(mapping_views(out@) =~= manifest_mappings(pairs@.take(0)));
    }
    let mut i: usize = 0;
    while i < n
        invariant
            i <= n == pairs@.len(),
            star@ == "*"@,
            mapping_views(out@) == manifest_mappings(pairs@.take(i as int)),
        decreases n - i,
    {
        let ghost prev = mapping_views(out@);
        let pair = &pairs[i];
        if pair.len() == 2 {
            let from_cs = crate::text::chars_of(pair[0].as_str());
            let from: Option<Vec<char>> = if crate::text::eq_chars(&from_cs, &star) {
                None
            } else {
                Some(from_cs)
            };
            let to = crate::text::chars_of(pair[1].as_str());
            let m = Mapping { from, to };
            proof {
                assert(Some((opt_view(m.from), m.to@)) == pair_mapping(pairs@[i as int]@));
            }
            out.push(m);
            proof {
                assert(mapping_views(out@) =~= prev.push((opt_view(m.from), m.to@)));
            }
        }
        proof {
            assert(pairs@.take(i + 1).drop_last() =~= pairs@.take(i as int));
            assert(pairs@.take(i + 1).last() == pairs@[i as int]);
            match pair_mapping(pairs@[i as int]@) {
                Some(mm) => {
                    assert(mapping_views(out@) =~= manifest_mappings(pairs@.take(i as int))
                        + seq![mm]);
                },
                None => {
                    assert(mapping_views(out@) == manifest_mappings(pairs@.take(i as int)));
                },
            }
            assert(mapping_views(out@) =~= manifest_mappings(pairs@.take(i + 1)));
        }
        i = i + 1;
    }
    proof {
        assert(pairs@.take(n as int) =~= pairs@);
    }
    out
}

/// The single mapping one mod hint denotes: its optional internal source
/// directory, and its destination or the installation root when absent.
pub open spec fn mod_entry_mapping_view(m: crate::bepmod::BepinexMod) -> (
    Option<Seq<char>>,
    Seq<char>,
) {
    (
        match m.from {
            Some(s) => Some(s@),
            None => None,
        },
        match m.to {
            Some(s) => s@,
            None => Seq::empty(),
        },
    )
}

/// Builds the internal source and the destination of one mod hint.
pub fn mod_entry_parts(m: &crate::bepmod::BepinexMod) -> (r: (Option<Vec<char>>, Vec<char>))
    ensures
        (opt_view(r.0), r.1@) == mod_entry_mapping_view(*m),
{
    let from: Option<Vec<char>> = match &m.from {
        Some(s) => Some(crate::text::chars_of(s.as_str())),
        None => None,
    };
    let to: Vec<char> = match &m.to {
        Some(s) => crate::text::chars_of(s.as_str()),
        None => Vec::new(),
    };
    proof {
        assert(to@ == mod_entry_mapping_view(*m).1);
    }
    (from, to)
}

impl FsModel {
    /// Installs one legacy-manifest entry: its archive's bytes, placed
    /// under each of its mapping pairs in order. Fails exactly when the
    /// bytes are not a well-formed archive, and then changes nothing.
    pub fn install_manifest_entry(
        &mut self,
        bytes: &Vec<u8>,
        entry: &crate::settings::BepinexMod,
    ) -> (r: Result<(), InstallError>)
        requires
            old(self).wf(),
        ensures
            final(self).wf(),
            r is Ok <==> zip_entries_of(bytes@) is Some,
            match zip_entries_of(bytes@) {
                Some(es) => final(self)@ == apply_writes(
                    old(self)@,
                    install_placements(es, manifest_mappings(entry.mapping@)),
                ),
                None => final(self)@ == old(self)@,
            },
    {
        let ms = convert_mappings(&entry.mapping);
        self.install_archive(bytes, &ms)
    }

    /// Installs one mod hint's archive: entries are selected by plain
    /// prefix equality against the hint's internal source directory (or
    /// taken whole without one) and placed under its destination. Fails
    /// exactly when the bytes are not a well-formed archive, and then
    /// changes nothing.
    pub fn install_mod_entry(&mut self, bytes: &Vec<u8>, entry: &crate::bepmod::BepinexMod) -> (r:
        Result<(), InstallError>)
        requires
            old(self).wf(),
        ensures
            final(self).wf(),
            r is Ok <==> zip_entries_of(bytes@) is Some,
            match zip_entries_of(bytes@) {
                Some(es) => final(self)@ == apply_writes(
                    old(self)@,
                    hint_placements_spec(
                        es,
                        mod_entry_mapping_view(*entry).0,
                        mod_entry_mapping_view(*entry).1,
                    ),
                ),
                None => final(self)@ == old(self)@,
            },
    {
        let (from, to) = mod_entry_parts(entry);
        match decode_archive(bytes) {
            Ok(entries) => {
                let ps = place_hint_entries(&entries, &from, &to);
                self.apply(&ps);
                Ok(())
            },
            Err(e) => Err(e),
        }
    }

    /// Installs one archive into the tree: decodes the bytes and applies
    /// every mapping's placements, in order. Fails exactly when the bytes
    /// are not a well-formed archive, and then changes nothing.
    pub fn install_archive(&mut self, bytes: &Vec<u8>, mappings: &Vec<Mapping>) -> (r: Result<
        (),
        InstallError,
    >)
        requires
            old(self).wf(),
        ensures
            final(self).wf(),
            r is Ok <==> zip_entries_of(bytes@) is Some,
            match zip_entries_of(bytes@) {
                Some(es) => final(self)@ == apply_writes(
                    old(self)@,
                    install_placements(es, mapping_views(mappings@)),
                ),
                None => final(self)@ == old(self)@ && r == Err::<(), InstallError>(
                    InstallError::BadArchive,
                ),
            },
    {
        match decode_archive(bytes) {
            Ok(entries) => {
                let ps = place_all(&entries, mappings);
                self.apply(&ps);
                Ok(())
            },
            Err(e) => Err(e),
        }
    }
}

} // verus!
