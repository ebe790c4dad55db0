//! In-memory model of the file tree under the game's installation root.
//!
//! The model is the value the installer and uninstaller are verified
//! against: a finite map from relative paths to file contents, held as a
//! vector of records with pairwise distinct paths. The process that mirrors
//! these operations onto the real filesystem performs one write or delete
//! per record, in order.

use vstd::prelude::*;

use crate::text::{copy_vec, eq_chars};

verus! {

/// One file: its path relative to the installation root, and its bytes.
pub struct FsFile {
    pub path: Vec<char>,
    pub data: Vec<u8>,
}

/// The mathematical content of a sequence of records: each as its
/// path and data.
pub open spec fn file_views(s: Seq<FsFile>) -> Seq<(Seq<char>, Seq<u8>)> {
    s.map_values(|f: FsFile| (f.path@, f.data@))
}

/// No two entries name the same path.
pub open spec fn paths_unique(vs: Seq<(Seq<char>, Seq<u8>)>) -> bool {
    forall|i: int, j: int| 0 <= i < j < vs.len() ==> vs[i].0 != vs[j].0
}

/// The map a sequence of entries denotes; a later entry for the same path
/// wins.
pub open spec fn as_map(vs: Seq<(Seq<char>, Seq<u8>)>) -> Map<Seq<char>, Seq<u8>>
    decreases vs.len(),
{
    if vs.len() == 0 {
        Map::empty()
    } else {
        as_map(vs.drop_last()).insert(vs.last().0, vs.last().1)
    }
}

/// A path is in the map exactly when some entry names it.
pub proof fn lemma_as_map_dom(vs: Seq<(Seq<char>, Seq<u8>)>)
    ensures
        forall|p: Seq<char>| #[trigger]
            as_map(vs).dom().contains(p) <==> (exists|i: int| 0 <= i < vs.len() && vs[i].0 == p),
    decreases vs.len(),
{
    if vs.len() > 0 {
        lemma_as_map_dom(vs.drop_last());
        let t = vs.drop_last();
        assert forall|p: Seq<char>| #[trigger]
            as_map(vs).dom().contains(p) implies (exists|i: int|
            0 <= i < vs.len() && vs[i].0 == p) by {
            if p == vs.last().0 {
                assert(vs[vs.len() - 1].0 == p);
            } else {
                assert(as_map(t).dom().contains(p));
                let i = choose|i: int| 0 <= i < t.len() && t[i].0 == p;
                assert(vs[i].0 == p);
            }
        }
        assert forall|p: Seq<char>| (exists|i: int| 0 <= i < vs.len() && vs[i].0 == p) implies #[trigger]
            as_map(vs).dom().contains(p) by {
            let i = choose|i: int| 0 <= i < vs.len() && vs[i].0 == p;
            if i < vs.len() - 1 {
                assert(t[i].0 == p);
                assert(as_map(t).dom().contains(p));
            }
        }
    }
}

/// With distinct paths, the entry for a path gives the map's value there.
pub proof fn lemma_as_map_value(vs: Seq<(Seq<char>, Seq<u8>)>, i: int)
    requires
        paths_unique(vs),
        0 <= i < vs.len(),
    ensures
        as_map(vs).dom().contains(vs[i].0),
        as_map(vs)[vs[i].0] == vs[i].1,
    decreases vs.len(),
{
    lemma_as_map_dom(vs);
    if i < vs.len() - 1 {
        let t = vs.drop_last();
        assert(t[i] == vs[i]);
        lemma_as_map_value(t, i);
        assert(vs.last().0 != vs[i].0);
    }
}

/// Replacing the entry that names a path updates the map at that path.
proof fn lemma_as_map_update(vs: Seq<(Seq<char>, Seq<u8>)>, i: int, v: (Seq<char>, Seq<u8>))
    requires
        paths_unique(vs),
        0 <= i < vs.len(),
        vs[i].0 == v.0,
    ensures
        as_map(vs.update(i, v)) == as_map(vs).insert(v.0, v.1),
    decreases vs.len(),
{
    let u = vs.update(i, v);
    if i == vs.len() - 1 {
        assert(u.drop_last() =~= vs.drop_last());
        assert(u.last() == v);
        assert(as_map(u) =~= as_map(vs).insert(v.0, v.1));
    } else {
        let t = vs.drop_last();
        assert(u.drop_last() =~= t.update(i, v));
        assert(u.last() == vs.last());
        assert(t[i] == vs[i]);
        lemma_as_map_update(t, i, v);
        assert(vs.last().0 != v.0);
        assert(as_map(u) =~= as_map(vs).insert(v.0, v.1));
    }
}

/// The file tree model.
pub struct FsModel {
    pub files: Vec<FsFile>,
}

impl View for FsModel {
    type V = Map<Seq<char>, Seq<u8>>;

    open spec fn view(&self) -> Map<Seq<char>, Seq<u8>> {
        as_map(file_views(self.files@))
    }
}

/// The map after a sequence of writes: each entry in turn sets its path to
/// its data.
pub open spec fn apply_writes(
    m: Map<Seq<char>, Seq<u8>>,
    ps: Seq<(Seq<char>, Seq<u8>)>,
) -> Map<Seq<char>, Seq<u8>>
    decreases ps.len(),
{
    if ps.len() == 0 {
        m
    } else {
        apply_writes(m, ps.drop_last()).insert(ps.last().0, ps.last().1)
    }
}

/// Whether some write in the sequence names the path.
pub open spec fn writes_path(ps: Seq<(Seq<char>, Seq<u8>)>, p: Seq<char>) -> bool {
    exists|i: int| 0 <= i < ps.len() && ps[i].0 == p
}

/// After a sequence of writes, a path is present exactly when it was
/// present before or some write names it; a path no write names keeps its
/// old contents.
pub proof fn lemma_apply_writes_dom(m: Map<Seq<char>, Seq<u8>>, ps: Seq<(Seq<char>, Seq<u8>)>)
    ensures
        forall|p: Seq<char>| #[trigger]
            apply_writes(m, ps).dom().contains(p) <==> (m.dom().contains(p) || writes_path(
                ps,
                p,
            )),
        forall|p: Seq<char>|
            m.dom().contains(p) && !writes_path(ps, p) ==> #[trigger] apply_writes(m, ps)[p]
                == m[p],
    decreases ps.len(),
{
    broadcast use vstd::map::group_map_axioms;

    if ps.len() == 0 {
        assert forall|p: Seq<char>| !writes_path(ps, p) by {}
    } else {
        let t = ps.drop_last();
        let last = ps.last();
        lemma_apply_writes_dom(m, t);
        assert(apply_writes(m, ps) == apply_writes(m, t).insert(last.0, last.1));
        assert forall|p: Seq<char>|
            writes_path(ps, p) <==> (writes_path(t, p) || last.0 == p) by {
            if writes_path(ps, p) {
                let i = choose|i: int| 0 <= i < ps.len() && ps[i].0 == p;
                if i < ps.len() - 1 {
                    assert(t[i].0 == p);
                }
            }
            if writes_path(t, p) {
                let i = choose|i: int| 0 <= i < t.len() && t[i].0 == p;
                assert(ps[i].0 == p);
            }
            if last.0 == p {
                assert(ps[ps.len() - 1].0 == p);
            }
        }
        assert forall|p: Seq<char>| #[trigger]
            apply_writes(m, ps).dom().contains(p) <==> (m.dom().contains(p) || writes_path(
            ps,
            p,
        )) by {
            assert(apply_writes(m, ps).dom().contains(p) <==> (apply_writes(
                m,
                t,
            ).dom().contains(p) || p == last.0));
        }
        assert forall|p: Seq<char>|
            m.dom().contains(p) && !writes_path(ps, p) implies #[trigger] apply_writes(m, ps)[p]
            == m[p] by {
            assert(p != last.0);
            assert(apply_writes(m, ps)[p] == apply_writes(m, t)[p]);
        }
    }
}

impl FsModel {
    /// The records hold pairwise distinct paths.
    pub open spec fn wf(self) -> bool {
        paths_unique(file_views(self.files@))
    }

    /// An empty tree.
    pub fn new() -> (r: FsModel)
        ensures
            r.wf(),
            r@ == Map::<Seq<char>, Seq<u8>>::empty(),
    {
        FsModel { files: Vec::new() }
    }

    /// Writes one file, replacing any file already at that path.
    pub fn write(&mut self, path: Vec<char>, data: Vec<u8>)
        requires
            old(self).wf(),
        ensures
            final(self).wf(),
            final(self)@ == old(self)@.insert(path@, data@),
    {
        let ghost vs = file_views(self.files@);
        let n = self.files.len();
        let mut i: usize = 0;
        while i < n
            invariant
                i <= n == self.files@.len(),
                *self == *old(self),
                vs == file_views(self.files@),
                old(self).wf(),
                forall|j: int| 0 <= j < i ==> file_views(self.files@)[j].0 != path@,
            decreases n - i,
        {
            if eq_chars(&self.files[i].path, &path) {
                let f = FsFile { path, data };
                proof {
                    lemma_as_map_update(vs, i as int, (f.path@, f.data@));
                }
                self.files.set(i, f);
                proof {
                    let ws = file_views(self.files@);
                    assert(ws =~= vs.update(
                        i as int,
                        (self.files@[i as int].path@, self.files@[i as int].data@),
                    ));
                    assert forall|k: int| 0 <= k < ws.len() implies #[trigger] ws[k].0
                        == vs[k].0 by {}
                    assert(paths_unique(ws));
                }
                return ;
            }
            i = i + 1;
        }
        self.files.push(FsFile { path, data });
        proof {
            let ws = file_views(self.files@);
            assert(ws =~= vs.push((path@, data@)));
            assert(ws.drop_last() =~= vs);
            assert(as_map(ws) == as_map(vs).insert(path@, data@));
        }
    }

    /// Applies a sequence of writes, in order.
    pub fn apply(&mut self, ps: &Vec<FsFile>)
        requires
            old(self).wf(),
        ensures
            final(self).wf(),
            final(self)@ == apply_writes(old(self)@, file_views(ps@)),
    {
        let n = ps.len();
        let mut i: usize = 0;
        while i < n
            invariant
                i <= n == ps@.len(),
                self.wf(),
                self@ == apply_writes(old(self)@, file_views(ps@).take(i as int)),
            decreases n - i,
        {
            let path = copy_vec(&ps[i].path);
            let data = copy_vec(&ps[i].data);
            proof {
                assert(path@ == file_views(ps@)[i as int].0 && data@ == file_views(
                    ps@,
                )[i as int].1);
            }
            self.write(path, data);
            proof {
                let pv = file_views(ps@);
                assert(pv.take(i + 1).drop_last() =~= pv.take(i as int));
                assert(pv.take(i + 1).last() == pv[i as int]);
            }
            i = i + 1;
        }
        proof {
            assert(file_views(ps@).take(n as int) =~= file_views(ps@));
        }
    }

    /// Whether a file exists at the path.
    pub fn contains_path(&self, path: &Vec<char>) -> (r: bool)
        ensures
            r == self@.dom().contains(path@),
    {
        proof {
            lemma_as_map_dom(file_views(self.files@));
        }
        let n = self.files.len();
        let mut i: usize = 0;
        while i < n
            invariant
                i <= n == self.files@.len(),
                forall|j: int| 0 <= j < i ==> file_views(self.files@)[j].0 != path@,
                self@.dom().contains(path@) <==> exists|k: int|
                    0 <= k < file_views(self.files@).len() && file_views(self.files@)[k].0
                        == path@,
            decreases n - i,
        {
            if eq_chars(&self.files[i].path, &path) {
                proof {
                    assert(file_views(self.files@)[i as int].0 == path@);
                }
                return true;
            }
            i = i + 1;
        }
        return false;
    }

    /// The bytes of the file at the path, if one exists.
    pub fn read(&self, path: &Vec<char>) -> (r: Option<&Vec<u8>>)
        requires
            self.wf(),
        ensures
            match r {
                Some(d) => self@.dom().contains(path@) && d@ == self@[path@],
                None => !self@.dom().contains(path@),
            },
    {
        proof {
            lemma_as_map_dom(file_views(self.files@));
        }
        let n = self.files.len();
        let mut i: usize = 0;
        while i < n
            invariant
                i <= n == self.files@.len(),
                self.wf(),
                forall|j: int| 0 <= j < i ==> file_views(self.files@)[j].0 != path@,
                self@.dom().contains(path@) <==> exists|k: int|
                    0 <= k < file_views(self.files@).len() && file_views(self.files@)[k].0
                        == path@,
            decreases n - i,
    {
            if eq_chars(&self.files[i].path, &path) {
                proof {
                    lemma_as_map_value(file_views(self.files@), i as int);
                }
                return Some(&self.files[i].data);
            }
            i = i + 1;
        }
        return None;
    }
}

} // verus!
