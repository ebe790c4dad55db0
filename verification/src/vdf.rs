//! Tolerant, line-oriented parser for Steam's `libraryfolders.vdf` descriptor.
//!
//! Each line that starts (after trimming) with a quoted `path` key yields the
//! quoted value with doubled backslashes collapsed; every other line is
//! skipped. A malformed line never aborts the scan.

use vstd::prelude::*;

use crate::text::{
    chars_of, find_ch, find_char_from, has_prefix, seq_views, spec_lines, split_lines, starts_with,
    sub_chars, trim, trim_spec, unescape_backslashes, unescape_spec,
};

verus! {

/// The quoted key that introduces a library path entry.
pub open spec fn path_key() -> Seq<char> {
    "\"path\""@
}

/// The library path a single line contributes, if any: the line must start
/// (after trimming) with the quoted `path` key, followed by a quoted value;
/// the value is taken with doubled backslashes collapsed.
pub open spec fn line_path(line: Seq<char>) -> Option<Seq<char>> {
    let t = trim_spec(line);
    if has_prefix(t, path_key()) {
        let a = trim_spec(t.skip(path_key().len() as int));
        match find_ch(a, '"') {
            Some(q1) => {
                let v = a.skip(q1 + 1);
                match find_ch(v, '"') {
                    Some(q2) => Some(unescape_spec(v.take(q2))),
                    None => None,
                }
            },
            None => None,
        }
    } else {
        None
    }
}

/// The paths contributed by a sequence of lines, in order.
pub open spec fn collect_paths(lines: Seq<Seq<char>>) -> Seq<Seq<char>> {
    lines.filter_map(|l: Seq<char>| line_path(l))
}

/// The library paths of a whole descriptor, in line order.
pub open spec fn library_paths(content: Seq<char>) -> Seq<Seq<char>> {
    collect_paths(spec_lines(content))
}

/// Parses one line of the descriptor.
pub fn parse_line_path(line: &Vec<char>) -> (r: Option<Vec<char>>)
    ensures
        match r {
            Some(v) => line_path(line@) == Some(v@),
            None => line_path(line@) is None,
        },
{
    let key = chars_of("\"path\"");
    let t = trim(line);
    if !starts_with(&t, &key) {
        return None;
    }
    let after = sub_chars(&t, key.len(), t.len());
    proof {
        assert(after@ =~= t@.skip(key@.len() as int));
    }
    let a = trim(&after);
    proof {
        assert(a@.skip(0) =~= a@);
    }
    match find_char_from(&a, 0, '"') {
        Some(q1) => {
            let v = sub_chars(&a, q1 + 1, a.len());
            proof {
                assert(v@ =~= a@.skip(q1 + 1));
                assert(v@.skip(0) =~= v@);
            }
            match find_char_from(&v, 0, '"') {
                Some(q2) => {
                    let raw = sub_chars(&v, 0, q2);
                    proof {
                        assert(raw@ =~= v@.take(q2 as int));
                    }
                    Some(unescape_backslashes(&raw))
                },
                None => None,
            }
        },
        None => None,
    }
}

/// Parses a whole descriptor: every line's contribution, in order; malformed
/// lines are skipped.
pub fn parse_library_paths(content: &Vec<char>) -> (r: Vec<Vec<char>>)
    ensures
        seq_views(r@) == library_paths(content@),
{
    let lines = split_lines(content);
    let n = lines.len();
    let mut out: Vec<Vec<char>> = Vec::new();
    proof {
        assert(seq_views(lines@).take(0) =~= Seq::<Seq<char>>::empty());
        assert(seq_views(out@) =~= collect_paths(seq_views(lines@).take(0)));
    }
    let mut i: usize = 0;
    while i < n
        invariant
            i <= n == lines@.len(),
            seq_views(lines@) == spec_lines(content@),
            seq_views(out@) == collect_paths(seq_views(lines@).take(i as int)),
        decreases n - i,
    {
        let ghost prev = seq_views(out@);
        let ghost lv = seq_views(lines@);
        match parse_line_path(&lines[i]) {
            Some(p) => {
                out.push(p);
                proof {
                    assert(seq_views(out@) =~= prev.push(p@));
                }
            },
            None => {},
        }
        proof {
            assert(lv.take(i + 1).drop_last() =~= lv.take(i as int));
            assert(lv.take(i + 1).last() == lines@[i as int]@);
            match line_path(lines@[i as int]@) {
                Some(v) => {
                    assert(collect_paths(lv.take(i + 1)) =~= collect_paths(lv.take(i as int))
                        + seq![v]);
                    assert(seq_views(out@) =~= collect_paths(lv.take(i as int)) + seq![v]);
                },
                None => {
                    assert(collect_paths(lv.take(i + 1)) == collect_paths(lv.take(i as int)));
                },
            }
        }
        i = i + 1;
    }
    proof {
        assert(seq_views(lines@).take(n as int) =~= seq_views(lines@));
    }
    out
}

/// A line contributes a path exactly when `line_path` accepts it; over a whole
/// descriptor, the number of paths collected equals the number of accepting
/// lines: malformed lines are skipped without aborting the scan.
pub proof fn lemma_collect_paths_counts(lines: Seq<Seq<char>>)
    ensures
        collect_paths(lines).len() == lines.filter(|l: Seq<char>| line_path(l) is Some).len(),
    decreases lines.len(),
{
    reveal_with_fuel(Seq::filter, 2);
    if lines.len() > 0 {
        lemma_collect_paths_counts(lines.drop_last());
    }
}

} // verus!
