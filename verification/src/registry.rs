//! Parser for the text that a Windows registry query for Steam's
//! `InstallPath` value prints.
//!
//! A line names a candidate when it mentions the `InstallPath` value and the
//! `REG_SZ` type; the candidate is the trimmed text between the first
//! `REG_SZ` and the next one (or the end of the line).

use vstd::prelude::*;

use crate::text::{
    chars_of, find_pattern, find_sub, seq_views, spec_lines, split_lines, sub_chars, trim,
    trim_spec,
};

verus! {

/// The registry value name that holds Steam's installation path.
pub open spec fn install_path_key() -> Seq<char> {
    "InstallPath"@
}

/// The registry type tag that precedes the value text.
pub open spec fn reg_type_key() -> Seq<char> {
    "REG_SZ"@
}

/// The installation path candidate a single output line contributes, if any.
pub open spec fn reg_line_path(line: Seq<char>) -> Option<Seq<char>> {
    if find_sub(line, install_path_key()) is Some {
        match find_sub(line, reg_type_key()) {
            Some(i) => {
                let a = line.skip(i + reg_type_key().len());
                match find_sub(a, reg_type_key()) {
                    Some(j) => Some(trim_spec(a.take(j))),
                    None => Some(trim_spec(a)),
                }
            },
            None => None,
        }
    } else {
        None
    }
}

/// The candidates contributed by a sequence of lines, in order.
pub open spec fn collect_reg_paths(lines: Seq<Seq<char>>) -> Seq<Seq<char>> {
    lines.filter_map(|l: Seq<char>| reg_line_path(l))
}

/// The installation path candidates of a whole query output, in line order.
pub open spec fn install_path_candidates(content: Seq<char>) -> Seq<Seq<char>> {
    collect_reg_paths(spec_lines(content))
}

/// Parses one line of the query output.
pub fn parse_reg_line(line: &Vec<char>) -> (r: Option<Vec<char>>)
    ensures
        match r {
            Some(v) => reg_line_path(line@) == Some(v@),
            None => reg_line_path(line@) is None,
        },
{
    let name_key = chars_of("InstallPath");
    let type_key = chars_of("REG_SZ");
    if find_pattern(line, &name_key).is_none() {
        return None;
    }
    match find_pattern(line, &type_key) {
        Some(i) => {
            proof {
                crate::text::lemma_find_sub(line@, type_key@);
            }
            assert(i + type_key@.len() <= line@.len());
            assert(line@.len() == line.len());
            let a = sub_chars(line, i + type_key.len(), line.len());
            proof {
                assert(a@ =~= line@.skip(i + type_key@.len()));
            }
            match find_pattern(&a, &type_key) {
                Some(j) => {
                    proof {
                        crate::text::lemma_find_sub(a@, type_key@);
                    }
                    assert(j <= a@.len() && a@.len() == a.len());
                    let raw = sub_chars(&a, 0, j);
                    proof {
                        assert(raw@ =~= a@.take(j as int));
                    }
                    Some(trim(&raw))
                },
                None => Some(trim(&a)),
            }
        },
        None => None,
    }
}

/// Parses a whole query output: every line's candidate, in order; other
/// lines are skipped.
pub fn parse_install_paths(content: &Vec<char>) -> (r: Vec<Vec<char>>)
    ensures
        seq_views(r@) == install_path_candidates(content@),
{
    let lines = split_lines(content);
    let n = lines.len();
    let mut out: Vec<Vec<char>> = Vec::new();
    proof {
        assert(seq_views(lines@).take(0) =~= Seq::<Seq<char>>::empty());
        assert(seq_views(out@) =~= collect_reg_paths(seq_views(lines@).take(0)));
    }
    let mut i: usize = 0;
    while i < n
        invariant
            i <= n == lines@.len(),
            seq_views(lines@) == spec_lines(content@),
            seq_views(out@) == collect_reg_paths(seq_views(lines@).take(i as int)),
        decreases n - i,
    {
        let ghost prev = seq_views(out@);
        let ghost lv = seq_views(lines@);
        match parse_reg_line(&lines[i]) {
            Some(p) => {
                out.push(p);
                proof {
                    assert(seq_views(out@) =~= prev.push(p@));
                }
            },
            None => {},
        }
        proof {
            assert(lv.take(i + 1).drop_last() =~= lv.take(i as int));
            assert(lv.take(i + 1).last() == lines@[i as int]@);
            match reg_line_path(lines@[i as int]@) {
                Some(v) => {
                    assert(collect_reg_paths(lv.take(i + 1)) =~= collect_reg_paths(
                        lv.take(i as int),
                    ) + seq![v]);
                    assert(seq_views(out@) =~= collect_reg_paths(lv.take(i as int)) + seq![v]);
                },
                None => {
                    assert(collect_reg_paths(lv.take(i + 1)) == collect_reg_paths(
                        lv.take(i as int),
                    ));
                },
            }
        }
        i = i + 1;
    }
    proof {
        assert(seq_views(lines@).take(n as int) =~= seq_views(lines@));
    }
    out
}

} // verus!
