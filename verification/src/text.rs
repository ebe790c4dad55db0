//! Character-sequence utilities shared by the parsers and path builders.
//!
//! Paths and file text are modelled as vectors of characters, so that the
//! specification of every operation can be stated over `Seq<char>`.

use vstd::prelude::*;

verus! {

/// ASCII whitespace, as the line parsers understand it.
pub open spec fn is_space_char(c: char) -> bool {
    c == ' ' || c == '\t' || c == '\r' || c == '\n'
}

/// Index of the first occurrence of `c` in `s`, if any.
pub open spec fn find_ch(s: Seq<char>, c: char) -> Option<int>
    decreases s.len(),
{
    if s.len() == 0 {
        None
    } else if s[0] == c {
        Some(0)
    } else {
        match find_ch(s.drop_first(), c) {
            Some(i) => Some(i + 1),
            None => None,
        }
    }
}

/// `find_ch` returns the first occurrence: the hit is in range and holds `c`,
/// and nothing before it does; `None` means `c` does not occur at all.
pub proof fn lemma_find_ch(s: Seq<char>, c: char)
    ensures
        match find_ch(s, c) {
            Some(i) => 0 <= i < s.len() && s[i] == c && forall|j: int| 0 <= j < i ==> s[j] != c,
            None => forall|j: int| 0 <= j < s.len() ==> s[j] != c,
        },
    decreases s.len(),
{
    if s.len() > 0 && s[0] != c {
        let t = s.drop_first();
        lemma_find_ch(t, c);
        match find_ch(t, c) {
            Some(i) => {
                assert(s[i + 1] == t[i]);
                assert forall|j: int| 0 <= j < i + 1 implies s[j] != c by {
                    if j > 0 {
                        assert(t[j - 1] == s[j]);
                    }
                }
            },
            None => {
                assert forall|j: int| 0 <= j < s.len() implies s[j] != c by {
                    if j > 0 {
                        assert(t[j - 1] == s[j]);
                    }
                }
            },
        }
    }
}

/// The pattern `p` occurs in `s` starting at index `i`.
pub open spec fn matches_at(s: Seq<char>, p: Seq<char>, i: int) -> bool {
    0 <= i && i + p.len() <= s.len() && forall|k: int| 0 <= k < p.len() ==> s[i + k] == p[k]
}

/// Index of the first occurrence of the pattern `p` in `s`, if any.
pub open spec fn find_sub(s: Seq<char>, p: Seq<char>) -> Option<int>
    decreases s.len(),
{
    if matches_at(s, p, 0) {
        Some(0)
    } else if s.len() == 0 {
        None
    } else {
        match find_sub(s.drop_first(), p) {
            Some(i) => Some(i + 1),
            None => None,
        }
    }
}

/// `find_sub` returns the first occurrence of the pattern, and `None` exactly
/// when the pattern occurs nowhere.
pub proof fn lemma_find_sub(s: Seq<char>, p: Seq<char>)
    ensures
        match find_sub(s, p) {
            Some(i) => matches_at(s, p, i) && forall|j: int| 0 <= j < i ==> !matches_at(s, p, j),
            None => forall|j: int| 0 <= j <= s.len() ==> !matches_at(s, p, j),
        },
    decreases s.len(),
{
    if !matches_at(s, p, 0) && s.len() > 0 {
        let t = s.drop_first();
        lemma_find_sub(t, p);
        match find_sub(t, p) {
            Some(i) => {
                lemma_matches_shift(s, p, i);
                assert forall|j: int| 0 <= j < i + 1 implies !matches_at(s, p, j) by {
                    if j > 0 {
                        lemma_matches_shift(s, p, j - 1);
                    }
                }
            },
            None => {
                assert forall|j: int| 0 <= j <= s.len() implies !matches_at(s, p, j) by {
                    if j > 0 {
                        lemma_matches_shift(s, p, j - 1);
                    }
                }
            },
        }
    }
}

/// Occurrences in the tail of a sequence sit one position later in the whole.
proof fn lemma_matches_shift(s: Seq<char>, p: Seq<char>, j: int)
    requires
        s.len() > 0,
        0 <= j,
    ensures
        matches_at(s.drop_first(), p, j) <==> matches_at(s, p, j + 1),
{
    let t = s.drop_first();
    if matches_at(t, p, j) {
        assert forall|k: int| 0 <= k < p.len() implies s[j + 1 + k] == p[k] by {
            assert(t[j + k] == s[j + 1 + k]);
        }
    }
    if matches_at(s, p, j + 1) {
        assert forall|k: int| 0 <= k < p.len() implies t[j + k] == p[k] by {
            assert(t[j + k] == s[j + 1 + k]);
        }
    }
}

/// `p` is a prefix of `s`.
pub open spec fn has_prefix(s: Seq<char>, p: Seq<char>) -> bool {
    matches_at(s, p, 0)
}

/// The views of a sequence of character vectors.
pub open spec fn seq_views(vs: Seq<Vec<char>>) -> Seq<Seq<char>> {
    vs.map_values(|v: Vec<char>| v@)
}

/// The views of a sequence of strings.
pub open spec fn str_views(vs: Seq<String>) -> Seq<Seq<char>> {
    vs.map_values(|v: String| v@)
}

/// `s` with leading whitespace removed.
pub open spec fn trim_start_rec(s: Seq<char>) -> Seq<char>
    decreases s.len(),
{
    if s.len() > 0 && is_space_char(s[0]) {
        trim_start_rec(s.drop_first())
    } else {
        s
    }
}

/// `s` with trailing whitespace removed.
pub open spec fn trim_end_rec(s: Seq<char>) -> Seq<char>
    decreases s.len(),
{
    if s.len() > 0 && is_space_char(s.last()) {
        trim_end_rec(s.drop_last())
    } else {
        s
    }
}

/// `s` with whitespace removed from both ends.
pub open spec fn trim_spec(s: Seq<char>) -> Seq<char> {
    trim_end_rec(trim_start_rec(s))
}

/// If everything before `a` is whitespace and `a` sits on the first
/// non-whitespace character (or at the end), trimming the start keeps
/// exactly the suffix from `a`.
proof fn lemma_trim_start_at(s: Seq<char>, a: int)
    requires
        0 <= a <= s.len(),
        forall|j: int| 0 <= j < a ==> is_space_char(s[j]),
        a < s.len() ==> !is_space_char(s[a]),
    ensures
        trim_start_rec(s) == s.skip(a),
    decreases a,
{
    if a == 0 {
        assert(s.skip(0) =~= s);
    } else {
        let t = s.drop_first();
        assert forall|j: int| 0 <= j < a - 1 implies is_space_char(t[j]) by {
            assert(t[j] == s[j + 1]);
        }
        assert(a - 1 < t.len() ==> t[a - 1] == s[a]);
        lemma_trim_start_at(t, a - 1);
        assert(t.skip(a - 1) =~= s.skip(a));
    }
}

/// If everything from `b` on is whitespace and `b` sits just past the last
/// non-whitespace character (or at the start), trimming the end keeps
/// exactly the prefix up to `b`.
proof fn lemma_trim_end_at(s: Seq<char>, b: int)
    requires
        0 <= b <= s.len(),
        forall|j: int| b <= j < s.len() ==> is_space_char(s[j]),
        b > 0 ==> !is_space_char(s[b - 1]),
    ensures
        trim_end_rec(s) == s.take(b),
    decreases s.len() - b,
{
    if b == s.len() {
        assert(s.take(b) =~= s);
    } else {
        let t = s.drop_last();
        assert(is_space_char(s.last()));
        assert forall|j: int| b <= j < t.len() implies is_space_char(t[j]) by {
            assert(t[j] == s[j]);
        }
        lemma_trim_end_at(t, b);
        assert(t.take(b) =~= s.take(b));
    }
}

/// Whether `c` is ASCII whitespace.
pub fn is_space(c: char) -> (r: bool)
    ensures
        r == is_space_char(c),
{
    c == ' ' || c == '\t' || c == '\r' || c == '\n'
}

/// A copy of `s[a..b]`.
pub fn sub_chars(s: &Vec<char>, a: usize, b: usize) -> (r: Vec<char>)
    requires
        a <= b <= s@.len(),
    ensures
        r@ == s@.subrange(a as int, b as int),
{
    let mut r: Vec<char> = Vec::new();
    let mut i: usize = a;
    while i < b
        invariant
            a <= i <= b <= s@.len(),
            r@ == s@.subrange(a as int, i as int),
        decreases b - i,
    {
        r.push(s[i]);
        assert(r@ =~= s@.subrange(a as int, i + 1));
        i = i + 1;
    }
    r
}

/// A copy of `s` with whitespace removed from both ends.
pub fn trim(s: &Vec<char>) -> (r: Vec<char>)
    ensures
        r@ == trim_spec(s@),
{
    let n = s.len();
    let mut a: usize = 0;
    while a < n && is_space(s[a])
        invariant
            a <= n == s@.len(),
            forall|j: int| 0 <= j < a ==> is_space_char(s@[j]),
        decreases n - a,
    {
        a = a + 1;
    }
    proof {
        lemma_trim_start_at(s@, a as int);
    }
    let mut b: usize = n;
    while b > a && is_space(s[b - 1])
        invariant
            a <= b <= n == s@.len(),
            forall|j: int| b <= j < n ==> is_space_char(s@[j]),
        decreases b,
    {
        b = b - 1;
    }
    proof {
        let t = s@.skip(a as int);
        assert forall|j: int| b - a <= j < t.len() implies is_space_char(t[j]) by {
            assert(t[j] == s@[a + j]);
        }
        assert(b > a ==> t[b - a - 1] == s@[b - 1]);
        lemma_trim_end_at(t, b - a);
        assert(t.take(b - a) =~= s@.subrange(a as int, b as int));
    }
    sub_chars(s, a, b)
}

/// Appends all of `src` to `dst`.
pub fn append_all(dst: &mut Vec<char>, src: &Vec<char>)
    ensures
        final(dst)@ == old(dst)@ + src@,
{
    let n = src.len();
    let mut i: usize = 0;
    while i < n
        invariant
            i <= n == src@.len(),
            dst@ == old(dst)@ + src@.take(i as int),
        decreases n - i,
    {
        dst.push(src[i]);
        assert(dst@ =~= old(dst)@ + src@.take(i + 1));
        i = i + 1;
    }
    assert(dst@ =~= old(dst)@ + src@);
}

/// `rel` appended to `base` with a separator; an empty `base` gives `rel` alone.
pub open spec fn join_spec(base: Seq<char>, rel: Seq<char>) -> Seq<char> {
    if base.len() == 0 {
        rel
    } else {
        base + seq!['/'] + rel
    }
}

/// The path `rel` under the directory `base`, separated by `/`.
pub fn join_path(base: &Vec<char>, rel: &Vec<char>) -> (r: Vec<char>)
    ensures
        r@ == join_spec(base@, rel@),
{
    let mut r: Vec<char> = Vec::new();
    if base.len() == 0 {
        append_all(&mut r, rel);
        assert(r@ =~= rel@);
        return r;
    }
    append_all(&mut r, base);
    r.push('/');
    append_all(&mut r, rel);
    assert(r@ =~= base@ + seq!['/'] + rel@);
    r
}

/// `s` with every doubled backslash collapsed to a single one, left to right.
pub open spec fn unescape_spec(s: Seq<char>) -> Seq<char>
    decreases s.len(),
{
    if s.len() >= 2 && s[0] == '\\' && s[1] == '\\' {
        seq!['\\'] + unescape_spec(s.skip(2))
    } else if s.len() > 0 {
        seq![s[0]] + unescape_spec(s.skip(1))
    } else {
        Seq::empty()
    }
}

/// A copy of `s` with doubled backslashes collapsed.
pub fn unescape_backslashes(s: &Vec<char>) -> (r: Vec<char>)
    ensures
        r@ == unescape_spec(s@),
{
    let n = s.len();
    let mut r: Vec<char> = Vec::new();
    proof {
        assert(s@.skip(0) =~= s@);
        assert(r@ + unescape_spec(s@) =~= unescape_spec(s@));
    }
    let mut i: usize = 0;
    while i < n
        invariant
            i <= n == s@.len(),
            r@ + unescape_spec(s@.skip(i as int)) == unescape_spec(s@),
        decreases n - i,
    {
        let ghost prefix = r@;
        let ghost rest = s@.skip(i as int);
        if s[i] == '\\' && i + 1 < n && s[i + 1] == '\\' {
            r.push('\\');
            proof {
                assert(rest[0] == '\\' && rest[1] == '\\');
                assert(rest.skip(2) =~= s@.skip(i + 2));
                assert(r@ + unescape_spec(s@.skip(i + 2)) =~= prefix + unescape_spec(rest));
            }
            i = i + 2;
        } else {
            r.push(s[i]);
            proof {
                assert(rest[0] == s@[i as int]);
                assert(rest.skip(1) =~= s@.skip(i + 1));
                assert(r@ + unescape_spec(s@.skip(i + 1)) =~= prefix + unescape_spec(rest));
            }
            i = i + 1;
        }
    }
    proof {
        assert(s@.skip(n as int) =~= Seq::<char>::empty());
        assert(r@ + unescape_spec(s@.skip(n as int)) =~= r@);
    }
    r
}

/// Whether `p` occurs in `s` starting at `i`.
pub fn matches_at_exec(s: &Vec<char>, p: &Vec<char>, i: usize) -> (r: bool)
    requires
        i + p@.len() <= s@.len(),
    ensures
        r == matches_at(s@, p@, i as int),
{
    let n = p.len();
    let sn = s.len();
    let mut k: usize = 0;
    while k < n
        invariant
            k <= n == p@.len(),
            sn == s@.len(),
            i + n <= sn,
            forall|j: int| 0 <= j < k ==> s@[i + j] == p@[j],
        decreases n - k,
    {
        if s[i + k] != p[k] {
            return false;
        }
        k = k + 1;
    }
    true
}

/// First occurrence of the pattern `p` in `s`.
pub fn find_pattern(s: &Vec<char>, p: &Vec<char>) -> (r: Option<usize>)
    ensures
        match r {
            Some(i) => find_sub(s@, p@) == Some(i as int),
            None => find_sub(s@, p@) is None,
        },
{
    proof {
        lemma_find_sub(s@, p@);
    }
    if p.len() > s.len() {
        return None;
    }
    if p.len() == 0 {
        return Some(0);
    }
    let sn = s.len();
    let last = sn - p.len();
    let mut i: usize = 0;
    while i <= last
        invariant
            i <= last + 1,
            sn == s@.len(),
            last == s@.len() - p@.len(),
            0 < p@.len() <= s@.len(),
            last < sn,
            forall|j: int| 0 <= j < i ==> !matches_at(s@, p@, j),
        decreases last - i + 1,
    {
        if matches_at_exec(s, p, i) {
            proof {
                lemma_find_sub(s@, p@);
                match find_sub(s@, p@) {
                    Some(i0) => {
                        if i0 < i {
                            assert(!matches_at(s@, p@, i0));
                        } else if i < i0 {
                            assert(matches_at(s@, p@, i as int));
                        }
                    },
                    None => {
                        assert(matches_at(s@, p@, i as int));
                    },
                }
            }
            return Some(i);
        }
        i = i + 1;
    }
    assert forall|j: int| 0 <= j <= s@.len() implies !matches_at(s@, p@, j) by {}
    None
}

/// `s` split on newline characters; a trailing newline yields a final
/// empty line.
pub open spec fn spec_lines(s: Seq<char>) -> Seq<Seq<char>>
    decreases s.len(),
    via spec_lines_decreases
{
    match find_ch(s, '\n') {
        Some(i) => seq![s.take(i)] + spec_lines(s.skip(i + 1)),
        None => seq![s],
    }
}

#[via_fn]
proof fn spec_lines_decreases(s: Seq<char>) {
    lemma_find_ch(s, '\n');
}

/// The lines of `s`, split on `\n`.
pub fn split_lines(s: &Vec<char>) -> (r: Vec<Vec<char>>)
    ensures
        seq_views(r@) == spec_lines(s@),
{
    let mut out: Vec<Vec<char>> = Vec::new();
    proof {
        assert(s@.skip(0) =~= s@);
        assert(seq_views(out@) + spec_lines(s@) =~= spec_lines(s@));
    }
    let mut pos: usize = 0;
    loop
        invariant
            pos <= s@.len(),
            seq_views(out@) + spec_lines(s@.skip(pos as int)) == spec_lines(s@),
        decreases s@.len() - pos,
    {
        let ghost done = seq_views(out@);
        let ghost rest = s@.skip(pos as int);
        match find_char_from(s, pos, '\n') {
            Some(i) => {
                assert(i < s.len());
                let line = sub_chars(s, pos, i);
                out.push(line);
                proof {
                    assert(spec_lines(rest) == seq![rest.take(i - pos)] + spec_lines(
                        rest.skip(i - pos + 1),
                    ));
                    assert(line@ =~= rest.take(i - pos));
                    assert(rest.skip(i - pos + 1) =~= s@.skip(i + 1));
                    assert(seq_views(out@) =~= done.push(line@));
                    assert(seq_views(out@) + spec_lines(s@.skip(i + 1)) =~= done + spec_lines(
                        rest,
                    ));
                }
                pos = i + 1;
            },
            None => {
                let line = sub_chars(s, pos, s.len());
                out.push(line);
                proof {
                    assert(spec_lines(rest) == seq![rest]);
                    assert(line@ =~= rest);
                    assert(seq_views(out@) =~= done.push(line@));
                    assert(seq_views(out@) =~= done + spec_lines(rest));
                }
                return out;
            },
        }
    }
}

/// The last `/`-separated segment of a path.
pub open spec fn last_segment(p: Seq<char>) -> Seq<char>
    decreases p.len(),
    via last_segment_decreases
{
    match find_ch(p, '/') {
        Some(i) => last_segment(p.skip(i + 1)),
        None => p,
    }
}

#[via_fn]
proof fn last_segment_decreases(p: Seq<char>) {
    lemma_find_ch(p, '/');
}

/// With no separator from `b` on, and `b` just past a separator or at the
/// start, the last segment is exactly the suffix from `b`.
proof fn lemma_last_segment_at(p: Seq<char>, b: int)
    requires
        0 <= b <= p.len(),
        forall|j: int| b <= j < p.len() ==> p[j] != '/',
        b > 0 ==> p[b - 1] == '/',
    ensures
        last_segment(p) == p.skip(b),
    decreases p.len(),
{
    lemma_find_ch(p, '/');
    match find_ch(p, '/') {
        Some(i) => {
            assert(p[i] == '/');
            assert(i < b);
            let q = p.skip(i + 1);
            assert forall|j: int| b - i - 1 <= j < q.len() implies q[j] != '/' by {
                assert(q[j] == p[i + 1 + j]);
            }
            assert(b - i - 1 > 0 ==> q[b - i - 2] == p[b - 1]);
            lemma_last_segment_at(q, b - i - 1);
            assert(q.skip(b - i - 1) =~= p.skip(b));
        },
        None => {
            assert(b == 0);
            assert(p.skip(0) =~= p);
        },
    }
}

/// Splits a path at its last separator: the directory part (empty when
/// there is none) and the final segment.
pub fn split_last_segment(p: &Vec<char>) -> (r: (Vec<char>, Vec<char>))
    ensures
        r.1@ == last_segment(p@),
        find_ch(p@, '/') is Some ==> p@ == r.0@ + seq!['/'] + r.1@,
        find_ch(p@, '/') is None ==> r.0@.len() == 0 && r.1@ == p@,
{
    let n = p.len();
    let mut b: usize = n;
    while b > 0 && p[b - 1] != '/'
        invariant
            b <= n == p@.len(),
            forall|j: int| b <= j < n ==> p@[j] != '/',
        decreases b,
    {
        b = b - 1;
    }
    proof {
        lemma_last_segment_at(p@, b as int);
        lemma_find_ch(p@, '/');
    }
    let dir = if b == 0 {
        Vec::new()
    } else {
        sub_chars(p, 0, b - 1)
    };
    let base = sub_chars(p, b, n);
    proof {
        assert(base@ =~= p@.skip(b as int));
        if b > 0 {
            assert(p@[b - 1] == '/');
            assert(p@ =~= dir@ + seq!['/'] + base@);
        } else {
            match find_ch(p@, '/') {
                Some(i) => {
                    assert(p@[i] == '/');
                },
                None => {},
            }
            assert(base@ =~= p@);
        }
    }
    (dir, base)
}

/// The characters of `s`, as a vector.
pub fn chars_of(s: &str) -> (r: Vec<char>)
    ensures
        r@ == s@,
{
    let n = s.unicode_len();
    let mut r: Vec<char> = Vec::new();
    let mut i: usize = 0;
    while i < n
        invariant
            n == s@.len(),
            i <= n,
            r@ == s@.take(i as int),
        decreases n - i,
    {
        r.push(s.get_char(i));
        assert(r@ =~= s@.take(i + 1));
        i = i + 1;
    }
    assert(r@ =~= s@);
    r
}

/// A copy of a vector of plain values.
pub fn copy_vec<T: Copy>(v: &Vec<T>) -> (r: Vec<T>)
    ensures
        r@ == v@,
{
    let n = v.len();
    let mut r: Vec<T> = Vec::new();
    let mut i: usize = 0;
    while i < n
        invariant
            i <= n == v@.len(),
            r@ == v@.take(i as int),
        decreases n - i,
    {
        r.push(v[i]);
        assert(r@ =~= v@.take(i + 1));
        i = i + 1;
    }
    assert(r@ =~= v@);
    r
}

/// Whether the two vectors hold the same characters.
pub fn eq_chars(a: &Vec<char>, b: &Vec<char>) -> (r: bool)
    ensures
        r == (a@ == b@),
{
    if a.len() != b.len() {
        return false;
    }
    let n = a.len();
    let mut i: usize = 0;
    while i < n
        invariant
            n == a.len() == b.len(),
            i <= n,
            forall|j: int| 0 <= j < i ==> a@[j] == b@[j],
        decreases n - i,
    {
        if a[i] != b[i] {
            return false;
        }
        i = i + 1;
    }
    proof {
        assert(a@ =~= b@);
    }
    true
}

/// Whether `p` is a prefix of `s`.
pub fn starts_with(s: &Vec<char>, p: &Vec<char>) -> (r: bool)
    ensures
        r == has_prefix(s@, p@),
{
    if p.len() > s.len() {
        return false;
    }
    let n = p.len();
    let mut i: usize = 0;
    while i < n
        invariant
            n == p.len() <= s.len(),
            i <= n,
            forall|k: int| 0 <= k < i ==> s@[k] == p@[k],
        decreases n - i,
    {
        if s[i] != p[i] {
            return false;
        }
        i = i + 1;
    }
    true
}

/// First occurrence of `c` in `s` at or after `from`.
pub fn find_char_from(s: &Vec<char>, from: usize, c: char) -> (r: Option<usize>)
    requires
        from <= s@.len(),
    ensures
        match r {
            Some(i) => from <= i < s@.len() && s@[i as int] == c && find_ch(s@.skip(from as int), c)
                == Some(i - from),
            None => find_ch(s@.skip(from as int), c) is None,
        },
{
    proof {
        lemma_find_ch(s@.skip(from as int), c);
    }
    let n = s.len();
    let mut i: usize = from;
    while i < n
        invariant
            from <= i <= n == s@.len(),
            forall|j: int| from <= j < i ==> s@[j] != c,
        decreases n - i,
    {
        if s[i] == c {
            proof {
                let t = s@.skip(from as int);
                lemma_find_ch(t, c);
                assert(t[i - from] == c);
                assert forall|j: int| 0 <= j < i - from implies t[j] != c by {
                    assert(t[j] == s@[from + j]);
                }
            }
            return Some(i);
        }
        i = i + 1;
    }
    proof {
        let t = s@.skip(from as int);
        lemma_find_ch(t, c);
        assert forall|j: int| 0 <= j < t.len() implies t[j] != c by {
            assert(t[j] == s@[from + j]);
        }
    }
    None
}

} // verus!
