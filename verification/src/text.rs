//! Text preparation for test-case sources: splitting into lines and
//! stripping the common leading indentation, with an exact functional
//! specification.

use vstd::prelude::*;

verus! {

/// Whitespace characters recognized when trimming and measuring indent.
pub open spec fn spec_is_space(c: char) -> bool {
    c == ' ' || c == '\t' || c == '\r' || c == '\n'
}

/// Whether a line consists of whitespace only.
pub open spec fn spec_is_blank(l: Seq<char>) -> bool {
    forall|i: int| 0 <= i < l.len() ==> spec_is_space(#[trigger] l[i])
}

/// Index of the first non-space character at or after `i`, or the length
/// when the rest is all spaces.
pub open spec fn spec_leading_from(l: Seq<char>, i: int) -> int
    decreases l.len() - i,
{
    if i < 0 || i >= l.len() {
        l.len() as int
    } else if !spec_is_space(l[i]) {
        i
    } else {
        spec_leading_from(l, i + 1)
    }
}

/// Number of leading whitespace characters of a line.
pub open spec fn spec_leading(l: Seq<char>) -> int {
    spec_leading_from(l, 0)
}

/// Index of the first newline of `s`, or -1 when there is none.
pub open spec fn spec_first_newline(s: Seq<char>) -> int
    decreases s.len(),
{
    if s.len() == 0 {
        -1
    } else if s[0] == '\n' {
        0
    } else {
        let r = spec_first_newline(s.drop_first());
        if r < 0 {
            -1
        } else {
            r + 1
        }
    }
}

/// The lines of `s`, split on newline characters. The separators are not
/// kept; a trailing newline yields a final empty line.
pub open spec fn spec_lines(s: Seq<char>) -> Seq<Seq<char>>
    decreases s.len(),
{
    let i = spec_first_newline(s);
    if i < 0 || i >= s.len() {
        seq![s]
    } else {
        seq![s.take(i)] + spec_lines(s.skip(i + 1))
    }
}

/// A position with no newline before it and a newline (or the end) at it
/// pins down `spec_first_newline`.
proof fn lemma_first_newline_at(s: Seq<char>, k: int)
    requires
        0 <= k <= s.len(),
        forall|j: int| 0 <= j < k ==> s[j] != '\n',
        k < s.len() ==> s[k] == '\n',
    ensures
        spec_first_newline(s) == if k == s.len() {
            -1int
        } else {
            k
        },
    decreases s.len(),
{
    if s.len() == 0 {
    } else if s[0] == '\n' {
    } else {
        let t = s.drop_first();
        assert(forall|j: int| 0 <= j < k - 1 ==> #[trigger] t[j] == s[j + 1]);
        lemma_first_newline_at(t, k - 1);
    }
}

/// Splitting off the first line at such a position.
pub proof fn lemma_lines_at(s: Seq<char>, k: int)
    requires
        0 <= k <= s.len(),
        forall|j: int| 0 <= j < k ==> s[j] != '\n',
        k < s.len() ==> s[k] == '\n',
    ensures
        k == s.len() ==> spec_lines(s) == seq![s],
        k < s.len() ==> spec_lines(s) == seq![s.take(k)] + spec_lines(s.skip(k + 1)),
{
    lemma_first_newline_at(s, k);
}

/// The strip rule for one line: drop the common indent where the line is
/// long enough, otherwise drop all of its leading whitespace.
pub open spec fn spec_strip(l: Seq<char>, m: int) -> Seq<char> {
    if l.len() >= m {
        l.skip(m)
    } else {
        l.skip(spec_leading(l))
    }
}

/// Minimal leading indent over the non-blank lines of `ls`, or
/// `usize::MAX` when every line is blank.
pub open spec fn spec_min_indent(ls: Seq<Seq<char>>) -> int
    decreases ls.len(),
{
    if ls.len() == 0 {
        usize::MAX as int
    } else {
        let rest = spec_min_indent(ls.drop_last());
        if spec_is_blank(ls.last()) {
            rest
        } else if spec_leading(ls.last()) < rest {
            spec_leading(ls.last())
        } else {
            rest
        }
    }
}

/// The lines joined back with newlines.
pub open spec fn spec_join(ls: Seq<Seq<char>>) -> Seq<char>
    decreases ls.len(),
{
    if ls.len() == 0 {
        Seq::empty()
    } else if ls.len() == 1 {
        ls[0]
    } else {
        spec_join(ls.drop_last()) + seq!['\n'] + ls.last()
    }
}

/// Index of the first non-blank line at or after `i`, or -1.
pub open spec fn spec_first_nonblank(ls: Seq<Seq<char>>, i: int) -> int
    decreases ls.len() - i,
{
    if i < 0 || i >= ls.len() {
        -1
    } else if !spec_is_blank(ls[i]) {
        i
    } else {
        spec_first_nonblank(ls, i + 1)
    }
}

/// Index of the last non-blank line at or before `i`, or -1.
pub open spec fn spec_last_nonblank(ls: Seq<Seq<char>>, i: int) -> int
    decreases i + 1,
{
    if i < 0 || i >= ls.len() {
        -1
    } else if !spec_is_blank(ls[i]) {
        i
    } else {
        spec_last_nonblank(ls, i - 1)
    }
}

/// What `dedent` returns: leading and trailing blank lines removed, and
/// the smallest indent common to the non-blank lines stripped from every
/// kept line.
pub open spec fn spec_dedent(s: Seq<char>) -> Seq<char> {
    let ls = spec_lines(s);
    let f = spec_first_nonblank(ls, 0);
    if f < 0 {
        Seq::empty()
    } else {
        let g = spec_last_nonblank(ls, ls.len() - 1);
        let kept = ls.subrange(f, g + 1);
        let m = spec_min_indent(kept);
        spec_join(kept.map_values(|l: Seq<char>| spec_strip(l, m)))
    }
}

/// Whether `p` is a prefix of `s`.
pub open spec fn spec_has_prefix(s: Seq<char>, p: Seq<char>) -> bool {
    p.len() <= s.len() && s.take(p.len() as int) == p
}

/// Prefix test matching `spec_has_prefix`.
pub fn has_prefix(s: &str, p: &str) -> (r: bool)
    ensures
        r == spec_has_prefix(s@, p@),
{
    let sn = s.unicode_len();
    let pn = p.unicode_len();
    if pn > sn {
        return false;
    }
    let r = matches_at(s, 0, p);
    proof {
        assert(s@.subrange(0, p@.len() as int) =~= s@.take(p@.len() as int));
    }
    r
}

/// Character-wise string equality.
pub fn str_eq(a: &str, b: &str) -> (r: bool)
    ensures
        r == (a@ == b@),
{
    let an = a.unicode_len();
    let bn = b.unicode_len();
    if an != bn {
        return false;
    }
    let mut i: usize = 0;
    while i < an
        invariant
            0 <= i <= an,
            an == a@.len() && an == b@.len(),
            forall|t: int| 0 <= t < i ==> a@[t] == b@[t],
        decreases an - i,
    {
        if a.get_char(i) != b.get_char(i) {
            return false;
        }
        i = i + 1;
    }
    assert(a@ =~= b@);
    true
}

/// Whether `n` occurs in `h` as a contiguous substring.
pub open spec fn spec_contains(h: Seq<char>, n: Seq<char>) -> bool {
    exists|i: int| 0 <= i && i + n.len() <= h.len() && #[trigger] h.subrange(i, i + n.len()) == n
}

/// Whether `n@` occurs at position `i` of `h@`.
fn matches_at(h: &str, i: usize, n: &str) -> (r: bool)
    requires
        i + n@.len() <= h@.len(),
        h@.len() <= usize::MAX,
    ensures
        r == (h@.subrange(i as int, i + n@.len()) == n@),
{
    let nn = n.unicode_len();
    let mut j: usize = 0;
    while j < nn
        invariant
            0 <= j <= nn == n@.len(),
            i + nn <= h@.len() <= usize::MAX,
            forall|t: int| 0 <= t < j ==> h@[i + t] == n@[t],
        decreases nn - j,
    {
        if h.get_char(i + j) != n.get_char(j) {
            assert(h@.subrange(i as int, i + n@.len())[j as int] == h@[i + j]);
            return false;
        }
        j = j + 1;
    }
    assert(h@.subrange(i as int, i + n@.len()) =~= n@);
    true
}

/// Substring search, matching `spec_contains`.
pub fn contains_sub(h: &str, n: &str) -> (r: bool)
    ensures
        r == spec_contains(h@, n@),
{
    let hn = h.unicode_len();
    let nn = n.unicode_len();
    if nn > hn {
        return false;
    }
    if nn == 0 {
        assert(h@.subrange(0, 0 + n@.len() as int) =~= n@);
        return true;
    }
    let mut i: usize = 0;
    while i <= hn - nn
        invariant
            0 <= i <= hn - nn + 1,
            1 <= nn <= hn,
            hn == h@.len(),
            nn == n@.len(),
            forall|t: int| 0 <= t < i ==> #[trigger] h@.subrange(t, t + n@.len()) != n@,
        decreases hn - nn + 1 - i,
    {
        if matches_at(h, i, n) {
            return true;
        }
        i = i + 1;
    }
    false
}

/// Number of leading whitespace characters of `s@[a..b]`.
fn leading_in(s: &str, a: usize, b: usize) -> (r: usize)
    requires
        a <= b <= s@.len(),
    ensures
        r == spec_leading(s@.subrange(a as int, b as int)),
        r <= b - a,
{
    let ghost l = s@.subrange(a as int, b as int);
    let mut j = a;
    while j < b && is_space(s.get_char(j))
        invariant
            a <= j <= b <= s@.len(),
            l == s@.subrange(a as int, b as int),
            spec_leading(l) == spec_leading_from(l, j - a),
            j < b ==> l[j - a] == s@[j as int],
        decreases b - j,
    {
        j = j + 1;
        assert(j < b ==> l[j - a] == s@[j as int]);
    }
    assert(spec_leading_from(l, j - a) == j - a);
    j - a
}

/// Whether `s@[a..b]` is all whitespace.
fn blank_in(s: &str, a: usize, b: usize) -> (r: bool)
    requires
        a <= b <= s@.len(),
    ensures
        r == spec_is_blank(s@.subrange(a as int, b as int)),
{
    let ghost l = s@.subrange(a as int, b as int);
    let r = leading_in(s, a, b);
    if r == b - a {
        assert(spec_is_blank(l)) by {
            assert(forall|i: int| 0 <= i < l.len() ==> spec_is_space(#[trigger] l[i])) by {
                lemma_leading_spaces(l, 0);
            }
        }
        true
    } else {
        assert(!spec_is_space(l[r as int])) by {
            lemma_leading_stop(l, 0);
        }
        false
    }
}

/// Every character before the leading boundary is whitespace.
pub proof fn lemma_leading_spaces(l: Seq<char>, i: int)
    requires
        0 <= i <= l.len(),
    ensures
        forall|j: int|
            i <= j < spec_leading_from(l, i) ==> spec_is_space(#[trigger] l[j]),
    decreases l.len() - i,
{
    if i < l.len() && spec_is_space(l[i]) {
        lemma_leading_spaces(l, i + 1);
    }
}

/// The character at the leading boundary, if any, is not whitespace.
pub proof fn lemma_leading_stop(l: Seq<char>, i: int)
    requires
        0 <= i <= l.len(),
    ensures
        i <= spec_leading_from(l, i) <= l.len(),
        spec_leading_from(l, i) < l.len() ==> !spec_is_space(l[spec_leading_from(l, i)]),
    decreases l.len() - i,
{
    if i < l.len() && spec_is_space(l[i]) {
        lemma_leading_stop(l, i + 1);
    }
}

/// Executable whitespace test matching `spec_is_space`.
fn is_space(c: char) -> (r: bool)
    ensures
        r == spec_is_space(c),
{
    c == ' ' || c == '\t' || c == '\r' || c == '\n'
}

/// The `(start, end)` character ranges of the lines of `s`.
fn line_ranges(s: &str) -> (r: Vec<(usize, usize)>)
    ensures
        r@.len() == spec_lines(s@).len(),
        forall|k: int|
            0 <= k < r@.len() ==> {
                let (a, b) = #[trigger] r@[k];
                a <= b <= s@.len() && s@.subrange(a as int, b as int) == spec_lines(s@)[k]
            },
{
    let n = s.unicode_len();
    let mut r: Vec<(usize, usize)> = Vec::new();
    let mut start: usize = 0;
    let mut i: usize = 0;
    let ghost ls = spec_lines(s@);
    proof {
        assert(s@.skip(0) =~= s@);
    }
    while i < n
        invariant
            start <= i <= n == s@.len(),
            ls == spec_lines(s@),
            forall|j: int| start <= j < i ==> s@[j] != '\n',
            ls =~= r@.map_values(
                |p: (usize, usize)| s@.subrange(p.0 as int, p.1 as int),
            ) + spec_lines(s@.skip(start as int)),
            forall|k: int|
                0 <= k < r@.len() ==> {
                    let (a, b) = #[trigger] r@[k];
                    a <= b <= s@.len()
                },
        decreases n - i,
    {
        if s.get_char(i) == '\n' {
            proof {
                let suf = s@.skip(start as int);
                assert(forall|j: int|
                    0 <= j < i - start ==> #[trigger] suf[j] == s@[j + start]);
                lemma_lines_at(suf, i - start);
                assert(suf.take(i - start) =~= s@.subrange(start as int, i as int));
                assert(suf.skip(i - start + 1) =~= s@.skip(i + 1));
            }
            let ghost old_map = r@.map_values(
                |p: (usize, usize)| s@.subrange(p.0 as int, p.1 as int),
            );
            r.push((start, i));
            proof {
                assert(r@.map_values(|p: (usize, usize)| s@.subrange(p.0 as int, p.1 as int))
                    =~= old_map + seq![s@.subrange(start as int, i as int)]);
            }
            start = i + 1;
        }
        i = i + 1;
    }
    proof {
        let suf = s@.skip(start as int);
        assert(forall|j: int| 0 <= j < n - start ==> #[trigger] suf[j] == s@[j + start]);
        lemma_lines_at(suf, n - start);
        assert(suf =~= s@.subrange(start as int, n as int));
    }
    let ghost old_map = r@.map_values(
        |p: (usize, usize)| s@.subrange(p.0 as int, p.1 as int),
    );
    r.push((start, n));
    proof {
        assert(r@.map_values(|p: (usize, usize)| s@.subrange(p.0 as int, p.1 as int)) =~= old_map
            + seq![s@.subrange(start as int, n as int)]);
        assert(spec_lines(s@) =~= r@.map_values(
            |p: (usize, usize)| s@.subrange(p.0 as int, p.1 as int),
        ));
    }
    r
}

/// Strips the common leading indentation from a block of source text:
/// leading and trailing blank lines are dropped, the smallest indent of
/// the remaining non-blank lines is removed from each remaining line, and
/// a line shorter than that indent loses exactly its leading whitespace.
#[verifier::rlimit(60)]
pub fn dedent(code: &str) -> (r: String)
    ensures
        r@ == spec_dedent(code@),
{
    let ghost ls = spec_lines(code@);
    let ranges = line_ranges(code);
    let nl = ranges.len();

    // first non-blank line
    let mut f: usize = 0;
    while f < nl && blank_in(code, ranges[f].0, ranges[f].1)
        invariant
            0 <= f <= nl == ranges@.len(),
            ls == spec_lines(code@),
            ranges@.len() == ls.len(),
            forall|k: int|
                0 <= k < ranges@.len() ==> {
                    let (a, b) = #[trigger] ranges@[k];
                    a <= b <= code@.len() && code@.subrange(a as int, b as int) == ls[k]
                },
            spec_first_nonblank(ls, 0) == spec_first_nonblank(ls, f as int),
        decreases nl - f,
    {
        f = f + 1;
    }
    if f == nl {
        assert(spec_first_nonblank(ls, f as int) == -1);
        return String::new();
    }
    assert(spec_first_nonblank(ls, 0) == f);

    // last non-blank line
    let mut g: usize = nl - 1;
    while blank_in(code, ranges[g].0, ranges[g].1)
        invariant
            f <= g < nl == ranges@.len(),
            ls == spec_lines(code@),
            ranges@.len() == ls.len(),
            forall|k: int|
                0 <= k < ranges@.len() ==> {
                    let (a, b) = #[trigger] ranges@[k];
                    a <= b <= code@.len() && code@.subrange(a as int, b as int) == ls[k]
                },
            !spec_is_blank(ls[f as int]),
            spec_last_nonblank(ls, ls.len() - 1) == spec_last_nonblank(ls, g as int),
        decreases g,
    {
        g = g - 1;
    }
    assert(spec_last_nonblank(ls, ls.len() - 1) == g);

    let ghost kept = ls.subrange(f as int, g + 1);

    // minimal indent over non-blank kept lines
    let mut m: usize = usize::MAX;
    let mut k: usize = f;
    while k <= g
        invariant
            f <= k <= g + 1,
            g < nl == ranges@.len(),
            ls == spec_lines(code@),
            ranges@.len() == ls.len(),
            forall|j: int|
                0 <= j < ranges@.len() ==> {
                    let (a, b) = #[trigger] ranges@[j];
                    a <= b <= code@.len() && code@.subrange(a as int, b as int) == ls[j]
                },
            kept == ls.subrange(f as int, g + 1),
            m == spec_min_indent(kept.take(k - f)),
        decreases g + 1 - k,
    {
        let (a, b) = ranges[k];
        let blank = blank_in(code, a, b);
        proof {
            assert(kept[k - f] == ls[k as int]);
            assert(kept.take(k - f + 1).drop_last() =~= kept.take(k - f));
            assert(kept.take(k - f + 1).last() == ls[k as int]);
        }
        if !blank {
            let ld = leading_in(code, a, b);
            if ld < m {
                m = ld;
            }
        }
        k = k + 1;
    }
    assert(kept.take(g + 1 - f) =~= kept);
    let ghost mi = spec_min_indent(kept);

    // join the stripped lines
    let ghost stripped = kept.map_values(|l: Seq<char>| spec_strip(l, mi));
    let mut out = String::new();
    let mut k: usize = f;
    while k <= g
        invariant
            f <= k <= g + 1,
            g < nl == ranges@.len(),
            ls == spec_lines(code@),
            ranges@.len() == ls.len(),
            forall|j: int|
                0 <= j < ranges@.len() ==> {
                    let (a, b) = #[trigger] ranges@[j];
                    a <= b <= code@.len() && code@.subrange(a as int, b as int) == ls[j]
                },
            kept == ls.subrange(f as int, g + 1),
            stripped == kept.map_values(|l: Seq<char>| spec_strip(l, mi)),
            m == mi,
            out@ == spec_join(stripped.take(k - f)),
        decreases g + 1 - k,
    {
        let (a, b) = ranges[k];
        let ghost l = ls[k as int];
        proof {
            assert(kept[k - f] == ls[k as int]);
        }
        if k > f {
            out.append("\n");
            proof {
                reveal_strlit("\n");
            }
        }
        let piece: &str = if b - a >= m {
            code.substring_char(a + m, b)
        } else {
            let ld = leading_in(code, a, b);
            code.substring_char(a + ld, b)
        };
        assert(piece@ =~= spec_strip(l, mi as int)) by {
            assert(l == code@.subrange(a as int, b as int));
            if b - a >= m {
                assert(l.skip(mi as int) =~= code@.subrange(a + mi, b as int));
            } else {
                assert(l.skip(spec_leading(l)) =~= code@.subrange(
                    a + spec_leading(l),
                    b as int,
                ));
            }
        };
        out.append(piece);
        proof {
            let p = stripped.take(k - f + 1);
            assert(p.drop_last() =~= stripped.take(k - f));
            assert(p.last() == stripped[k - f]);
            assert(stripped[k - f] == spec_strip(l, mi as int));
            if k > f {
                assert(out@ == spec_join(p.drop_last()) + seq!['\n'] + p.last());
            } else {
                assert(p.len() == 1);
                assert(out@ =~= p.last());
            }
        }
        k = k + 1;
    }
    assert(stripped.take(g + 1 - f) =~= stripped);
    out
}

} // verus!
