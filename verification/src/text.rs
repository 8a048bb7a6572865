//! Character-level text utilities: whitespace classification, trimming,
//! character search, and splitting text into lines.
//!
//! The spec-level functions work on an absolute index window `[lo, hi)` of a
//! character sequence, so that positions computed by the parser are column
//! numbers of the enclosing line without any re-basing.

use vstd::prelude::*;

verus! {

/// Whitespace characters recognized when trimming lines and fragments.
pub open spec fn is_ws(c: char) -> bool {
    c == ' ' || c == '\t' || c == '\n' || c == '\r' || c == '\u{b}' || c == '\u{c}'
}

/// Executable whitespace test.
pub fn is_ws_char(c: char) -> (r: bool)
    ensures
        r == is_ws(c),
{
    c == ' ' || c == '\t' || c == '\n' || c == '\r' || c == '\u{b}' || c == '\u{c}'
}

/// Index of the first non-whitespace character in `[lo, hi)`, or `hi` if all
/// of the window is whitespace.
pub open spec fn first_non_ws_in(s: Seq<char>, lo: int, hi: int) -> int
    decreases hi - lo,
{
    if lo < 0 || lo >= hi {
        hi
    } else if is_ws(s[lo]) {
        first_non_ws_in(s, lo + 1, hi)
    } else {
        lo
    }
}

pub proof fn lemma_first_non_ws_in(s: Seq<char>, lo: int, hi: int)
    requires
        0 <= lo <= hi <= s.len(),
    ensures
        lo <= first_non_ws_in(s, lo, hi) <= hi,
        first_non_ws_in(s, lo, hi) < hi ==> !is_ws(s[first_non_ws_in(s, lo, hi)]),
        forall|j: int| lo <= j < first_non_ws_in(s, lo, hi) ==> is_ws(s[j]),
    decreases hi - lo,
{
    if lo < hi && is_ws(s[lo]) {
        lemma_first_non_ws_in(s, lo + 1, hi);
    }
}

/// One past the last non-whitespace character in `[lo, hi)`, or `lo` if all
/// of the window is whitespace.
pub open spec fn last_non_ws_in(s: Seq<char>, lo: int, hi: int) -> int
    decreases hi - lo,
{
    if lo < 0 || hi <= lo {
        lo
    } else if is_ws(s[hi - 1]) {
        last_non_ws_in(s, lo, hi - 1)
    } else {
        hi
    }
}

pub proof fn lemma_last_non_ws_in(s: Seq<char>, lo: int, hi: int)
    requires
        0 <= lo <= hi <= s.len(),
    ensures
        lo <= last_non_ws_in(s, lo, hi) <= hi,
        last_non_ws_in(s, lo, hi) > lo ==> !is_ws(s[last_non_ws_in(s, lo, hi) - 1]),
        forall|j: int| last_non_ws_in(s, lo, hi) <= j < hi ==> is_ws(s[j]),
    decreases hi - lo,
{
    if lo < hi && is_ws(s[hi - 1]) {
        lemma_last_non_ws_in(s, lo, hi - 1);
    }
}

/// Index of the first occurrence of `c` in `[lo, hi)`, or `hi` if none.
pub open spec fn find_in(s: Seq<char>, c: char, lo: int, hi: int) -> int
    decreases hi - lo,
{
    if lo < 0 || lo >= hi {
        hi
    } else if s[lo] == c {
        lo
    } else {
        find_in(s, c, lo + 1, hi)
    }
}

pub proof fn lemma_find_in(s: Seq<char>, c: char, lo: int, hi: int)
    requires
        0 <= lo <= hi <= s.len(),
    ensures
        lo <= find_in(s, c, lo, hi) <= hi,
        find_in(s, c, lo, hi) < hi ==> s[find_in(s, c, lo, hi)] == c,
        forall|j: int| lo <= j < find_in(s, c, lo, hi) ==> s[j] != c,
    decreases hi - lo,
{
    if lo < hi && s[lo] != c {
        lemma_find_in(s, c, lo + 1, hi);
    }
}

/// Number of consecutive `'\\'` characters at the end of the window
/// `[lo, hi)`.
pub open spec fn trailing_backslashes_in(s: Seq<char>, lo: int, hi: int) -> int
    decreases hi - lo,
{
    if lo < 0 || hi <= lo {
        0
    } else if s[hi - 1] == '\\' {
        1 + trailing_backslashes_in(s, lo, hi - 1)
    } else {
        0
    }
}

/// Start index of the trimmed content of `s`.
pub open spec fn trim_start_idx(s: Seq<char>) -> int {
    first_non_ws_in(s, 0, s.len() as int)
}

/// End index (exclusive) of the trimmed content of `s`; equals
/// `trim_start_idx(s)` when `s` is all whitespace.
pub open spec fn trim_end_idx(s: Seq<char>) -> int {
    last_non_ws_in(s, trim_start_idx(s), s.len() as int)
}

/// `s` with leading and trailing whitespace removed.
pub open spec fn trimmed(s: Seq<char>) -> Seq<char> {
    s.subrange(trim_start_idx(s), trim_end_idx(s))
}

pub proof fn lemma_trimmed(s: Seq<char>)
    ensures
        0 <= trim_start_idx(s) <= trim_end_idx(s) <= s.len(),
        trimmed(s).len() <= s.len(),
        trimmed(s).len() == 0 <==> trim_start_idx(s) == trim_end_idx(s),
{
    lemma_first_non_ws_in(s, 0, s.len() as int);
    lemma_last_non_ws_in(s, trim_start_idx(s), s.len() as int);
}

/// Executable computation of `first_non_ws_in`.
pub fn first_non_ws_from(s: &str, lo: usize, hi: usize) -> (r: usize)
    requires
        lo <= hi <= s@.len(),
    ensures
        r as int == first_non_ws_in(s@, lo as int, hi as int),
        lo <= r <= hi,
{
    let mut i: usize = lo;
    proof {
        lemma_first_non_ws_in(s@, lo as int, hi as int);
    }
    while i < hi && is_ws_char(s.get_char(i))
        invariant
            lo <= i <= hi <= s@.len(),
            first_non_ws_in(s@, lo as int, hi as int) == first_non_ws_in(s@, i as int, hi as int),
        decreases hi - i,
    {
        proof {
            assert(first_non_ws_in(s@, i as int, hi as int) == first_non_ws_in(
                s@,
                i + 1,
                hi as int,
            ));
        }
        i = i + 1;
    }
    proof {
        assert(first_non_ws_in(s@, i as int, hi as int) == i);
    }
    i
}

/// Executable computation of `last_non_ws_in`.
pub fn last_non_ws_from(s: &str, lo: usize, hi: usize) -> (r: usize)
    requires
        lo <= hi <= s@.len(),
    ensures
        r as int == last_non_ws_in(s@, lo as int, hi as int),
        lo <= r <= hi,
{
    let mut i: usize = hi;
    proof {
        lemma_last_non_ws_in(s@, lo as int, hi as int);
    }
    while i > lo && is_ws_char(s.get_char(i - 1))
        invariant
            lo <= i <= hi <= s@.len(),
            last_non_ws_in(s@, lo as int, hi as int) == last_non_ws_in(s@, lo as int, i as int),
        decreases i,
    {
        proof {
            assert(last_non_ws_in(s@, lo as int, i as int) == last_non_ws_in(
                s@,
                lo as int,
                i - 1,
            ));
        }
        i = i - 1;
    }
    proof {
        assert(last_non_ws_in(s@, lo as int, i as int) == i);
    }
    i
}

/// Executable computation of `find_in`.
pub fn find_char_in(s: &str, c: char, lo: usize, hi: usize) -> (r: usize)
    requires
        lo <= hi <= s@.len(),
    ensures
        r as int == find_in(s@, c, lo as int, hi as int),
        lo <= r <= hi,
{
    let mut i: usize = lo;
    proof {
        lemma_find_in(s@, c, lo as int, hi as int);
    }
    while i < hi && s.get_char(i) != c
        invariant
            lo <= i <= hi <= s@.len(),
            find_in(s@, c, lo as int, hi as int) == find_in(s@, c, i as int, hi as int),
        decreases hi - i,
    {
        proof {
            assert(find_in(s@, c, i as int, hi as int) == find_in(s@, c, i + 1, hi as int));
        }
        i = i + 1;
    }
    proof {
        assert(find_in(s@, c, i as int, hi as int) == i);
    }
    i
}

/// Executable computation of `trailing_backslashes_in`.
pub fn count_trailing_backslashes(s: &str, lo: usize, hi: usize) -> (r: usize)
    requires
        lo <= hi <= s@.len(),
    ensures
        r as int == trailing_backslashes_in(s@, lo as int, hi as int),
        r <= hi - lo,
{
    let mut i: usize = hi;
    while i > lo && s.get_char(i - 1) == '\\'
        invariant
            lo <= i <= hi <= s@.len(),
            trailing_backslashes_in(s@, lo as int, hi as int) == (hi - i) + trailing_backslashes_in(
                s@,
                lo as int,
                i as int,
            ),
        decreases i,
    {
        proof {
            assert(trailing_backslashes_in(s@, lo as int, i as int) == 1
                + trailing_backslashes_in(s@, lo as int, i - 1));
        }
        i = i - 1;
    }
    proof {
        assert(trailing_backslashes_in(s@, lo as int, i as int) == 0);
    }
    hi - i
}

/// `s` with surrounding whitespace removed.
pub fn trim_str(s: &str) -> (r: &str)
    ensures
        r@ == trimmed(s@),
        r@.len() <= s@.len(),
{
    let n: usize = s.unicode_len();
    let a = first_non_ws_from(s, 0, n);
    let b = last_non_ws_from(s, a, n);
    proof {
        lemma_trimmed(s@);
    }
    s.substring_char(a, b)
}

/// A line piece with a trailing carriage return removed.
pub open spec fn strip_cr(s: Seq<char>) -> Seq<char> {
    if s.len() > 0 && s[s.len() - 1] == '\r' {
        s.subrange(0, s.len() - 1)
    } else {
        s
    }
}

/// The lines of `t` starting at index `i`: pieces split at `'\n'`, each piece
/// that ends at a `'\n'` losing a final `'\r'`; a trailing line terminator
/// produces no final empty line.
pub open spec fn lines_from(t: Seq<char>, i: int) -> Seq<Seq<char>>
    decreases t.len() - i,
{
    if i < 0 || i >= t.len() {
        Seq::empty()
    } else {
        let j = find_in(t, '\n', i, t.len() as int);
        if j >= t.len() {
            seq![t.subrange(i, t.len() as int)]
        } else if j < i {
            Seq::empty()
        } else {
            seq![strip_cr(t.subrange(i, j))] + lines_from(t, j + 1)
        }
    }
}

/// The lines of a whole text.
pub open spec fn lines_spec(t: Seq<char>) -> Seq<Seq<char>> {
    lines_from(t, 0)
}

/// Splits `text` into lines: pieces separated by `'\n'`, with a `'\r'`
/// immediately before a `'\n'` removed, and no final empty line for a text
/// ending in a line terminator.
pub fn split_lines(text: &str) -> (r: Vec<String>)
    ensures
        r.deep_view() == lines_spec(text@),
{
    let n: usize = text.unicode_len();
    let mut acc: Vec<String> = Vec::new();
    let mut i: usize = 0;
    while i < n
        invariant
            0 <= i <= n,
            n == text@.len(),
            acc.deep_view() + lines_from(text@, i as int) == lines_spec(text@),
        decreases n - i,
    {
        let j = find_char_in(text, '\n', i, n);
        proof {
            lemma_find_in(text@, '\n', i as int, n as int);
        }
        if j >= n {
            let piece = text.substring_char(i, j);
            acc.push(piece.to_owned());
            proof {
                assert(piece@ =~= text@.subrange(i as int, text@.len() as int));
                assert(acc.deep_view() =~= acc.deep_view().drop_last().push(piece@));
                assert(acc.deep_view() + lines_from(text@, j as int) =~= lines_spec(text@));
            }
            i = j;
        } else {
            let piece = if j > i && text.get_char(j - 1) == '\r' {
                let p = text.substring_char(i, j - 1);
                proof {
                    assert(text@.subrange(i as int, j as int).len() == j - i);
                    assert(text@.subrange(i as int, j as int)[j - i - 1] == text@[j - 1]);
                    assert(p@ =~= strip_cr(text@.subrange(i as int, j as int)));
                }
                p
            } else {
                let p = text.substring_char(i, j);
                proof {
                    if j > i {
                        assert(text@.subrange(i as int, j as int)[j - i - 1] == text@[j - 1]);
                    }
                    assert(p@ =~= strip_cr(text@.subrange(i as int, j as int)));
                }
                p
            };
            acc.push(piece.to_owned());
            proof {
                assert(acc.deep_view() =~= acc.deep_view().drop_last().push(piece@));
                assert(acc.deep_view().drop_last() + lines_from(text@, i as int) == lines_spec(
                    text@,
                ));
                assert(lines_from(text@, i as int) =~= seq![piece@] + lines_from(
                    text@,
                    j + 1 as int,
                ));
                assert(acc.deep_view() + lines_from(text@, j + 1 as int) =~= lines_spec(text@));
            }
            i = j + 1;
        }
    }
    proof {
        assert(lines_from(text@, i as int) =~= Seq::<Seq<char>>::empty());
        assert(acc.deep_view() + lines_from(text@, i as int) =~= acc.deep_view());
    }
    acc
}


/// Character-by-character string equality.
pub fn str_eq(a: &str, b: &str) -> (r: bool)
    ensures
        r == (a@ == b@),
{
    let na = a.unicode_len();
    let nb = b.unicode_len();
    if na != nb {
        return false;
    }
    let mut i: usize = 0;
    while i < na
        invariant
            0 <= i <= na,
            na == a@.len(),
            na == b@.len(),
            forall|j: int| 0 <= j < i ==> a@[j] == b@[j],
        decreases na - i,
    {
        if a.get_char(i) != b.get_char(i) {
            return false;
        }
        i = i + 1;
    }
    proof {
        assert(a@ =~= b@);
    }
    true
}

/// Whether `p` is a prefix of `s`.
pub open spec fn is_prefix_of(p: Seq<char>, s: Seq<char>) -> bool {
    p.len() <= s.len() && s.subrange(0, p.len() as int) == p
}

/// Character-by-character prefix test.
pub fn str_starts_with(s: &str, p: &str) -> (r: bool)
    ensures
        r == is_prefix_of(p@, s@),
{
    let ns = s.unicode_len();
    let np = p.unicode_len();
    if np > ns {
        proof {
            assert(!is_prefix_of(p@, s@));
        }
        return false;
    }
    let mut i: usize = 0;
    while i < np
        invariant
            0 <= i <= np <= ns,
            ns == s@.len(),
            np == p@.len(),
            forall|j: int| 0 <= j < i ==> s@[j] == p@[j],
        decreases np - i,
    {
        if s.get_char(i) != p.get_char(i) {
            proof {
                assert(s@.subrange(0, np as int)[i as int] != p@[i as int]);
            }
            return false;
        }
        i = i + 1;
    }
    proof {
        assert(s@.subrange(0, np as int) =~= p@);
    }
    true
}


/// What `str::to_lowercase` returns: a function of the characters alone.
pub uninterp spec fn lower_of(s: Seq<char>) -> Seq<char>;

/// Relies on `str::to_lowercase`: the result depends on the characters
/// alone.
#[verifier::external_body]
pub(crate) fn to_lowercase(s: &str) -> (r: String)
    ensures
        r@ == lower_of(s@),
{
    s.to_lowercase()
}

} // verus!


