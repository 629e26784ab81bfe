//! Character-level helpers over the text of a request: whitespace,
//! trimming, ASCII case folding and splitting.

use vstd::prelude::*;

verus! {

/// Whitespace as Unicode's White_Space property defines it, which is what
/// `char::is_whitespace` and `str::trim` go by.
pub open spec fn is_ws(c: char) -> bool {
    ||| ('\u{9}' <= c && c <= '\u{d}')
    ||| c == ' '
    ||| c == '\u{85}'
    ||| c == '\u{a0}'
    ||| c == '\u{1680}'
    ||| ('\u{2000}' <= c && c <= '\u{200a}')
    ||| c == '\u{2028}'
    ||| c == '\u{2029}'
    ||| c == '\u{202f}'
    ||| c == '\u{205f}'
    ||| c == '\u{3000}'
}

pub fn is_ws_char(c: char) -> (r: bool)
    ensures
        r == is_ws(c),
{
    ('\u{9}' <= c && c <= '\u{d}') || c == ' ' || c == '\u{85}' || c == '\u{a0}' || c
        == '\u{1680}' || ('\u{2000}' <= c && c <= '\u{200a}') || c == '\u{2028}' || c
        == '\u{2029}' || c == '\u{202f}' || c == '\u{205f}' || c == '\u{3000}'
}

/// The characters of `s`, in order.
pub fn chars_of(s: &str) -> (v: Vec<char>)
    ensures
        v@ == s@,
{
    let mut v: Vec<char> = Vec::new();
    for c in it: s.chars()
        invariant
            v@ == it.seq().take(it.index() as int),
    {
        v.push(c);
    }
    v
}

/// `s` without its leading whitespace.
pub open spec fn trim_start(s: Seq<char>) -> Seq<char>
    decreases s.len(),
{
    if s.len() > 0 && is_ws(s[0]) {
        trim_start(s.drop_first())
    } else {
        s
    }
}

/// `s` without its trailing whitespace.
pub open spec fn trim_end(s: Seq<char>) -> Seq<char>
    decreases s.len(),
{
    if s.len() > 0 && is_ws(s.last()) {
        trim_end(s.drop_last())
    } else {
        s
    }
}

/// `s` without leading or trailing whitespace, as `str::trim` gives it.
pub open spec fn trim(s: Seq<char>) -> Seq<char> {
    trim_end(trim_start(s))
}

/// The position within `v` where `trim_start(v[lo..hi])` begins.
pub fn skip_ws(v: &Vec<char>, lo: usize, hi: usize) -> (r: usize)
    requires
        lo <= hi <= v@.len(),
    ensures
        lo <= r <= hi,
        v@.subrange(r as int, hi as int) == trim_start(v@.subrange(lo as int, hi as int)),
{
    let mut a: usize = lo;
    while a < hi && is_ws_char(v[a])
        invariant
            lo <= a <= hi <= v@.len(),
            trim_start(v@.subrange(lo as int, hi as int)) == trim_start(
                v@.subrange(a as int, hi as int),
            ),
        decreases hi - a,
    {
        assert(v@.subrange(a as int, hi as int).drop_first() =~= v@.subrange(
            a + 1,
            hi as int,
        ));
        a = a + 1;
    }
    a
}

/// The bounds of `trim(v[lo..hi])` within `v`.
pub fn trim_range(v: &Vec<char>, lo: usize, hi: usize) -> (r: (usize, usize))
    requires
        lo <= hi <= v@.len(),
    ensures
        lo <= r.0 <= r.1 <= hi,
        v@.subrange(r.0 as int, r.1 as int) == trim(v@.subrange(lo as int, hi as int)),
{
    let a = skip_ws(v, lo, hi);
    let mut b: usize = hi;
    while b > a && is_ws_char(v[b - 1])
        invariant
            lo <= a <= b <= hi <= v@.len(),
            trim(v@.subrange(lo as int, hi as int)) == trim_end(v@.subrange(a as int, b as int)),
        decreases b - a,
    {
        assert(v@.subrange(a as int, b as int).drop_last() =~= v@.subrange(
            a as int,
            b - 1,
        ));
        b = b - 1;
    }
    (a, b)
}

/// Position of the first `:` in `s`, or `s.len()` when there is none.
pub open spec fn colon_index(s: Seq<char>) -> int
    decreases s.len(),
{
    if s.len() == 0 || s[0] == ':' {
        0
    } else {
        1 + colon_index(s.drop_first())
    }
}

/// Position of the first whitespace character in `s`, or `s.len()` when
/// there is none.
pub open spec fn ws_index(s: Seq<char>) -> int
    decreases s.len(),
{
    if s.len() == 0 || is_ws(s[0]) {
        0
    } else {
        1 + ws_index(s.drop_first())
    }
}

pub proof fn lemma_colon_index(s: Seq<char>)
    ensures
        0 <= colon_index(s) <= s.len(),
        colon_index(s) < s.len() ==> s[colon_index(s)] == ':',
        forall|j: int| 0 <= j < colon_index(s) ==> s[j] != ':',
        colon_index(s) < s.len() <==> s.contains(':'),
    decreases s.len(),
{
    if s.len() > 0 && s[0] != ':' {
        lemma_colon_index(s.drop_first());
        assert forall|j: int| 0 < j < colon_index(s) implies s[j] != ':' by {
            assert(s[j] == s.drop_first()[j - 1]);
        }
        if s.contains(':') {
            let k = choose|k: int| 0 <= k < s.len() && s[k] == ':';
            assert(s.drop_first()[k - 1] == ':');
        }
        if s.drop_first().contains(':') {
            let k = choose|k: int| 0 <= k < s.drop_first().len() && s.drop_first()[k] == ':';
            assert(s[k + 1] == ':');
        }
    }
}

pub proof fn lemma_ws_index(s: Seq<char>)
    ensures
        0 <= ws_index(s) <= s.len(),
        ws_index(s) < s.len() ==> is_ws(s[ws_index(s)]),
        forall|j: int| 0 <= j < ws_index(s) ==> !is_ws(s[j]),
    decreases s.len(),
{
    if s.len() > 0 && !is_ws(s[0]) {
        lemma_ws_index(s.drop_first());
        assert forall|j: int| 0 < j < ws_index(s) implies !is_ws(s[j]) by {
            assert(s[j] == s.drop_first()[j - 1]);
        }
    }
}

/// The position within `v` of the first `:` of `v[lo..hi]`, or `hi`.
pub fn find_colon(v: &Vec<char>, lo: usize, hi: usize) -> (r: usize)
    requires
        lo <= hi <= v@.len(),
    ensures
        lo <= r <= hi,
        r - lo == colon_index(v@.subrange(lo as int, hi as int)),
{
    let mut i: usize = lo;
    while i < hi && v[i] != ':'
        invariant
            lo <= i <= hi <= v@.len(),
            colon_index(v@.subrange(lo as int, hi as int)) == (i - lo) + colon_index(
                v@.subrange(i as int, hi as int),
            ),
        decreases hi - i,
    {
        assert(v@.subrange(i as int, hi as int).drop_first() =~= v@.subrange(i + 1, hi as int));
        i = i + 1;
    }
    i
}

/// The position within `v` of the first whitespace of `v[lo..hi]`, or `hi`.
pub fn find_ws(v: &Vec<char>, lo: usize, hi: usize) -> (r: usize)
    requires
        lo <= hi <= v@.len(),
    ensures
        lo <= r <= hi,
        r - lo == ws_index(v@.subrange(lo as int, hi as int)),
{
    let mut i: usize = lo;
    while i < hi && !is_ws_char(v[i])
        invariant
            lo <= i <= hi <= v@.len(),
            ws_index(v@.subrange(lo as int, hi as int)) == (i - lo) + ws_index(
                v@.subrange(i as int, hi as int),
            ),
        decreases hi - i,
    {
        assert(v@.subrange(i as int, hi as int).drop_first() =~= v@.subrange(i + 1, hi as int));
        i = i + 1;
    }
    i
}

/// The code of `c` after ASCII lowercasing, as `char::to_ascii_lowercase`
/// gives it: only `A` to `Z` change.
pub open spec fn fold_case(c: char) -> int {
    if 'A' <= c && c <= 'Z' {
        c as int + 32
    } else {
        c as int
    }
}

/// `a` and `b` are equal once both are ASCII-lowercased.
pub open spec fn same_ignoring_case(a: Seq<char>, b: Seq<char>) -> bool {
    &&& a.len() == b.len()
    &&& forall|i: int| 0 <= i < a.len() ==> fold_case(#[trigger] a[i]) == fold_case(b[i])
}

fn fold_char(c: char) -> (r: u32)
    ensures
        r == fold_case(c),
{
    if 'A' <= c && c <= 'Z' {
        c as u32 + 32
    } else {
        c as u32
    }
}

/// Whether `v[lo..hi]` equals `key` up to ASCII case.
pub fn eq_ignore_case(v: &Vec<char>, lo: usize, hi: usize, key: &str) -> (r: bool)
    requires
        lo <= hi <= v@.len(),
    ensures
        r == same_ignoring_case(v@.subrange(lo as int, hi as int), key@),
{
    let k = chars_of(key);
    if hi - lo != k.len() {
        return false;
    }
    let ghost part = v@.subrange(lo as int, hi as int);
    let mut i: usize = 0;
    while i < k.len()
        invariant
            hi - lo == k@.len(),
            lo <= hi <= v@.len(),
            k@ == key@,
            part == v@.subrange(lo as int, hi as int),
            i <= k.len(),
            forall|j: int| 0 <= j < i ==> fold_case(#[trigger] part[j]) == fold_case(k@[j]),
        decreases k.len() - i,
    {
        if fold_char(v[lo + i]) != fold_char(k[i]) {
            assert(part[i as int] == v@[lo + i]);
            return false;
        }
        i = i + 1;
    }
    true
}

/// The lines of `s` from a line that began at `start`, reading on from
/// `i`: each CR LF pair ends a line, and what follows the last one is a
/// line too.
pub open spec fn lines_from(s: Seq<char>, start: int, i: int) -> Seq<Seq<char>>
    decreases s.len() - i,
{
    if i >= s.len() {
        seq![s.subrange(start, s.len() as int)]
    } else if i + 1 < s.len() && s[i] == '\r' && s[i + 1] == '\n' {
        seq![s.subrange(start, i)] + lines_from(s, i + 2, i + 2)
    } else {
        lines_from(s, start, i + 1)
    }
}

/// `s` split at each CR LF, as `str::split("\r\n")` gives it.
pub open spec fn split_crlf(s: Seq<char>) -> Seq<Seq<char>> {
    lines_from(s, 0, 0)
}

pub proof fn lemma_lines_from_nonempty(s: Seq<char>, start: int, i: int)
    ensures
        lines_from(s, start, i).len() >= 1,
    decreases s.len() - i,
{
    if i < s.len() {
        if i + 1 < s.len() && s[i] == '\r' && s[i + 1] == '\n' {
            lemma_lines_from_nonempty(s, i + 2, i + 2);
        } else {
            lemma_lines_from_nonempty(s, start, i + 1);
        }
    }
}

/// The bounds within `v` of each line of `split_crlf(v@)`.
pub fn split_crlf_ranges(v: &Vec<char>) -> (r: Vec<(usize, usize)>)
    ensures
        r@.len() == split_crlf(v@).len(),
        forall|k: int|
            0 <= k < r@.len() ==> {
                &&& (#[trigger] r@[k]).0 <= r@[k].1 <= v@.len()
                &&& v@.subrange(r@[k].0 as int, r@[k].1 as int) == split_crlf(v@)[k]
            },
{
    let n = v.len();
    let mut r: Vec<(usize, usize)> = Vec::new();
    let ghost mut done: Seq<Seq<char>> = Seq::empty();
    let mut start: usize = 0;
    let mut i: usize = 0;
    while i < n
        invariant
            n == v@.len(),
            start <= i <= n,
            r@.len() == done.len(),
            forall|k: int|
                0 <= k < r@.len() ==> {
                    &&& (#[trigger] r@[k]).0 <= r@[k].1 <= v@.len()
                    &&& v@.subrange(r@[k].0 as int, r@[k].1 as int) == done[k]
                },
            done + lines_from(v@, start as int, i as int) == split_crlf(v@),
        decreases n - i,
    {
        if i + 1 < n && v[i] == '\r' && v[i + 1] == '\n' {
            let ghost line = v@.subrange(start as int, i as int);
            assert(done + lines_from(v@, start as int, i as int) =~= done.push(line) + lines_from(
                v@,
                i + 2,
                i + 2,
            ));
            r.push((start, i));
            proof {
                done = done.push(line);
            }
            start = i + 2;
            i = i + 2;
        } else {
            i = i + 1;
        }
    }
    let ghost line = v@.subrange(start as int, n as int);
    assert(done + lines_from(v@, start as int, i as int) =~= done.push(line));
    r.push((start, n));
    proof {
        done = done.push(line);
    }
    r
}

/// Every character of `s` is whitespace.
pub open spec fn all_ws(s: Seq<char>) -> bool {
    forall|i: int| 0 <= i < s.len() ==> is_ws(#[trigger] s[i])
}

pub proof fn lemma_trim_start_skips_ws(w: Seq<char>, s: Seq<char>)
    requires
        all_ws(w),
    ensures
        trim_start(w + s) == trim_start(s),
    decreases w.len(),
{
    if w.len() > 0 {
        assert((w + s).drop_first() =~= w.drop_first() + s);
        lemma_trim_start_skips_ws(w.drop_first(), s);
    } else {
        assert(w + s =~= s);
    }
}

pub proof fn lemma_trim_end_skips_ws(s: Seq<char>, w: Seq<char>)
    requires
        all_ws(w),
    ensures
        trim_end(s + w) == trim_end(s),
    decreases w.len(),
{
    if w.len() > 0 {
        assert((s + w).drop_last() =~= s + w.drop_last());
        lemma_trim_end_skips_ws(s, w.drop_last());
    } else {
        assert(s + w =~= s);
    }
}

/// Whitespace around a text that neither begins nor ends with whitespace
/// is what `trim` removes.
pub proof fn lemma_trim_ws_around(w1: Seq<char>, s: Seq<char>, w2: Seq<char>)
    requires
        all_ws(w1),
        all_ws(w2),
        s.len() > 0,
        !is_ws(s[0]),
        !is_ws(s.last()),
    ensures
        trim(w1 + s + w2) == s,
{
    assert(w1 + s + w2 =~= w1 + (s + w2));
    lemma_trim_start_skips_ws(w1, s + w2);
    lemma_trim_end_skips_ws(s, w2);
}

pub proof fn lemma_trim_leading_space(s: Seq<char>)
    ensures
        trim(seq![' '] + s) == trim(s),
{
    lemma_trim_start_skips_ws(seq![' '], s);
}

pub proof fn lemma_colon_after(s: Seq<char>, t: Seq<char>)
    requires
        !s.contains(':'),
    ensures
        colon_index(s + seq![':'] + t) == s.len(),
    decreases s.len(),
{
    let line = s + seq![':'] + t;
    if s.len() > 0 {
        assert(line[0] == s[0]);
        assert(line.drop_first() =~= s.drop_first() + seq![':'] + t);
        assert(!s.drop_first().contains(':')) by {
            if s.drop_first().contains(':') {
                let k = choose|k: int| 0 <= k < s.drop_first().len() && s.drop_first()[k] == ':';
                assert(s[k + 1] == ':');
            }
        }
        lemma_colon_after(s.drop_first(), t);
    } else {
        assert(line[0] == ':');
    }
}

/// `same_ignoring_case` is an equivalence: texts equal to a third one up to
/// case are equal to each other up to case.
pub proof fn lemma_same_ignoring_case_trans(a: Seq<char>, b: Seq<char>, c: Seq<char>)
    requires
        same_ignoring_case(a, b),
    ensures
        same_ignoring_case(a, c) == same_ignoring_case(b, c),
{
    if same_ignoring_case(b, c) {
        assert forall|i: int| 0 <= i < a.len() implies fold_case(#[trigger] a[i]) == fold_case(
            c[i],
        ) by {
            assert(fold_case(b[i]) == fold_case(c[i]));
        }
    }
    if same_ignoring_case(a, c) {
        assert forall|i: int| 0 <= i < b.len() implies fold_case(#[trigger] b[i]) == fold_case(
            c[i],
        ) by {
            assert(fold_case(a[i]) == fold_case(b[i]));
        }
    }
}

/// A text equal up to case to a word of lowercase ASCII letters and dashes
/// holds no whitespace and no colon.
pub proof fn lemma_word_chars(s: Seq<char>, word: Seq<char>)
    requires
        same_ignoring_case(s, word),
        forall|i: int|
            0 <= i < word.len() ==> ('a' <= #[trigger] word[i] && word[i] <= 'z') || word[i]
                == '-',
    ensures
        forall|i: int| 0 <= i < s.len() ==> !is_ws(#[trigger] s[i]) && s[i] != ':',
{
    assert forall|i: int| 0 <= i < s.len() implies !is_ws(#[trigger] s[i]) && s[i] != ':' by {
        assert(fold_case(s[i]) == fold_case(word[i]));
    }
}

} // verus!
