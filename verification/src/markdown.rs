//! Splitting a challenge document into its YAML frontmatter and its
//! `## Heading` sections.

use vstd::prelude::*;
use crate::text::{chars_of, string_from, push_range, to_lowercase, lowercase, ascii_lower, is_ascii_text};

verus! {

// ── whitespace and trimming ─────────────────────────────────────────────────

/// Whether `c` has the Unicode `White_Space` property (what `char::is_whitespace`
/// and `str::trim` use).
pub open spec fn is_whitespace(c: char) -> bool {
    ||| ('\u{9}' <= c && c <= '\u{d}')
    ||| c == ' '
    ||| c == '\u{85}'
    ||| c == '\u{a0}'
    ||| c == '\u{1680}'
    ||| ('\u{2000}' <= c && c <= '\u{200a}')
    ||| c == '\u{2028}'
    ||| c == '\u{2029}'
    ||| c == '\u{202f}'
    ||| c == '\u{205f}'
    ||| c == '\u{3000}'
}

/// Whether `c` is whitespace in the sense of `is_whitespace`.
pub fn char_is_whitespace(c: char) -> (r: bool)
    ensures
        r == is_whitespace(c),
{
    ('\u{9}' <= c && c <= '\u{d}') || c == ' ' || c == '\u{85}' || c == '\u{a0}' || c
        == '\u{1680}' || ('\u{2000}' <= c && c <= '\u{200a}') || c == '\u{2028}' || c
        == '\u{2029}' || c == '\u{202f}' || c == '\u{205f}' || c == '\u{3000}'
}

/// `s` without its leading whitespace.
pub open spec fn trim_start(s: Seq<char>) -> Seq<char>
    decreases s.len(),
{
    if s.len() > 0 && is_whitespace(s[0]) {
        trim_start(s.drop_first())
    } else {
        s
    }
}

/// `s` without its trailing whitespace.
pub open spec fn trim_end(s: Seq<char>) -> Seq<char>
    decreases s.len(),
{
    if s.len() > 0 && is_whitespace(s.last()) {
        trim_end(s.drop_last())
    } else {
        s
    }
}

/// `s` without leading and trailing whitespace (`str::trim`).
pub open spec fn trim(s: Seq<char>) -> Seq<char> {
    trim_end(trim_start(s))
}

proof fn lemma_trim_start_skip(s: Seq<char>, i: int)
    requires
        0 <= i <= s.len(),
        forall|j: int| 0 <= j < i ==> is_whitespace(s[j]),
    ensures
        trim_start(s) == trim_start(s.subrange(i, s.len() as int)),
    decreases i,
{
    if i > 0 {
        assert(s.drop_first() =~= s.subrange(1, s.len() as int));
        lemma_trim_start_skip(s.drop_first(), i - 1);
        assert(s.drop_first().subrange(i - 1, s.drop_first().len() as int) =~= s.subrange(
            i,
            s.len() as int,
        ));
    } else {
        assert(s.subrange(0, s.len() as int) =~= s);
    }
}

proof fn lemma_trim_end_skip(s: Seq<char>, k: int)
    requires
        0 <= k <= s.len(),
        forall|j: int| k <= j < s.len() ==> is_whitespace(s[j]),
    ensures
        trim_end(s) == trim_end(s.subrange(0, k)),
    decreases s.len() - k,
{
    if k < s.len() {
        lemma_trim_end_skip(s.drop_last(), k);
        assert(s.drop_last().subrange(0, k) =~= s.subrange(0, k));
    } else {
        assert(s.subrange(0, k) =~= s);
    }
}

/// The bounds of `v[lo..hi]` once leading and trailing whitespace is removed.
pub fn trim_range(v: &Vec<char>, lo: usize, hi: usize) -> (r: (usize, usize))
    requires
        lo <= hi <= v@.len(),
    ensures
        lo <= r.0 <= r.1 <= hi,
        v@.subrange(r.0 as int, r.1 as int) == trim(v@.subrange(lo as int, hi as int)),
{
    let ghost s = v@.subrange(lo as int, hi as int);
    let mut a = lo;
    while a < hi && char_is_whitespace(v[a])
        invariant
            lo <= a <= hi <= v@.len(),
            s == v@.subrange(lo as int, hi as int),
            forall|j: int| lo <= j < a ==> is_whitespace(v@[j]),
        decreases hi - a,
    {
        a = a + 1;
    }
    proof {
        lemma_trim_start_skip(s, a - lo);
        assert(s.subrange(a - lo, s.len() as int) =~= v@.subrange(a as int, hi as int));
    }
    let ghost t = v@.subrange(a as int, hi as int);
    assert(trim_start(t) == t);
    let mut b = hi;
    while b > a && char_is_whitespace(v[b - 1])
        invariant
            lo <= a <= b <= hi <= v@.len(),
            t == v@.subrange(a as int, hi as int),
            forall|j: int| b <= j < hi ==> is_whitespace(v@[j]),
        decreases b - a,
    {
        b = b - 1;
    }
    proof {
        lemma_trim_end_skip(t, b - a);
        assert(t.subrange(0, b - a) =~= v@.subrange(a as int, b as int));
    }
    (a, b)
}

/// `s` with leading and trailing whitespace removed, as a new string.
pub fn trimmed(s: &str) -> (r: String)
    ensures
        r@ == trim(s@),
{
    let v = chars_of(s);
    let (a, b) = trim_range(&v, 0, v.len());
    assert(v@.subrange(0, v@.len() as int) =~= v@);
    string_from(&v, a, b)
}

// ── frontmatter ─────────────────────────────────────────────────────────────

/// The first index at or after `i` where `pat` occurs in `s`.
pub open spec fn find_from(s: Seq<char>, pat: Seq<char>, i: int) -> Option<int>
    decreases s.len() + 1 - i,
{
    if i < 0 || i > s.len() || i + pat.len() > s.len() {
        None
    } else if s.subrange(i, i + pat.len()) == pat {
        Some(i)
    } else {
        find_from(s, pat, i + 1)
    }
}

/// The first index where `pat` occurs in `s` (`str::find`).
pub open spec fn find(s: Seq<char>, pat: Seq<char>) -> Option<int> {
    find_from(s, pat, 0)
}

/// Whether `pat` occurs in `s` at index `i`.
pub open spec fn occurs_at(s: Seq<char>, pat: Seq<char>, i: int) -> bool {
    0 <= i && i + pat.len() <= s.len() && s.subrange(i, i + pat.len()) == pat
}

proof fn lemma_find_from(s: Seq<char>, pat: Seq<char>, i: int)
    requires
        0 <= i,
    ensures
        match find_from(s, pat, i) {
            Some(k) => i <= k && occurs_at(s, pat, k) && forall|j: int|
                i <= j < k ==> !occurs_at(s, pat, j),
            None => forall|j: int| i <= j ==> !occurs_at(s, pat, j),
        },
    decreases s.len() + 1 - i,
{
    if i <= s.len() && i + pat.len() <= s.len() && s.subrange(i, i + pat.len()) != pat {
        lemma_find_from(s, pat, i + 1);
    }
}

proof fn lemma_find_at(s: Seq<char>, pat: Seq<char>, i: int, k: int)
    requires
        0 <= i <= k,
        occurs_at(s, pat, k),
        forall|j: int| i <= j < k ==> !occurs_at(s, pat, j),
    ensures
        find_from(s, pat, i) == Some(k),
    decreases k - i,
{
    if i < k {
        assert(!occurs_at(s, pat, i));
        lemma_find_at(s, pat, i + 1, k);
    }
}

/// The first occurrence of a single character is the first index holding it.
pub proof fn lemma_find_first_char(s: Seq<char>, c: char, k: int)
    requires
        0 <= k <= s.len(),
        forall|j: int| 0 <= j < k ==> s[j] != c,
        k < s.len() ==> s[k] == c,
    ensures
        k < s.len() ==> find(s, seq![c]) == Some(k),
        k == s.len() ==> find(s, seq![c]) is None,
{
    lemma_find_from(s, seq![c], 0);
    assert forall|j: int| 0 <= j < k implies !occurs_at(s, seq![c], j) by {
        if occurs_at(s, seq![c], j) {
            assert(s.subrange(j, j + 1)[0] == s[j]);
        }
    }
    if k < s.len() {
        assert(s.subrange(k, k + 1) =~= seq![c]);
        lemma_find_at(s, seq![c], 0, k);
    } else {
        match find(s, seq![c]) {
            Some(q) => {
                assert(q < k);
            },
            None => {},
        }
    }
}

/// The opening delimiter of a frontmatter block.
pub open spec fn open_delim() -> Seq<char> {
    seq!['-', '-', '-']
}

/// The closing delimiter of a frontmatter block (a newline, then `---`).
pub open spec fn close_delim() -> Seq<char> {
    seq!['\n', '-', '-', '-']
}

/// `s` without one leading newline, if it has one.
pub open spec fn strip_newline(s: Seq<char>) -> Seq<char> {
    if s.len() > 0 && s[0] == '\n' {
        s.drop_first()
    } else {
        s
    }
}

/// The split of a document `---\n<yaml>\n---\n<body>` into `(yaml, body)`:
/// the document must start with `---`; one newline after it is skipped; the
/// frontmatter runs to the first `\n---`; one newline after that is skipped.
pub open spec fn frontmatter_parts(raw: Seq<char>) -> Option<(Seq<char>, Seq<char>)> {
    if raw.len() >= 3 && raw.subrange(0, 3) == open_delim() {
        let rest = strip_newline(raw.subrange(3, raw.len() as int));
        match find(rest, close_delim()) {
            Some(e) => Some(
                (rest.subrange(0, e), strip_newline(rest.subrange(e + 4, rest.len() as int))),
            ),
            None => None,
        }
    } else {
        None
    }
}

/// Split `---\n<yaml>\n---\n<body>` into `(yaml, body)`; `None` when the
/// document does not open with `---` or has no closing `\n---`.
pub fn split_frontmatter(raw: &str) -> (r: Option<(&str, &str)>)
    ensures
        match frontmatter_parts(raw@) {
            Some((fm, body)) => r matches Some((a, b)) && a@ == fm && b@ == body,
            None => r is None,
        },
{
    let v = chars_of(raw);
    let n = v.len();
    if n < 3 || v[0] != '-' || v[1] != '-' || v[2] != '-' {
        assert(n >= 3 ==> raw@.subrange(0, 3) != open_delim()) by {
            if n >= 3 {
                assert(raw@.subrange(0, 3)[0] == raw@[0]);
                assert(raw@.subrange(0, 3)[1] == raw@[1]);
                assert(raw@.subrange(0, 3)[2] == raw@[2]);
            }
        }
        return None;
    }
    assert(raw@.subrange(0, 3) =~= open_delim());
    let start: usize = if n > 3 && v[3] == '\n' { 4 } else { 3 };
    let ghost rest = strip_newline(raw@.subrange(3, n as int));
    assert(rest =~= raw@.subrange(start as int, n as int));
    // search for the first "\n---" in rest
    let mut i = start;
    while n - i >= 4 && !(v[i] == '\n' && v[i + 1] == '-' && v[i + 2] == '-' && v[i + 3] == '-')
        invariant
            start <= i <= n,
            n == v@.len(),
            v@ == raw@,
            rest == raw@.subrange(start as int, n as int),
            forall|j: int| 0 <= j < i - start ==> !occurs_at(rest, close_delim(), j),
        decreases n - i,
    {
        proof {
            let j = i - start;
            if occurs_at(rest, close_delim(), j) {
                assert(rest.subrange(j, j + 4)[0] == v@[i as int]);
                assert(rest.subrange(j, j + 4)[1] == v@[i + 1]);
                assert(rest.subrange(j, j + 4)[2] == v@[i + 2]);
                assert(rest.subrange(j, j + 4)[3] == v@[i + 3]);
            }
        }
        i = i + 1;
    }
    if n - i < 4 {
        proof {
            lemma_find_from(rest, close_delim(), 0);
            match find(rest, close_delim()) {
                Some(k) => {
                    assert(k + 4 <= rest.len());
                    assert(k < i - start);
                },
                None => {},
            }
        }
        return None;
    }
    proof {
        let e = i - start;
        assert(rest.subrange(e, e + 4) =~= close_delim());
        lemma_find_at(rest, close_delim(), 0, e);
    }
    let fm = raw.substring_char(start, i);
    let mut b = i + 4;
    if b < n && v[b] == '\n' {
        b = b + 1;
    }
    let body = raw.substring_char(b, n);
    proof {
        let e = i - start;
        assert(rest.subrange(0, e) =~= fm@);
        let after = rest.subrange(e + 4, rest.len() as int);
        assert(after =~= raw@.subrange(i + 4, n as int));
        assert(strip_newline(after) =~= body@);
    }
    Some((fm, body))
}

/// Splitting a document written as `---\n<fm>\n---\n<body>` gives back `fm`
/// and `body`, whenever `fm` itself holds no `\n---`.
pub proof fn lemma_frontmatter_roundtrip(fm: Seq<char>, body: Seq<char>)
    requires
        find(fm, close_delim()) is None,
    ensures
        frontmatter_parts(open_delim() + seq!['\n'] + fm + close_delim() + seq!['\n'] + body)
            == Some((fm, body)),
{
    let raw = open_delim() + seq!['\n'] + fm + close_delim() + seq!['\n'] + body;
    let tail = seq!['\n'] + body;
    let rest = fm + close_delim() + tail;
    assert(raw.subrange(0, 3) =~= open_delim());
    assert(raw.subrange(3, raw.len() as int) =~= seq!['\n'] + rest);
    assert(strip_newline(seq!['\n'] + rest) =~= rest);
    lemma_first_close_after(fm, tail);
    assert(rest.subrange(0, fm.len() as int) =~= fm);
    assert(rest.subrange(fm.len() as int + 4, rest.len() as int) =~= tail);
    assert(strip_newline(tail) =~= body);
}

proof fn lemma_first_close_after(fm: Seq<char>, tail: Seq<char>)
    requires
        find(fm, close_delim()) is None,
    ensures
        find(fm + close_delim() + tail, close_delim()) == Some(fm.len() as int),
{
    let rest = fm + close_delim() + tail;
    let e = fm.len() as int;
    assert(rest.subrange(e, e + 4) =~= close_delim());
    lemma_find_from(fm, close_delim(), 0);
    assert forall|j: int| 0 <= j < e implies !occurs_at(rest, close_delim(), j) by {
        if occurs_at(rest, close_delim(), j) {
            if j + 4 <= e {
                assert(fm.subrange(j, j + 4) =~= rest.subrange(j, j + 4));
                assert(occurs_at(fm, close_delim(), j));
            } else {
                // the delimiter would start inside `fm` and run into the
                // closing delimiter, whose only newline is its first character
                assert(rest.subrange(j, j + 4)[e - j] == rest[e]);
                assert(close_delim()[e - j] == '-');
            }
        }
    }
    lemma_find_at(rest, close_delim(), 0, e);
}

/// One newline when `s` starts with one, nothing otherwise.
pub open spec fn leading_newline(s: Seq<char>) -> Seq<char> {
    if s.len() > 0 && s[0] == '\n' {
        seq!['\n']
    } else {
        Seq::empty()
    }
}

proof fn lemma_strip_newline(s: Seq<char>)
    ensures
        s == leading_newline(s) + strip_newline(s),
{
    assert(s =~= leading_newline(s) + strip_newline(s));
}

/// A successful split gives a frontmatter that holds no `\n---`.
pub proof fn lemma_frontmatter_has_no_delimiter(raw: Seq<char>)
    requires
        frontmatter_parts(raw) is Some,
    ensures
        frontmatter_parts(raw) matches Some((fm, _)) && find(fm, close_delim()) is None,
{
    let rest = strip_newline(raw.subrange(3, raw.len() as int));
    lemma_find_from(rest, close_delim(), 0);
    let e = find(rest, close_delim())->0;
    let fm = rest.subrange(0, e);
    assert forall|j: int| 0 <= j implies !occurs_at(fm, close_delim(), j) by {
        if occurs_at(fm, close_delim(), j) {
            assert(rest.subrange(j, j + 4) =~= fm.subrange(j, j + 4));
            assert(occurs_at(rest, close_delim(), j));
        }
    }
    lemma_find_from(fm, close_delim(), 0);
}

/// A successful split reassembles the document: `---`, an optional newline,
/// the frontmatter, `\n---`, an optional newline and the body.
pub proof fn lemma_frontmatter_reassembles(raw: Seq<char>)
    requires
        frontmatter_parts(raw) is Some,
    ensures
        ({
            let after_open = raw.subrange(3, raw.len() as int);
            let (fm, body) = frontmatter_parts(raw)->0;
            let e = fm.len() as int;
            let tail = strip_newline(after_open).subrange(e + 4, strip_newline(after_open).len() as int);
            raw == open_delim() + leading_newline(after_open) + fm + close_delim()
                + leading_newline(tail) + body
        }),
{
    let after_open = raw.subrange(3, raw.len() as int);
    let rest = strip_newline(after_open);
    lemma_find_from(rest, close_delim(), 0);
    let e = find(rest, close_delim())->0;
    let fm = rest.subrange(0, e);
    let tail = rest.subrange(e + 4, rest.len() as int);
    let body = strip_newline(tail);
    lemma_strip_newline(after_open);
    lemma_strip_newline(tail);
    assert(rest =~= fm + close_delim() + tail);
    assert(raw =~= open_delim() + after_open);
    let nl1 = leading_newline(after_open);
    let nl2 = leading_newline(tail);
    assert(open_delim() + nl1 + fm + close_delim() + nl2 + body =~= open_delim() + (nl1 + (fm
        + close_delim() + (nl2 + body))));
}

// ── lines ───────────────────────────────────────────────────────────────────

/// `line` without one trailing carriage return.
pub open spec fn strip_cr(line: Seq<char>) -> Seq<char> {
    if line.len() > 0 && line.last() == '\r' {
        line.drop_last()
    } else {
        line
    }
}

/// Splitting `s` into lines, as far as it goes: the finished lines (each cut
/// at a `\n`, which is dropped with one `\r` before it) and the unfinished
/// last line.
pub open spec fn line_scan(s: Seq<char>) -> (Seq<Seq<char>>, Seq<char>)
    decreases s.len(),
{
    if s.len() == 0 {
        (Seq::empty(), Seq::empty())
    } else {
        let (done, cur) = line_scan(s.drop_last());
        if s.last() == '\n' {
            (done.push(strip_cr(cur)), Seq::empty())
        } else {
            (done, cur.push(s.last()))
        }
    }
}

/// The lines of `s` (`str::lines`): split at `\n` or `\r\n`; an unfinished
/// last line counts when it is not empty.
pub open spec fn lines(s: Seq<char>) -> Seq<Seq<char>> {
    let (done, cur) = line_scan(s);
    if cur.len() > 0 {
        done.push(cur)
    } else {
        done
    }
}

/// The character ranges of the lines of `v`.
pub fn line_ranges(v: &Vec<char>) -> (r: Vec<(usize, usize)>)
    ensures
        r@.len() == lines(v@).len(),
        forall|k: int|
            0 <= k < r@.len() ==> #[trigger] r@[k].0 <= r@[k].1 <= v@.len() && v@.subrange(
                r@[k].0 as int,
                r@[k].1 as int,
            ) == lines(v@)[k],
{
    let n = v.len();
    let mut done: Vec<(usize, usize)> = Vec::new();
    let mut cur_start: usize = 0;
    let mut i: usize = 0;
    while i < n
        invariant
            n == v@.len(),
            cur_start <= i <= n,
            done@.len() == line_scan(v@.take(i as int)).0.len(),
            forall|k: int|
                #![trigger done@[k]]
                0 <= k < done@.len() ==> done@[k].0 <= done@[k].1 <= n
                    && v@.subrange(done@[k].0 as int, done@[k].1 as int) == line_scan(
                    v@.take(i as int),
                ).0[k],
            line_scan(v@.take(i as int)).1 == v@.subrange(cur_start as int, i as int),
        decreases n - i,
    {
        let ghost prev = line_scan(v@.take(i as int));
        assert(v@.take(i + 1).drop_last() =~= v@.take(i as int));
        assert(v@.take(i + 1).last() == v@[i as int]);
        let ghost s1 = v@.take(i + 1);
        if v[i] == '\n' {
            assert(line_scan(s1) == (prev.0.push(strip_cr(prev.1)), Seq::<char>::empty()));
            let mut end = i;
            if end > cur_start && v[end - 1] == '\r' {
                end = end - 1;
            }
            proof {
                let cur = v@.subrange(cur_start as int, i as int);
                if i > cur_start {
                    assert(cur.last() == v@[i - 1]);
                }
                if i > cur_start && v@[i - 1] == '\r' {
                    assert(cur.drop_last() =~= v@.subrange(cur_start as int, end as int));
                } else {
                    assert(cur =~= v@.subrange(cur_start as int, end as int));
                }
                assert(strip_cr(cur) == v@.subrange(cur_start as int, end as int));
                assert(prev.1 == cur);
            }
            let ghost old_done = done@;
            let ghost old_cur_start = cur_start;
            done.push((cur_start, end));
            cur_start = i + 1;
            assert forall|k: int| #![trigger done@[k]] 0 <= k < done@.len() implies done@[k].0 <= done@[k].1
                <= n && v@.subrange(done@[k].0 as int, done@[k].1 as int) == line_scan(
                v@.take(i + 1),
            ).0[k] by {
                if k < old_done.len() {
                    assert(done@[k] == old_done[k]);
                } else {
                    assert(done@[k] == (old_cur_start, end));
                }
            }
            assert(Seq::<char>::empty() =~= v@.subrange(cur_start as int, i + 1));
        } else {
            assert(line_scan(s1) == (prev.0, prev.1.push(v@[i as int])));
            assert forall|k: int| #![trigger done@[k]] 0 <= k < done@.len() implies done@[k].0 <= done@[k].1
                <= n && v@.subrange(done@[k].0 as int, done@[k].1 as int) == line_scan(s1).0[k] by {
                assert(v@.subrange(done@[k].0 as int, done@[k].1 as int) == prev.0[k]);
            }
            assert(prev.1.push(v@[i as int]) =~= v@.subrange(cur_start as int, i + 1));
        }
        i = i + 1;
    }
    assert(v@.take(n as int) =~= v@);
    if cur_start < n {
        done.push((cur_start, n));
    }
    done
}

// ── sections ────────────────────────────────────────────────────────────────

/// Whether a line opens a section: it starts with `## `.
pub open spec fn is_heading(line: Seq<char>) -> bool {
    line.len() >= 3 && line[0] == '#' && line[1] == '#' && line[2] == ' '
}

/// The key of a heading line: its text after `## `, trimmed and lowercased.
pub open spec fn heading_key(line: Seq<char>) -> Seq<char> {
    lowercase(trim(line.subrange(3, line.len() as int)))
}

/// For a heading whose text is ASCII, its key is the ASCII lowercase of the
/// trimmed text.
pub open spec fn ascii_heading_key(line: Seq<char>) -> bool {
    is_heading(line) && is_ascii_text(trim(line.subrange(3, line.len() as int))) ==> heading_key(line)
        == ascii_lower(trim(line.subrange(3, line.len() as int)))
}

/// Records the section being read, if any, with its text trimmed.
pub open spec fn close_section(
    m: Map<Seq<char>, Seq<char>>,
    key: Option<Seq<char>>,
    text: Seq<char>,
) -> Map<Seq<char>, Seq<char>> {
    match key {
        Some(k) => m.insert(k, trim(text)),
        None => m,
    }
}

/// One line of the section scan: a heading closes the current section and
/// opens a new one; any other line is added to the open section (with its
/// newline), or skipped before the first heading.
pub open spec fn heading_step(
    st: (Map<Seq<char>, Seq<char>>, Option<Seq<char>>, Seq<char>),
    line: Seq<char>,
) -> (Map<Seq<char>, Seq<char>>, Option<Seq<char>>, Seq<char>) {
    if is_heading(line) {
        (close_section(st.0, st.1, st.2), Some(heading_key(line)), Seq::empty())
    } else if st.1 is Some {
        (st.0, st.1, st.2 + line + seq!['\n'])
    } else {
        st
    }
}

/// The section scan over a sequence of lines: the sections closed so far,
/// the key of the open section and its text so far.
pub open spec fn heading_scan(ls: Seq<Seq<char>>) -> (
    Map<Seq<char>, Seq<char>>,
    Option<Seq<char>>,
    Seq<char>,
)
    decreases ls.len(),
{
    if ls.len() == 0 {
        (Map::empty(), None, Seq::empty())
    } else {
        heading_step(heading_scan(ls.drop_last()), ls.last())
    }
}

/// The sections of a markdown body, keyed by lowercased heading text, each
/// with its trimmed text; a later section replaces an earlier one of the same
/// key.
pub open spec fn sections_of(body: Seq<char>) -> Map<Seq<char>, Seq<char>> {
    let st = heading_scan(lines(body));
    close_section(st.0, st.1, st.2)
}

/// The index of the last heading line among `ls[0..bound)`.
pub open spec fn last_heading(ls: Seq<Seq<char>>, bound: int) -> Option<int>
    decreases bound,
{
    if bound <= 0 {
        None
    } else if is_heading(ls[bound - 1]) {
        Some(bound - 1)
    } else {
        last_heading(ls, bound - 1)
    }
}

/// The index of the last heading line with key `k` among `ls[0..bound)`.
pub open spec fn last_key_heading(ls: Seq<Seq<char>>, k: Seq<char>, bound: int) -> Option<int>
    decreases bound,
{
    if bound <= 0 {
        None
    } else if is_heading(ls[bound - 1]) && heading_key(ls[bound - 1]) == k {
        Some(bound - 1)
    } else {
        last_key_heading(ls, k, bound - 1)
    }
}

/// The index of the first heading line at or after `from`, or the number of
/// lines when there is none.
pub open spec fn next_heading(ls: Seq<Seq<char>>, from: int) -> int
    decreases ls.len() - from,
{
    if from < 0 || from >= ls.len() {
        ls.len() as int
    } else if is_heading(ls[from]) {
        from
    } else {
        next_heading(ls, from + 1)
    }
}

/// The lines `ls[lo..hi)`, each followed by a newline.
pub open spec fn lines_text(ls: Seq<Seq<char>>, lo: int, hi: int) -> Seq<char>
    decreases hi - lo,
{
    if hi <= lo {
        Seq::empty()
    } else {
        lines_text(ls, lo, hi - 1) + ls[hi - 1] + seq!['\n']
    }
}

/// What `last_heading` says: the line it names is a heading, and no line
/// after it (below `bound`) is one.
proof fn lemma_last_heading(ls: Seq<Seq<char>>, bound: int)
    requires
        0 <= bound <= ls.len(),
    ensures
        match last_heading(ls, bound) {
            Some(j) => 0 <= j < bound && is_heading(ls[j]) && forall|m: int| j < m < bound ==> !is_heading(#[trigger] ls[m]),
            None => forall|m: int| 0 <= m < bound ==> !is_heading(#[trigger] ls[m]),
        },
    decreases bound,
{
    if bound > 0 {
        lemma_last_heading(ls, bound - 1);
    }
}

/// Without headings in `[a, b)`, the last heading of a key below `b` is the
/// last one below `a`.
proof fn lemma_key_heading_skip(ls: Seq<Seq<char>>, k: Seq<char>, a: int, b: int)
    requires
        0 <= a <= b <= ls.len(),
        forall|m: int| a <= m < b ==> !is_heading(#[trigger] ls[m]),
    ensures
        last_key_heading(ls, k, b) == last_key_heading(ls, k, a),
    decreases b - a,
{
    if b > a {
        lemma_key_heading_skip(ls, k, a, b - 1);
    }
}

/// Without headings in `[a, b)`, the next heading from `a` is the next one
/// from `b`.
proof fn lemma_next_heading_skip(ls: Seq<Seq<char>>, a: int, b: int)
    requires
        0 <= a <= b <= ls.len(),
        forall|m: int| a <= m < b ==> !is_heading(#[trigger] ls[m]),
    ensures
        next_heading(ls, a) == next_heading(ls, b),
    decreases b - a,
{
    if b > a {
        lemma_next_heading_skip(ls, a + 1, b);
    }
}

/// The state of the section scan after the first `n` lines, in closed form:
/// the open section is the one of the last heading so far, its text the
/// lines after that heading; the closed sections are those of the earlier
/// headings, each keyed by its last heading.
proof fn lemma_scan_state(ls: Seq<Seq<char>>, n: int)
    requires
        0 <= n <= ls.len(),
    ensures
        ({
            let st = heading_scan(ls.take(n));
            let lh = last_heading(ls, n);
            let bound = match lh {
                Some(j) => j,
                None => 0,
            };
            &&& st.1 == (match lh {
                Some(j) => Some(heading_key(ls[j])),
                None => None,
            })
            &&& st.2 == (match lh {
                Some(j) => lines_text(ls, j + 1, n),
                None => Seq::empty(),
            })
            &&& forall|k: Seq<char>| #![trigger st.0.contains_key(k)] match last_key_heading(ls, k, bound) {
                Some(j) => st.0.contains_key(k) && st.0[k] == trim(lines_text(ls, j + 1, next_heading(ls, j + 1))),
                None => !st.0.contains_key(k),
            }
        }),
    decreases n,
{
    if n > 0 {
        lemma_scan_state(ls, n - 1);
        lemma_last_heading(ls, n - 1);
        assert(ls.take(n).drop_last() =~= ls.take(n - 1));
        assert(ls.take(n).last() == ls[n - 1]);
        let prev = heading_scan(ls.take(n - 1));
        let st = heading_scan(ls.take(n));
        let line = ls[n - 1];
        let lh0 = last_heading(ls, n - 1);
        if is_heading(line) {
            assert(last_heading(ls, n) == Some(n - 1));
            assert forall|k: Seq<char>| #![trigger st.0.contains_key(k)] match last_key_heading(ls, k, n - 1) {
                Some(j) => st.0.contains_key(k) && st.0[k] == trim(lines_text(ls, j + 1, next_heading(ls, j + 1))),
                None => !st.0.contains_key(k),
            } by {
                match lh0 {
                    Some(j0) => {
                        lemma_key_heading_skip(ls, k, j0 + 1, n - 1);
                        lemma_next_heading_skip(ls, j0 + 1, n - 1);
                        if heading_key(ls[j0]) == k {
                            assert(last_key_heading(ls, k, j0 + 1) == Some(j0));
                        } else {
                            assert(last_key_heading(ls, k, j0 + 1) == last_key_heading(ls, k, j0));
                        }
                    },
                    None => {
                        lemma_key_heading_skip(ls, k, 0, n - 1);
                    },
                }
            }
        } else {
            assert(last_heading(ls, n) == lh0);
        }
    }
}

/// The sections of a body in closed form: a key has a section exactly when
/// some heading line carries it; its text is the lines between the last such
/// heading and the next heading (or the end), each with its newline,
/// trimmed. Lines before the first heading belong to no section.
pub proof fn lemma_sections_closed_form(body: Seq<char>, k: Seq<char>)
    ensures
        ({
            let ls = lines(body);
            match last_key_heading(ls, k, ls.len() as int) {
                Some(j) => sections_of(body).contains_key(k) && sections_of(body)[k] == trim(
                    lines_text(ls, j + 1, next_heading(ls, j + 1)),
                ),
                None => !sections_of(body).contains_key(k),
            }
        }),
{
    let ls = lines(body);
    let n = ls.len() as int;
    lemma_scan_state(ls, n);
    lemma_last_heading(ls, n);
    assert(ls.take(n) =~= ls);
    let st = heading_scan(ls);
    assert(st.0.contains_key(k) || !st.0.contains_key(k));
    match last_heading(ls, n) {
        Some(j0) => {
            lemma_key_heading_skip(ls, k, j0 + 1, n);
            lemma_next_heading_skip(ls, j0 + 1, n);
            if heading_key(ls[j0]) == k {
                assert(last_key_heading(ls, k, j0 + 1) == Some(j0));
            } else {
                assert(last_key_heading(ls, k, j0 + 1) == last_key_heading(ls, k, j0));
            }
        },
        None => {
            lemma_key_heading_skip(ls, k, 0, n);
        },
    }
}

/// The map that a list of entries describes, later entries overriding
/// earlier ones.
pub open spec fn entries_map(es: Seq<(String, String)>) -> Map<Seq<char>, Seq<char>>
    decreases es.len(),
{
    if es.len() == 0 {
        Map::empty()
    } else {
        entries_map(es.drop_last()).insert(es.last().0@, es.last().1@)
    }
}

/// The index of the last entry with key `key`.
pub open spec fn last_entry(es: Seq<(String, String)>, key: Seq<char>) -> Option<int>
    decreases es.len(),
{
    if es.len() == 0 {
        None
    } else if es.last().0@ == key {
        Some(es.len() - 1)
    } else {
        last_entry(es.drop_last(), key)
    }
}

proof fn lemma_entries_map_lookup(es: Seq<(String, String)>, key: Seq<char>)
    ensures
        match last_entry(es, key) {
            Some(i) => 0 <= i < es.len() && es[i].0@ == key && (forall|j: int|
                i < j < es.len() ==> es[j].0@ != key) && entries_map(es).contains_key(key)
                && entries_map(es)[key] == es[i].1@,
            None => !entries_map(es).contains_key(key) && forall|j: int|
                0 <= j < es.len() ==> es[j].0@ != key,
        },
    decreases es.len(),
{
    if es.len() > 0 {
        let init = es.drop_last();
        lemma_entries_map_lookup(init, key);
        if es.last().0@ != key {
            assert forall|j: int| 0 <= j < init.len() implies #[trigger] init[j] == es[j] by {}
            match last_entry(init, key) {
                Some(i) => {
                    assert forall|j: int| i < j < es.len() implies es[j].0@ != key by {
                        if j < init.len() {
                            assert(init[j] == es[j]);
                        }
                    }
                },
                None => {
                    assert forall|j: int| 0 <= j < es.len() implies es[j].0@ != key by {
                        if j < init.len() {
                            assert(init[j] == es[j]);
                        }
                    }
                },
            }
        }
    }
}

/// The sections of a markdown document: a map from section key to text.
pub struct Sections {
    entries: Vec<(String, String)>,
}

impl View for Sections {
    type V = Map<Seq<char>, Seq<char>>;

    closed spec fn view(&self) -> Map<Seq<char>, Seq<char>> {
        entries_map(self.entries@)
    }
}

impl Sections {
    /// No sections.
    pub fn new() -> (r: Self)
        ensures
            r@ == Map::<Seq<char>, Seq<char>>::empty(),
    {
        Sections { entries: Vec::new() }
    }

    /// Record `value` under `key`, replacing what the key held.
    pub fn insert(&mut self, key: String, value: String)
        ensures
            final(self)@ == old(self)@.insert(key@, value@),
    {
        self.entries.push((key, value));
        assert(self.entries@.drop_last() =~= old(self).entries@);
    }

    /// The text recorded under `key`, if any.
    pub fn get(&self, key: &str) -> (r: Option<String>)
        ensures
            match r {
                Some(v) => self@.contains_key(key@) && v@ == self@[key@],
                None => !self@.contains_key(key@),
            },
    {
        let mut i = self.entries.len();
        while i > 0
            invariant
                i <= self.entries@.len(),
                forall|j: int| i <= j < self.entries@.len() ==> self.entries@[j].0@ != key@,
            decreases i,
        {
            if crate::text::text_eq(self.entries[i - 1].0.as_str(), key) {
                proof {
                    lemma_entries_map_lookup(self.entries@, key@);
                    match last_entry(self.entries@, key@) {
                        Some(k) => {
                            assert(k >= i - 1);
                            assert(k <= i - 1);
                        },
                        None => {
                            assert(self.entries@[i - 1].0@ != key@);
                        },
                    }
                }
                return Some(self.entries[i - 1].1.clone());
            }
            i = i - 1;
        }
        proof {
            lemma_entries_map_lookup(self.entries@, key@);
            match last_entry(self.entries@, key@) {
                Some(k) => {
                    assert(self.entries@[k].0@ != key@);
                },
                None => {},
            }
        }
        None
    }
}

/// Split a markdown body into `## Heading` sections keyed by lowercased
/// heading text.
pub fn split_headings(body: &str) -> (r: Sections)
    ensures
        r@ == sections_of(body@),
        forall|q: int| 0 <= q < lines(body@).len() ==> ascii_heading_key(#[trigger] lines(body@)[q]),
{
    let v = chars_of(body);
    let ranges = line_ranges(&v);
    let ghost ls = lines(v@);
    let mut sections = Sections::new();
    let mut key: Option<String> = None;
    let mut text = String::new();
    let mut k: usize = 0;
    while k < ranges.len()
        invariant
            v@ == body@,
            ls == lines(v@),
            ranges@.len() == ls.len(),
            forall|q: int|
                0 <= q < ranges@.len() ==> #[trigger] ranges@[q].0 <= ranges@[q].1 <= v@.len()
                    && v@.subrange(ranges@[q].0 as int, ranges@[q].1 as int) == ls[q],
            k <= ranges@.len(),
            heading_scan(ls.take(k as int)) == (sections@, crate::database::opt_view(key), text@),
            forall|q: int| 0 <= q < k ==> ascii_heading_key(#[trigger] ls[q]),
        decreases ranges@.len() - k,
    {
        let (a, b) = ranges[k];
        let ghost line = ls[k as int];
        assert(ls.take(k + 1).drop_last() =~= ls.take(k as int));
        assert(ls.take(k + 1).last() == line);
        assert(line == v@.subrange(a as int, b as int));
        if b - a >= 3 && v[a] == '#' && v[a + 1] == '#' && v[a + 2] == ' ' {
            match key {
                Some(kk) => {
                    let t = trimmed(text.as_str());
                    sections.insert(kk, t);
                },
                None => {},
            }
            let (x, y) = trim_range(&v, a + 3, b);
            assert(line.subrange(3, line.len() as int) =~= v@.subrange(a + 3, b as int));
            let heading = string_from(&v, x, y);
            key = Some(to_lowercase(heading.as_str()));
            text = String::new();
        } else {
            proof {
                if line.len() >= 3 {
                    assert(line[0] == v@[a as int]);
                    assert(line[1] == v@[a + 1]);
                    assert(line[2] == v@[a + 2]);
                }
            }
            if key.is_some() {
                push_range(&mut text, &v, a, b);
                text.push('\n');
            }
        }
        k = k + 1;
    }
    assert(ls.take(ranges@.len() as int) =~= ls);
    match key {
        Some(kk) => {
            let t = trimmed(text.as_str());
            sections.insert(kk, t);
        },
        None => {},
    }
    sections
}

} // verus!
