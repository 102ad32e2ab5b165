use vstd::prelude::*;

verus! {

// ---------------------------------------------------------------------------
// Mathematical definitions over character sequences
// ---------------------------------------------------------------------------

/// `p` occurs somewhere in `s` as a contiguous run of characters.
pub open spec fn contains(s: Seq<char>, p: Seq<char>) -> bool {
    exists|i: int| 0 <= i && i + p.len() <= s.len() && #[trigger] s.subrange(i, i + p.len()) == p
}

/// `s` begins with `p`.
pub open spec fn starts_with(s: Seq<char>, p: Seq<char>) -> bool {
    p.len() <= s.len() && s.subrange(0, p.len() as int) == p
}

/// The characters with the Unicode `White_Space` property, which is what
/// `char::is_whitespace` and `str::trim` go by.
pub open spec fn is_whitespace(c: char) -> bool {
    ||| '\u{9}' <= c <= '\u{d}'
    ||| c == ' '
    ||| c == '\u{85}'
    ||| c == '\u{a0}'
    ||| c == '\u{1680}'
    ||| '\u{2000}' <= c <= '\u{200a}'
    ||| c == '\u{2028}'
    ||| c == '\u{2029}'
    ||| c == '\u{202f}'
    ||| c == '\u{205f}'
    ||| c == '\u{3000}'
}

/// `s` without its leading whitespace.
pub open spec fn trim_start(s: Seq<char>) -> Seq<char>
    decreases s.len(),
{
    if s.len() > 0 && is_whitespace(s[0]) {
        trim_start(s.drop_first())
    } else {
        s
    }
}

/// `s` without its trailing whitespace.
pub open spec fn trim_end(s: Seq<char>) -> Seq<char>
    decreases s.len(),
{
    if s.len() > 0 && is_whitespace(s.last()) {
        trim_end(s.drop_last())
    } else {
        s
    }
}

/// `s` without leading and trailing whitespace.
pub open spec fn trim(s: Seq<char>) -> Seq<char> {
    trim_end(trim_start(s))
}

/// A line of `t` begins at position `a`: `a` is inside `t` and is the first
/// position or follows a line feed. (A line feed at the very end of `t`
/// starts no further line.)
pub open spec fn line_start(t: Seq<char>, a: int) -> bool {
    0 <= a < t.len() && (a == 0 || t[a - 1] == '\n')
}

/// The position of the first line feed at or after `a`, or the length of `t`.
pub open spec fn line_end(t: Seq<char>, a: int) -> int
    decreases t.len() - a,
{
    if a < 0 || a >= t.len() {
        t.len() as int
    } else if t[a] == '\n' {
        a
    } else {
        line_end(t, a + 1)
    }
}

/// The line of `t` that begins at `a`, without its line ending: the line
/// feed and, before it, one carriage return.
pub open spec fn line_at(t: Seq<char>, a: int) -> Seq<char> {
    let e = line_end(t, a);
    if e < t.len() && e > a && t[e - 1] == '\r' {
        t.subrange(a, e - 1)
    } else {
        t.subrange(a, e)
    }
}

/// A line that holds code: once its leading whitespace is set aside, it is
/// not empty and does not begin with `//`.
pub open spec fn is_code_line(line: Seq<char>) -> bool {
    let rest = trim_start(line);
    rest.len() > 0 && !starts_with(rest, seq!['/', '/'])
}

/// Some line of the trimmed text holds code.
pub open spec fn has_code(content: Seq<char>) -> bool {
    exists|a: int| line_start(trim(content), a) && #[trigger] is_code_line(line_at(trim(content), a))
}

/// The line of `t` that begins at `a` is the first one that contains `p`.
pub open spec fn first_line_with_at(t: Seq<char>, p: Seq<char>, a: int) -> bool {
    &&& line_start(t, a)
    &&& contains(line_at(t, a), p)
    &&& forall|b: int| 0 <= b < a && line_start(t, b) ==> !contains(#[trigger] line_at(t, b), p)
}

/// The first line of `t` that contains `p`, if there is one.
pub open spec fn first_line_with(t: Seq<char>, p: Seq<char>) -> Option<Seq<char>> {
    if exists|a: int| #[trigger] first_line_with_at(t, p, a) {
        Some(line_at(t, choose|a: int| #[trigger] first_line_with_at(t, p, a)))
    } else {
        None
    }
}

/// The first line of `t`, or nothing when `t` is empty.
pub open spec fn first_line(t: Seq<char>) -> Seq<char> {
    if t.len() > 0 {
        line_at(t, 0)
    } else {
        Seq::empty()
    }
}

// ---------------------------------------------------------------------------
// Lemmas
// ---------------------------------------------------------------------------

proof fn lemma_line_end_bounds(t: Seq<char>, a: int)
    requires
        0 <= a <= t.len(),
    ensures
        a <= line_end(t, a) <= t.len(),
        forall|j: int| a <= j < line_end(t, a) ==> t[j] != '\n',
        line_end(t, a) < t.len() ==> t[line_end(t, a)] == '\n',
    decreases t.len() - a,
{
    if a < t.len() && t[a] != '\n' {
        lemma_line_end_bounds(t, a + 1);
    }
}

/// Between a line start and the end of its line no other line starts.
proof fn lemma_no_start_inside_line(t: Seq<char>, a: int, b: int)
    requires
        0 <= a < b <= line_end(t, a),
        a < t.len(),
    ensures
        !line_start(t, b),
{
    lemma_line_end_bounds(t, a);
    if b < t.len() {
        assert(t[b - 1] != '\n');
    }
}

proof fn lemma_trim_start_is_suffix(s: Seq<char>, lo: int)
    requires
        0 <= lo <= s.len(),
        forall|i: int| 0 <= i < lo ==> is_whitespace(#[trigger] s[i]),
        lo == s.len() || !is_whitespace(s[lo]),
    ensures
        trim_start(s) == s.subrange(lo, s.len() as int),
    decreases lo,
{
    if lo > 0 {
        let d = s.drop_first();
        assert forall|i: int| 0 <= i < lo - 1 implies is_whitespace(#[trigger] d[i]) by {
            assert(d[i] == s[i + 1]);
        }
        lemma_trim_start_is_suffix(d, lo - 1);
        assert(d.subrange(lo - 1, d.len() as int) =~= s.subrange(lo, s.len() as int));
    } else {
        assert(s.subrange(0, s.len() as int) =~= s);
    }
}

proof fn lemma_trim_end_is_prefix(s: Seq<char>, hi: int)
    requires
        0 <= hi <= s.len(),
        forall|i: int| hi <= i < s.len() ==> is_whitespace(#[trigger] s[i]),
        hi == 0 || !is_whitespace(s[hi - 1]),
    ensures
        trim_end(s) == s.subrange(0, hi),
    decreases s.len() - hi,
{
    if hi < s.len() {
        let d = s.drop_last();
        assert forall|i: int| hi <= i < d.len() implies is_whitespace(#[trigger] d[i]) by {
            assert(d[i] == s[i]);
        }
        lemma_trim_end_is_prefix(d, hi);
        assert(d.subrange(0, hi) =~= s.subrange(0, hi));
    } else {
        assert(s.subrange(0, hi) =~= s);
    }
}

// ---------------------------------------------------------------------------
// Executable functions
// ---------------------------------------------------------------------------

/// The characters of a string, in order.
pub fn chars_of(s: &str) -> (chars: Vec<char>)
    ensures
        chars@ == s@,
{
    broadcast use vstd::string::group_string_axioms;

    let mut chars: Vec<char> = Vec::new();
    for c in it: s.chars()
        invariant
            it.seq() == s@,
            chars@ == it.seq().take(it.index()),
    {
        chars.push(c);
    }
    chars
}

/// Whether `p` occurs in `s` starting at position `i`.
fn occurs_at(s: &Vec<char>, p: &Vec<char>, i: usize) -> (found: bool)
    requires
        i + p.len() <= s.len(),
    ensures
        found == (s@.subrange(i as int, i + p.len()) == p@),
{
    let n = p.len();
    let mut j: usize = 0;
    while j < n
        invariant
            n == p.len(),
            i + n <= s.len(),
            j <= n,
            forall|k: int| 0 <= k < j ==> s@[i + k] == p@[k],
        decreases n - j,
    {
        if s[i + j] != p[j] {
            assert(s@.subrange(i as int, i + n)[j as int] != p@[j as int]);
            return false;
        }
        j = j + 1;
    }
    assert(s@.subrange(i as int, i + n) =~= p@);
    true
}

/// Whether `p` occurs in `s`.
pub fn contains_chars(s: &Vec<char>, p: &Vec<char>) -> (found: bool)
    ensures
        found == contains(s@, p@),
{
    if p.len() > s.len() {
        return false;
    }
    if p.len() == 0 {
        assert(s@.subrange(0, 0int + p@.len()) =~= p@);
        return true;
    }
    let last = s.len() - p.len();
    let mut i: usize = 0;
    while i <= last
        invariant
            last + p.len() == s.len(),
            p.len() >= 1,
            i <= last + 1,
            forall|k: int| 0 <= k < i ==> #[trigger] s@.subrange(k, k + p.len()) != p@,
        decreases last + 1 - i,
    {
        if occurs_at(s, p, i) {
            return true;
        }
        i = i + 1;
    }
    false
}

/// Whether `pattern` occurs in `text` (std's `str::contains` for a string
/// pattern).
pub fn text_contains(text: &str, pattern: &str) -> (found: bool)
    ensures
        found == contains(text@, pattern@),
{
    let t = chars_of(text);
    let p = chars_of(pattern);
    contains_chars(&t, &p)
}

/// The bounds of the trimmed text inside `s`.
fn trim_bounds(s: &Vec<char>) -> (bounds: (usize, usize))
    ensures
        bounds.0 <= bounds.1 <= s.len(),
        trim(s@) == s@.subrange(bounds.0 as int, bounds.1 as int),
{
    let n = s.len();
    let mut lo: usize = 0;
    while lo < n && is_whitespace_char(s[lo])
        invariant
            n == s.len(),
            lo <= n,
            forall|i: int| 0 <= i < lo ==> is_whitespace(#[trigger] s@[i]),
        decreases n - lo,
    {
        lo = lo + 1;
    }
    proof {
        lemma_trim_start_is_suffix(s@, lo as int);
    }
    let ghost ts = s@.subrange(lo as int, n as int);
    let mut hi: usize = n;
    while hi > lo && is_whitespace_char(s[hi - 1])
        invariant
            n == s.len(),
            lo <= hi <= n,
            forall|i: int| hi <= i < n ==> is_whitespace(#[trigger] s@[i]),
        decreases hi,
    {
        hi = hi - 1;
    }
    proof {
        assert forall|i: int| hi - lo <= i < ts.len() implies is_whitespace(#[trigger] ts[i]) by {
            assert(ts[i] == s@[lo + i]);
        }
        if hi > lo {
            assert(ts[hi - lo - 1] == s@[hi - 1]);
        }
        lemma_trim_end_is_prefix(ts, hi - lo);
        assert(ts.subrange(0, hi - lo) =~= s@.subrange(lo as int, hi as int));
    }
    (lo, hi)
}

/// `char::is_whitespace`.
pub fn is_whitespace_char(c: char) -> (ws: bool)
    ensures
        ws == is_whitespace(c),
{
    ('\u{9}' <= c && c <= '\u{d}') || c == ' ' || c == '\u{85}' || c == '\u{a0}' || c == '\u{1680}'
        || ('\u{2000}' <= c && c <= '\u{200a}') || c == '\u{2028}' || c == '\u{2029}' || c
        == '\u{202f}' || c == '\u{205f}' || c == '\u{3000}'
}

/// The trimmed text, as characters.
pub fn trimmed_chars(s: &str) -> (t: Vec<char>)
    ensures
        t@ == trim(s@),
{
    let chars = chars_of(s);
    let (lo, hi) = trim_bounds(&chars);
    let mut t: Vec<char> = Vec::new();
    let mut i: usize = lo;
    while i < hi
        invariant
            lo <= i <= hi <= chars.len(),
            t@ == chars@.subrange(lo as int, i as int),
        decreases hi - i,
    {
        t.push(chars[i]);
        i = i + 1;
        assert(t@ =~= chars@.subrange(lo as int, i as int));
    }
    t
}

/// The end of the line that begins at `a`, and the end of its content
/// (before a carriage return that precedes the line feed).
fn line_bounds(t: &Vec<char>, a: usize) -> (bounds: (usize, usize))
    requires
        a <= t.len(),
    ensures
        bounds.1 as int == line_end(t@, a as int),
        a <= bounds.0 <= bounds.1 <= t.len(),
        bounds.1 < t.len() ==> t@[bounds.1 as int] == '\n',
        line_at(t@, a as int) == t@.subrange(a as int, bounds.0 as int),
{
    let n = t.len();
    let mut e: usize = a;
    proof {
        lemma_line_end_bounds(t@, a as int);
    }
    while e < n && t[e] != '\n'
        invariant
            n == t.len(),
            a <= e <= n,
            line_end(t@, e as int) == line_end(t@, a as int),
        decreases n - e,
    {
        e = e + 1;
    }
    if e < n && e > a && t[e - 1] == '\r' {
        (e - 1, e)
    } else {
        (e, e)
    }
}

/// Whether the line `t[a..c]` holds code.
fn code_in(t: &Vec<char>, a: usize, c: usize) -> (code: bool)
    requires
        a <= c <= t.len(),
    ensures
        code == is_code_line(t@.subrange(a as int, c as int)),
{
    let ghost line = t@.subrange(a as int, c as int);
    let mut k: usize = a;
    while k < c && is_whitespace_char(t[k])
        invariant
            a <= k <= c <= t.len(),
            line == t@.subrange(a as int, c as int),
            forall|i: int| 0 <= i < k - a ==> is_whitespace(#[trigger] line[i]),
        decreases c - k,
    {
        assert(line[k - a] == t@[k as int]);
        k = k + 1;
    }
    proof {
        if k < c {
            assert(line[k - a] == t@[k as int]);
        }
        lemma_trim_start_is_suffix(line, k - a);
        assert(line.subrange(k - a, line.len() as int) =~= t@.subrange(k as int, c as int));
    }
    let ghost rest = t@.subrange(k as int, c as int);
    if c == k {
        return false;
    }
    if c - k >= 2 && t[k] == '/' && t[k + 1] == '/' {
        assert(rest.subrange(0, 2) =~= seq!['/', '/']);
        return false;
    }
    if c - k >= 2 {
        assert(rest.subrange(0, 2)[0] == t@[k as int]);
        assert(rest.subrange(0, 2)[1] == t@[k + 1]);
    }
    true
}

/// Whether some line of the trimmed content holds code: a line that, after
/// its leading whitespace, is not empty and does not begin with `//`.
pub fn has_code_line(content: &str) -> (code: bool)
    ensures
        code == has_code(content@),
{
    let t = trimmed_chars(content);
    let ghost tv = trim(content@);
    let n = t.len();
    let mut a: usize = 0;
    while a < n
        invariant
            n == t.len(),
            t@ == tv,
            tv == trim(content@),
            a <= n,
            a == 0 || t@[a - 1] == '\n',
            forall|b: int| 0 <= b < a && line_start(tv, b) ==> !is_code_line(#[trigger] line_at(tv, b)),
        decreases n - a,
    {
        let (c, e) = line_bounds(&t, a);
        if code_in(&t, a, c) {
            assert(line_start(tv, a as int));
            assert(is_code_line(line_at(tv, a as int)));
            assert(has_code(content@));
            return true;
        }
        proof {
            assert forall|b: int| 0 <= b < e + 1 && line_start(tv, b) implies !is_code_line(
                #[trigger] line_at(tv, b),
            ) by {
                if a < b {
                    if b <= e {
                        lemma_no_start_inside_line(tv, a as int, b);
                    }
                }
            }
        }
        if e == n {
            return false;
        }
        a = e + 1;
    }
    false
}

/// Where the first line of `t` that contains `p` begins, and where its
/// content ends.
fn first_line_with_chars(t: &Vec<char>, p: &Vec<char>) -> (found: Option<(usize, usize)>)
    ensures
        match found {
            Some((a, c)) => first_line_with_at(t@, p@, a as int) && a <= c <= t.len()
                && line_at(t@, a as int) == t@.subrange(a as int, c as int),
            None => forall|a: int| line_start(t@, a) ==> !contains(#[trigger] line_at(t@, a), p@),
        },
{
    let n = t.len();
    let mut a: usize = 0;
    while a < n
        invariant
            n == t.len(),
            a <= n,
            a == 0 || t@[a - 1] == '\n',
            forall|b: int| 0 <= b < a && line_start(t@, b) ==> !contains(#[trigger] line_at(t@, b), p@),
        decreases n - a,
    {
        let (c, e) = line_bounds(t, a);
        let line = slice_of(t, a, c);
        if contains_chars(&line, p) {
            return Some((a, c));
        }
        proof {
            assert forall|b: int| 0 <= b < e + 1 && line_start(t@, b) implies !contains(
                #[trigger] line_at(t@, b),
                p@,
            ) by {
                if a < b {
                    if b <= e {
                        lemma_no_start_inside_line(t@, a as int, b);
                    }
                }
            }
        }
        if e == n {
            return None;
        }
        a = e + 1;
    }
    None
}

/// The first line of `text` that contains `pattern`: what
/// `text.lines().find(|l| l.contains(pattern))` yields.
pub fn first_line_containing(text: &str, pattern: &str) -> (line: Option<String>)
    ensures
        opt_seq(line) == first_line_with(text@, pattern@),
{
    let t = chars_of(text);
    let p = chars_of(pattern);
    match first_line_with_chars(&t, &p) {
        Some((a, c)) => {
            proof {
                let chosen = choose|x: int| #[trigger] first_line_with_at(t@, p@, x);
                assert(first_line_with_at(t@, p@, chosen));
                if chosen < a {
                    assert(!contains(line_at(t@, chosen), p@));
                }
                if a < chosen {
                    assert(!contains(line_at(t@, a as int), p@));
                }
            }
            Some(text.substring_char(a, c).to_owned())
        },
        None => {
            assert(!exists|x: int| #[trigger] first_line_with_at(t@, p@, x));
            None
        },
    }
}

/// The first line of `text`, or the empty string when `text` is empty: what
/// `text.lines().next().unwrap_or("")` yields.
pub fn first_line_of(text: &str) -> (line: String)
    ensures
        line@ == first_line(text@),
{
    let t = chars_of(text);
    if t.len() == 0 {
        return String::new();
    }
    let (c, _e) = line_bounds(&t, 0);
    text.substring_char(0, c).to_owned()
}

/// The characters `t[a..c]`.
fn slice_of(t: &Vec<char>, a: usize, c: usize) -> (part: Vec<char>)
    requires
        a <= c <= t.len(),
    ensures
        part@ == t@.subrange(a as int, c as int),
{
    let mut part: Vec<char> = Vec::new();
    let mut k: usize = a;
    while k < c
        invariant
            a <= k <= c <= t.len(),
            part@ == t@.subrange(a as int, k as int),
        decreases c - k,
    {
        part.push(t[k]);
        k = k + 1;
        assert(part@ =~= t@.subrange(a as int, k as int));
    }
    part
}

/// `a` followed by `b`, as a new string.
pub fn concat_text(a: &str, b: &str) -> (s: String)
    ensures
        s@ == a@ + b@,
{
    let mut s = a.to_owned();
    s.append(b);
    s
}


// ---------------------------------------------------------------------------
// License expressions
// ---------------------------------------------------------------------------

/// A character that separates the identifiers of a license expression:
/// whitespace, parentheses, and the `/` of the older `MIT/Apache-2.0` form.
pub open spec fn is_license_separator(c: char) -> bool {
    is_whitespace(c) || c == '(' || c == ')' || c == '/'
}

/// `e[i..j]` is a word of the license expression: a longest run of
/// characters that are not separators.
pub open spec fn license_word(e: Seq<char>, i: int, j: int) -> bool {
    &&& 0 <= i < j <= e.len()
    &&& (i == 0 || is_license_separator(e[i - 1]))
    &&& (j == e.len() || is_license_separator(e[j]))
    &&& forall|k: int| i <= k < j ==> !is_license_separator(#[trigger] e[k])
}

/// The operators of an SPDX expression.
pub open spec fn is_license_operator(w: Seq<char>) -> bool {
    w == seq!['O', 'R'] || w == seq!['A', 'N', 'D'] || w == seq!['W', 'I', 'T', 'H']
}

/// A character that can belong to an SPDX identifier, so that an identifier
/// found next to one is part of a longer word.
pub open spec fn is_identifier_char(c: char) -> bool {
    ('a' <= c <= 'z') || ('A' <= c <= 'Z') || ('0' <= c <= '9') || c == '-' || c == '+'
}

/// `id` stands in `text` at position `i` as a whole word.
pub open spec fn names_at(text: Seq<char>, id: Seq<char>, i: int) -> bool {
    &&& 0 <= i && i + id.len() <= text.len()
    &&& text.subrange(i, i + id.len()) == id
    &&& (i == 0 || !is_identifier_char(text[i - 1]))
    &&& (i + id.len() == text.len() || !is_identifier_char(text[i + id.len()]))
}

/// A word of the expression is a license identifier that the text names,
/// whole: `MIT` is not named by `SUBMIT`, nor `GPL-3.0` by `LGPL-3.0`.
pub open spec fn word_matches(text: Seq<char>, word: Seq<char>) -> bool {
    !is_license_operator(word) && word.len() > 0 && exists|i: int| #[trigger] names_at(text, word, i)
}

/// The license text names, as a whole word, one of the license identifiers
/// of the SPDX expression.
pub open spec fn license_matches(text: Seq<char>, expression: Seq<char>) -> bool {
    exists|i: int, j: int| #[trigger] license_word(expression, i, j) && word_matches(
        text,
        expression.subrange(i, j),
    )
}

/// Whether a separator of license expressions.
fn license_separator(c: char) -> (sep: bool)
    ensures
        sep == is_license_separator(c),
{
    is_whitespace_char(c) || c == '(' || c == ')' || c == '/'
}

/// Whether the word `e[a..b]` is an operator of the expression.
fn operator_at(e: &Vec<char>, a: usize, b: usize) -> (op: bool)
    requires
        a <= b <= e.len(),
    ensures
        op == is_license_operator(e@.subrange(a as int, b as int)),
{
    let ghost w = e@.subrange(a as int, b as int);
    let len = b - a;
    if len == 2 && e[a] == 'O' && e[a + 1] == 'R' {
        assert(w =~= seq!['O', 'R']);
        return true;
    }
    if len == 3 && e[a] == 'A' && e[a + 1] == 'N' && e[a + 2] == 'D' {
        assert(w =~= seq!['A', 'N', 'D']);
        return true;
    }
    if len == 4 && e[a] == 'W' && e[a + 1] == 'I' && e[a + 2] == 'T' && e[a + 3] == 'H' {
        assert(w =~= seq!['W', 'I', 'T', 'H']);
        return true;
    }
    proof {
        if w == seq!['O', 'R'] {
            assert(seq!['O', 'R'].len() == 2 && seq!['O', 'R'][0] == 'O' && seq!['O', 'R'][1] == 'R');
            assert(w[0] == e@[a as int] && w[1] == e@[a + 1]);
        }
        if w == seq!['A', 'N', 'D'] {
            assert(seq!['A', 'N', 'D'].len() == 3 && seq!['A', 'N', 'D'][0] == 'A' && seq!['A', 'N', 'D'][1] == 'N' && seq!['A', 'N', 'D'][2] == 'D');
            assert(w[0] == e@[a as int] && w[1] == e@[a + 1] && w[2] == e@[a + 2]);
        }
        if w == seq!['W', 'I', 'T', 'H'] {
            assert(seq!['W', 'I', 'T', 'H'].len() == 4 && seq!['W', 'I', 'T', 'H'][0] == 'W' && seq!['W', 'I', 'T', 'H'][1] == 'I' && seq!['W', 'I', 'T', 'H'][2] == 'T' && seq!['W', 'I', 'T', 'H'][3] == 'H');
            assert(w[0] == e@[a as int] && w[1] == e@[a + 1] && w[2] == e@[a + 2] && w[3] == e@[a + 3]);
        }
    }
    false
}

/// Whether a character can belong to an SPDX identifier.
fn identifier_char(c: char) -> (id: bool)
    ensures
        id == is_identifier_char(c),
{
    ('a' <= c && c <= 'z') || ('A' <= c && c <= 'Z') || ('0' <= c && c <= '9') || c == '-' || c == '+'
}

/// Whether `p` stands in `s` as a whole word.
fn names_word(s: &Vec<char>, p: &Vec<char>) -> (found: bool)
    ensures
        found == exists|i: int| #[trigger] names_at(s@, p@, i),
{
    if p.len() > s.len() {
        return false;
    }
    let last = s.len() - p.len();
    let mut i: usize = 0;
    while i <= last
        invariant
            last + p.len() == s.len(),
            i <= last + 1,
            forall|k: int| 0 <= k < i ==> !#[trigger] names_at(s@, p@, k),
        decreases last + 1 - i,
    {
        if occurs_at(s, p, i) && (i == 0 || !identifier_char(s[i - 1])) && (i == last
            || !identifier_char(s[i + p.len()])) {
            assert(names_at(s@, p@, i as int));
            return true;
        }
        if i == last {
            return false;
        }
        i = i + 1;
    }
    false
}

/// Whether the word `e[a..b]` is a license identifier that the text names.
fn word_matches_at(t: &Vec<char>, e: &Vec<char>, a: usize, b: usize) -> (m: bool)
    requires
        a <= b <= e.len(),
    ensures
        m == word_matches(t@, e@.subrange(a as int, b as int)),
{
    if operator_at(e, a, b) || a == b {
        return false;
    }
    let word = slice_of(e, a, b);
    names_word(t, &word)
}

/// Whether the license text names, as a whole word, one of the license
/// identifiers of the SPDX expression (the operators `OR`, `AND` and `WITH`
/// name no license).
pub fn license_text_matches(text: &str, expression: &str) -> (found: bool)
    ensures
        found == license_matches(text@, expression@),
{
    let t = chars_of(text);
    let e = chars_of(expression);
    let n = e.len();
    let mut i: usize = 0;
    while i < n
        invariant
            n == e.len(),
            i <= n,
            t@ == text@,
            e@ == expression@,
            i == 0 || is_license_separator(e@[i - 1]) || is_license_separator(e@[i as int]) || i == n,
            forall|a: int, b: int|
                a < i && #[trigger] license_word(e@, a, b) ==> !word_matches(t@, e@.subrange(a, b)),
        decreases n - i,
    {
        if license_separator(e[i]) {
            proof {
                assert forall|a: int, b: int| a < i + 1 && #[trigger] license_word(e@, a, b) implies !word_matches(
                    t@,
                    e@.subrange(a, b),
                ) by {
                    if a == i {
                        assert(!is_license_separator(e@[a]));
                    }
                }
            }
            i = i + 1;
        } else {
            let start = i;
            while i < n && !license_separator(e[i])
                invariant
                    n == e.len(),
                    start <= i <= n,
                    forall|k: int| start <= k < i ==> !is_license_separator(#[trigger] e@[k]),
                decreases n - i,
            {
                i = i + 1;
            }
            assert(license_word(e@, start as int, i as int));
            if word_matches_at(&t, &e, start, i) {
                assert(word_matches(t@, e@.subrange(start as int, i as int)));
                return true;
            }
            proof {
                assert forall|a: int, b: int| a < i && #[trigger] license_word(e@, a, b) implies !word_matches(
                    t@,
                    e@.subrange(a, b),
                ) by {
                    if start <= a {
                        if start < a {
                            assert(!is_license_separator(e@[a - 1]));
                        }
                        if b < i {
                            assert(!is_license_separator(e@[b]));
                        }
                        if b > i {
                            assert(!is_license_separator(e@[i as int]));
                        }
                    }
                }
            }
        }
    }
    false
}

/// The view of an optional string.
pub open spec fn opt_seq(o: Option<String>) -> Option<Seq<char>> {
    match o {
        Some(s) => Some(s@),
        None => None,
    }
}

} // verus!
