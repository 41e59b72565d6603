//! Character-level text handling: whitespace, trimming, line splitting and
//! the small field splits that the command outputs of the installer need.
//!
//! Every function works on the characters of a string (`s@`), so a spec
//! function here says what the result is as a sequence of characters.
use vstd::prelude::*;

verus! {

/// The Unicode `White_Space` characters, the set that `char::is_whitespace`
/// and `str::trim` use.
pub open spec fn is_space(c: char) -> bool {
    ||| ('\t' <= c && c <= '\r')
    ||| c == ' '
    ||| c == '\u{85}'
    ||| c == '\u{a0}'
    ||| c == '\u{1680}'
    ||| ('\u{2000}' <= c && c <= '\u{200a}')
    ||| c == '\u{2028}'
    ||| c == '\u{2029}'
    ||| c == '\u{202f}'
    ||| c == '\u{205f}'
    ||| c == '\u{3000}'
}

/// `s` without its leading white space.
pub open spec fn trim_start(s: Seq<char>) -> Seq<char>
    decreases s.len(),
{
    if s.len() > 0 && is_space(s[0]) {
        trim_start(s.drop_first())
    } else {
        s
    }
}

/// `s` without its trailing white space.
pub open spec fn trim_end(s: Seq<char>) -> Seq<char>
    decreases s.len(),
{
    if s.len() > 0 && is_space(s.last()) {
        trim_end(s.drop_last())
    } else {
        s
    }
}

/// `s` without leading and trailing white space (`str::trim`).
pub open spec fn trim(s: Seq<char>) -> Seq<char> {
    trim_end(trim_start(s))
}

/// The index of the first character at or after `i` that satisfies
/// `is_space`, or `s.len()` where there is none.
pub open spec fn next_space(s: Seq<char>, i: int) -> int
    decreases s.len() - i,
{
    if i < 0 || i >= s.len() {
        s.len() as int
    } else if is_space(s[i]) {
        i
    } else {
        next_space(s, i + 1)
    }
}

/// The index of the first `'\n'` at or after `i`, or `s.len()` where there is
/// none.
pub open spec fn next_newline(s: Seq<char>, i: int) -> int
    decreases s.len() - i,
{
    if i < 0 || i >= s.len() {
        s.len() as int
    } else if s[i] == '\n' {
        i
    } else {
        next_newline(s, i + 1)
    }
}

/// One `'\r'` less at the end, if there is one there.
pub open spec fn strip_cr(l: Seq<char>) -> Seq<char> {
    if l.len() > 0 && l.last() == '\r' {
        l.drop_last()
    } else {
        l
    }
}

/// The lines of `s` from index `i` on, as `str::lines` gives them: split at
/// `'\n'`, a `'\r'` just before a `'\n'` dropped, and no empty line after a
/// final `'\n'`.
pub open spec fn lines_from(s: Seq<char>, i: int) -> Seq<Seq<char>>
    decreases s.len() + 1 - i,
    via lines_from_decreases
{
    if i < 0 || i >= s.len() {
        Seq::empty()
    } else {
        let j = next_newline(s, i);
        let raw = s.subrange(i, j);
        let line = if j < s.len() {
            strip_cr(raw)
        } else {
            raw
        };
        seq![line] + lines_from(s, j + 1)
    }
}

#[via_fn]
proof fn lines_from_decreases(s: Seq<char>, i: int) {
    if 0 <= i < s.len() {
        lemma_next_newline_bounds(s, i);
    }
}

/// The lines of `s` (`str::lines`).
pub open spec fn lines(s: Seq<char>) -> Seq<Seq<char>> {
    lines_from(s, 0)
}

/// The fields of `s` split at white space into at most three
/// (`str::splitn(3, char::is_whitespace)`): every white-space character up to
/// the second one separates, so two in a row give an empty field, and the
/// third field is the rest of `s` as it stands.
pub open spec fn split3_ws(s: Seq<char>) -> Seq<Seq<char>> {
    let a = next_space(s, 0);
    if a >= s.len() {
        seq![s]
    } else {
        let b = next_space(s, a + 1);
        if b >= s.len() {
            seq![s.subrange(0, a), s.subrange(a + 1, s.len() as int)]
        } else {
            seq![s.subrange(0, a), s.subrange(a + 1, b), s.subrange(b + 1, s.len() as int)]
        }
    }
}

/// What follows the last `'/'` of `s`, or all of `s` where it has none
/// (`s.split('/').last()`).
pub open spec fn last_segment(s: Seq<char>) -> Seq<char>
    decreases s.len(),
{
    if s.len() == 0 {
        s
    } else if s.last() == '/' {
        Seq::empty()
    } else {
        last_segment(s.drop_last()).push(s.last())
    }
}

/// The first white-space separated word of `s`, or nothing where `s` is all
/// white space (`s.split_whitespace().next().unwrap_or("")`).
pub open spec fn first_word(s: Seq<char>) -> Seq<char> {
    let t = trim_start(s);
    t.subrange(0, next_space(t, 0))
}

/// The pieces of `parts` with `sep` between each two of them.
pub open spec fn join(parts: Seq<Seq<char>>, sep: Seq<char>) -> Seq<char>
    decreases parts.len(),
{
    if parts.len() == 0 {
        Seq::empty()
    } else if parts.len() == 1 {
        parts[0]
    } else {
        join(parts.drop_last(), sep) + sep + parts.last()
    }
}

/// The character sequences of a list of strings.
pub open spec fn views(v: Seq<String>) -> Seq<Seq<char>> {
    v.map_values(|x: String| x@)
}

/// The character sequences of a list of string slices.
pub open spec fn str_views(v: Seq<&str>) -> Seq<Seq<char>> {
    v.map_values(|x: &str| x@)
}

pub proof fn lemma_next_newline_bounds(s: Seq<char>, i: int)
    requires
        0 <= i <= s.len(),
    ensures
        i <= next_newline(s, i) <= s.len(),
        next_newline(s, i) < s.len() ==> s[next_newline(s, i)] == '\n',
        forall|k: int| i <= k < next_newline(s, i) ==> s[k] != '\n',
    decreases s.len() - i,
{
    if i < s.len() && s[i] != '\n' {
        lemma_next_newline_bounds(s, i + 1);
    }
}

pub proof fn lemma_next_space_bounds(s: Seq<char>, i: int)
    requires
        0 <= i <= s.len(),
    ensures
        i <= next_space(s, i) <= s.len(),
        next_space(s, i) < s.len() ==> is_space(s[next_space(s, i)]),
        forall|k: int| i <= k < next_space(s, i) ==> !is_space(s[k]),
    decreases s.len() - i,
{
    if i < s.len() && !is_space(s[i]) {
        lemma_next_space_bounds(s, i + 1);
    }
}

/// Whether `c` is white space (`char::is_whitespace`).
pub fn is_space_char(c: char) -> (b: bool)
    ensures
        b == is_space(c),
{
    ('\t' <= c && c <= '\r') || c == ' ' || c == '\u{85}' || c == '\u{a0}' || c == '\u{1680}'
        || ('\u{2000}' <= c && c <= '\u{200a}') || c == '\u{2028}' || c == '\u{2029}' || c
        == '\u{202f}' || c == '\u{205f}' || c == '\u{3000}'
}

/// The characters of `s`, one by one.
pub fn chars_of(s: &str) -> (v: Vec<char>)
    ensures
        v@ == s@,
{
    let n = s.unicode_len();
    let mut v: Vec<char> = Vec::new();
    let mut i: usize = 0;
    while i < n
        invariant
            n == s@.len(),
            i <= n,
            v@ == s@.subrange(0, i as int),
        decreases n - i,
    {
        v.push(s.get_char(i));
        i += 1;
        assert(v@ =~= s@.subrange(0, i as int));
    }
    assert(v@ =~= s@);
    v
}

/// The characters of `s` from index `from` up to `to`, as a new string.
pub fn slice_of(s: &str, from: usize, to: usize) -> (r: String)
    requires
        from <= to <= s@.len(),
    ensures
        r@ == s@.subrange(from as int, to as int),
{
    s.substring_char(from, to).to_owned()
}

/// The first index at or after `i` whose character is white space, or the
/// length of `cs`.
pub fn find_space(cs: &Vec<char>, i: usize) -> (j: usize)
    requires
        i <= cs@.len(),
    ensures
        j as int == next_space(cs@, i as int),
{
    let mut j = i;
    while j < cs.len() && !is_space_char(cs[j])
        invariant
            i <= j <= cs@.len(),
            next_space(cs@, i as int) == next_space(cs@, j as int),
        decreases cs@.len() - j,
    {
        j += 1;
    }
    j
}

/// The first index at or after `i` whose character is `'\n'`, or the length
/// of `cs`.
pub fn find_newline(cs: &Vec<char>, i: usize) -> (j: usize)
    requires
        i <= cs@.len(),
    ensures
        j as int == next_newline(cs@, i as int),
{
    let mut j = i;
    while j < cs.len() && cs[j] != '\n'
        invariant
            i <= j <= cs@.len(),
            next_newline(cs@, i as int) == next_newline(cs@, j as int),
        decreases cs@.len() - j,
    {
        j += 1;
    }
    j
}

/// `s` without leading and trailing white space (`str::trim`).
pub fn trim_str(s: &str) -> (r: String)
    ensures
        r@ == trim(s@),
{
    let cs = chars_of(s);
    let n = cs.len();
    let mut a: usize = 0;
    assert(s@.subrange(0, n as int) =~= s@);
    while a < n && is_space_char(cs[a])
        invariant
            n == cs@.len(),
            cs@ == s@,
            a <= n,
            trim_start(s@) == trim_start(s@.subrange(a as int, n as int)),
        decreases n - a,
    {
        assert(s@.subrange(a as int, n as int).drop_first() =~= s@.subrange(
            a as int + 1,
            n as int,
        ));
        a += 1;
    }
    assert(trim_start(s@) == s@.subrange(a as int, n as int));
    let mut b: usize = n;
    while b > a && is_space_char(cs[b - 1])
        invariant
            n == cs@.len(),
            cs@ == s@,
            a <= b <= n,
            trim(s@) == trim_end(s@.subrange(a as int, b as int)),
        decreases b - a,
    {
        assert(s@.subrange(a as int, b as int).drop_last() =~= s@.subrange(
            a as int,
            b as int - 1,
        ));
        b -= 1;
    }
    slice_of(s, a, b)
}

/// The lines of `s` (`str::lines`).
pub fn lines_of(s: &str) -> (r: Vec<String>)
    ensures
        views(r@) == lines(s@),
{
    let cs = chars_of(s);
    let n = cs.len();
    let mut r: Vec<String> = Vec::new();
    let mut i: usize = 0;
    while i < n
        invariant
            n == cs@.len(),
            cs@ == s@,
            i <= n,
            views(r@) + lines_from(s@, i as int) == lines(s@),
        decreases n - i,
    {
        let j = find_newline(&cs, i);
        proof {
            lemma_next_newline_bounds(s@, i as int);
        }
        let end = if j < n && j > i && cs[j - 1] == '\r' {
            j - 1
        } else {
            j
        };
        let line = slice_of(s, i, end);
        proof {
            let raw = s@.subrange(i as int, j as int);
            if j < n && j > i && cs@[j - 1] == '\r' {
                assert(raw.drop_last() =~= s@.subrange(i as int, end as int));
            } else {
                assert(raw =~= s@.subrange(i as int, end as int));
            }
            assert(views(r@.push(line)) =~= views(r@).push(line@));
            assert(lines_from(s@, i as int) == seq![line@] + lines_from(s@, j + 1));
        }
        r.push(line);
        if j < n {
            i = j + 1;
        } else {
            assert(lines_from(s@, j + 1) =~= lines_from(s@, n as int));
            i = n;
        }
        assert(views(r@) + lines_from(s@, i as int) =~= lines(s@));
    }
    assert(views(r@) + lines_from(s@, i as int) =~= views(r@));
    r
}

/// The fields of `s` split at white space into at most three
/// (`str::splitn(3, char::is_whitespace)`).
pub fn split3_ws_of(s: &str) -> (r: Vec<String>)
    ensures
        views(r@) == split3_ws(s@),
{
    let cs = chars_of(s);
    let n = cs.len();
    let a = find_space(&cs, 0);
    proof {
        lemma_next_space_bounds(s@, 0);
    }
    let mut r: Vec<String> = Vec::new();
    if a >= n {
        r.push(slice_of(s, 0, n));
        assert(s@.subrange(0, n as int) =~= s@);
    } else {
        let b = find_space(&cs, a + 1);
        proof {
            lemma_next_space_bounds(s@, a + 1);
        }
        r.push(slice_of(s, 0, a));
        if b >= n {
            r.push(slice_of(s, a + 1, n));
        } else {
            r.push(slice_of(s, a + 1, b));
            r.push(slice_of(s, b + 1, n));
        }
    }
    assert(views(r@) =~= split3_ws(s@));
    r
}

/// What follows the last `'/'` of `s`, or all of `s` where it has none.
pub fn last_segment_of(s: &str) -> (r: String)
    ensures
        r@ == last_segment(s@),
{
    let cs = chars_of(s);
    let n = cs.len();
    let mut k: usize = n;
    assert(s@.subrange(0, n as int) =~= s@);
    assert(s@ + s@.subrange(n as int, n as int) =~= s@);
    while k > 0 && cs[k - 1] != '/'
        invariant
            n == cs@.len(),
            cs@ == s@,
            k <= n,
            last_segment(s@) == last_segment(s@.subrange(0, k as int)) + s@.subrange(
                k as int,
                n as int,
            ),
        decreases k,
    {
        let ghost p = s@.subrange(0, k as int);
        assert(p.drop_last() =~= s@.subrange(0, k - 1));
        assert(s@.subrange(k - 1, n as int) =~= seq![p.last()] + s@.subrange(k as int, n as int));
        assert(last_segment(p) == last_segment(p.drop_last()).push(p.last()));
        assert(last_segment(p.drop_last()).push(p.last()) + s@.subrange(k as int, n as int)
            =~= last_segment(p.drop_last()) + s@.subrange(k - 1, n as int));
        k -= 1;
    }
    proof {
        assert(s@.subrange(0, n as int) =~= s@);
        let p = s@.subrange(0, k as int);
        assert(last_segment(p) =~= Seq::<char>::empty());
        assert(last_segment(s@) =~= s@.subrange(k as int, n as int));
    }
    slice_of(s, k, n)
}

/// The first white-space separated word of `s`, or the empty string where
/// `s` is all white space.
pub fn first_word_of(s: &str) -> (r: String)
    ensures
        r@ == first_word(s@),
{
    let cs = chars_of(s);
    let n = cs.len();
    let mut a: usize = 0;
    assert(s@.subrange(0, n as int) =~= s@);
    while a < n && is_space_char(cs[a])
        invariant
            n == cs@.len(),
            cs@ == s@,
            a <= n,
            trim_start(s@) == trim_start(s@.subrange(a as int, n as int)),
        decreases n - a,
    {
        assert(s@.subrange(a as int, n as int).drop_first() =~= s@.subrange(
            a as int + 1,
            n as int,
        ));
        a += 1;
    }
    let ghost t = s@.subrange(a as int, n as int);
    assert(trim_start(s@) == t);
    let b = find_space(&cs, a);
    proof {
        lemma_next_space_bounds(s@, a as int);
        lemma_next_space_shift(s@, a as int);
        assert(t.subrange(0, next_space(t, 0)) =~= s@.subrange(a as int, b as int));
    }
    slice_of(s, a, b)
}

/// `next_space` on a suffix of `s` is `next_space` on `s`, moved.
pub proof fn lemma_next_space_shift(s: Seq<char>, a: int)
    requires
        0 <= a <= s.len(),
    ensures
        next_space(s.subrange(a, s.len() as int), 0) == next_space(s, a) - a,
{
    let t = s.subrange(a, s.len() as int);
    lemma_next_space_bounds(s, a);
    lemma_next_space_bounds(t, 0);
    let x = next_space(t, 0);
    let y = next_space(s, a) - a;
    if x < y {
        assert(is_space(t[x]));
        assert(!is_space(s[a + x]));
    } else if y < x {
        assert(!is_space(t[y]));
    }
}

/// The pieces of `parts` with `sep` between each two of them
/// (`[&str]::join`).
pub fn join_strs(parts: &[&str], sep: &str) -> (r: String)
    ensures
        r@ == join(str_views(parts@), sep@),
{
    let mut r = String::new();
    let mut i: usize = 0;
    while i < parts.len()
        invariant
            i <= parts@.len(),
            r@ == join(str_views(parts@.subrange(0, i as int)), sep@),
        decreases parts@.len() - i,
    {
        let ghost before = str_views(parts@.subrange(0, i as int));
        let ghost after = str_views(parts@.subrange(0, i + 1));
        assert(after.drop_last() =~= before);
        if i > 0 {
            r.append(sep);
        }
        r.append(parts[i]);
        i += 1;
    }
    assert(parts@.subrange(0, i as int) =~= parts@);
    r
}

/// The strings of `parts` with `sep` between each two of them
/// (`[String]::join`).
pub fn join_strings(parts: &Vec<String>, sep: &str) -> (r: String)
    ensures
        r@ == join(views(parts@), sep@),
{
    let mut r = String::new();
    let mut i: usize = 0;
    while i < parts.len()
        invariant
            i <= parts@.len(),
            r@ == join(views(parts@.subrange(0, i as int)), sep@),
        decreases parts@.len() - i,
    {
        let ghost before = views(parts@.subrange(0, i as int));
        let ghost after = views(parts@.subrange(0, i + 1));
        assert(after.drop_last() =~= before);
        if i > 0 {
            r.append(sep);
        }
        r.append(parts[i].as_str());
        i += 1;
    }
    assert(parts@.subrange(0, i as int) =~= parts@);
    r
}

/// What std's `String::from_utf8_lossy` makes of `bytes`: their UTF-8
/// decoding, with U+FFFD in place of each invalid sequence.
pub uninterp spec fn utf8_lossy(bytes: Seq<u8>) -> Seq<char>;

/// Decodes `bytes` as UTF-8 by std's `String::from_utf8_lossy`. The contract
/// names the result and states nothing more of it: what the decoding is, the
/// standard library's documentation states, not this crate.
#[verifier::external_body]
pub(crate) fn decode_lossy(bytes: &[u8]) -> (text: String)
    ensures
        text@ == utf8_lossy(bytes@),
{
    String::from_utf8_lossy(bytes).into_owned()
}

/// Whether `a` and `b` hold the same characters.
pub fn same_text(a: &str, b: &str) -> (r: bool)
    ensures
        r == (a@ == b@),
{
    let x = chars_of(a);
    let y = chars_of(b);
    if x.len() != y.len() {
        return false;
    }
    let mut i: usize = 0;
    while i < x.len()
        invariant
            x@ == a@,
            y@ == b@,
            x@.len() == y@.len(),
            i <= x@.len(),
            forall|k: int| 0 <= k < i ==> x@[k] == y@[k],
        decreases x@.len() - i,
    {
        if x[i] != y[i] {
            return false;
        }
        i += 1;
    }
    assert(a@ =~= b@);
    true
}

/// Where `trim_start` cuts `s`: before index `k`, all white space, and at
/// `k` (if any) a character that is not.
pub proof fn lemma_trim_start_index(s: Seq<char>) -> (k: int)
    ensures
        0 <= k <= s.len(),
        trim_start(s) == s.subrange(k, s.len() as int),
        k < s.len() ==> !is_space(s[k]),
        forall|j: int| 0 <= j < k ==> is_space(#[trigger] s[j]),
    decreases s.len(),
{
    if s.len() > 0 && is_space(s[0]) {
        let k1 = lemma_trim_start_index(s.drop_first());
        assert(s.drop_first().subrange(k1, s.drop_first().len() as int) =~= s.subrange(
            k1 + 1,
            s.len() as int,
        ));
        assert forall|j: int| 0 <= j < k1 + 1 implies is_space(#[trigger] s[j]) by {
            if j > 0 {
                assert(s[j] == s.drop_first()[j - 1]);
            }
        }
        k1 + 1
    } else {
        assert(s.subrange(0, s.len() as int) =~= s);
        0
    }
}

/// Where `trim_end` cuts `s`: from index `k` on, all white space, and just
/// before `k` (if anything) a character that is not.
pub proof fn lemma_trim_end_index(s: Seq<char>) -> (k: int)
    ensures
        0 <= k <= s.len(),
        trim_end(s) == s.subrange(0, k),
        k > 0 ==> !is_space(s[k - 1]),
        forall|j: int| k <= j < s.len() ==> is_space(#[trigger] s[j]),
    decreases s.len(),
{
    if s.len() > 0 && is_space(s.last()) {
        let k1 = lemma_trim_end_index(s.drop_last());
        assert(s.drop_last().subrange(0, k1) =~= s.subrange(0, k1));
        assert forall|j: int| k1 <= j < s.len() implies is_space(#[trigger] s[j]) by {
            if j < s.len() - 1 {
                assert(s[j] == s.drop_last()[j]);
            }
        }
        k1
    } else {
        assert(s.subrange(0, s.len() as int) =~= s);
        s.len() as int
    }
}

/// Trimming what is already trimmed changes nothing.
pub proof fn law_trim_idempotent(s: Seq<char>)
    ensures
        trim(trim(s)) == trim(s),
{
    let a = lemma_trim_start_index(s);
    let t = trim_start(s);
    let b = lemma_trim_end_index(t);
    let u = trim_end(t);
    assert(u == trim(s));
    let c = lemma_trim_start_index(u);
    if c > 0 {
        assert(is_space(u[0]));
        assert(u[0] == t[0]);
        assert(t[0] == s[a]);
    }
    assert(trim_start(u) =~= u);
    let d = lemma_trim_end_index(u);
    if d < u.len() {
        assert(is_space(u[u.len() - 1]));
        assert(u[u.len() - 1] == t[b - 1]);
    }
    assert(trim_end(u) =~= u);
}

/// The first word of a text holds no white space.
pub proof fn law_first_word_has_no_space(s: Seq<char>)
    ensures
        forall|i: int| 0 <= i < first_word(s).len() ==> !is_space(#[trigger] first_word(s)[i]),
{
    let t = trim_start(s);
    lemma_next_space_bounds(t, 0);
    assert forall|i: int| 0 <= i < first_word(s).len() implies !is_space(
        #[trigger] first_word(s)[i],
    ) by {
        assert(first_word(s)[i] == t[i]);
    }
}

/// Trimming keeps one stretch of the text, in place, and removes only white
/// space around it: what is kept starts and ends with a character that is
/// not white space (or is empty), and every character before and after it
/// is white space.
pub proof fn law_trim_removes_only_outer_space(s: Seq<char>)
    ensures
        exists|a: int, b: int|
            0 <= a <= b <= s.len() && trim(s) == s.subrange(a, b) && (forall|j: int|
                0 <= j < a ==> is_space(#[trigger] s[j])) && (forall|j: int|
                b <= j < s.len() ==> is_space(#[trigger] s[j])) && (a < b ==> !is_space(s[a])
                && !is_space(s[b - 1])),
{
    let a = lemma_trim_start_index(s);
    let t = trim_start(s);
    let k = lemma_trim_end_index(t);
    let b = a + k;
    assert(trim(s) =~= s.subrange(a, b));
    assert forall|j: int| b <= j < s.len() implies is_space(#[trigger] s[j]) by {
        assert(s[j] == t[j - a]);
    }
    if a < b {
        assert(s[b - 1] == t[k - 1]);
    }
}

/// No line holds a line break, and where the text has no carriage return,
/// putting its lines back together with a line break after each gives the
/// text back, but for a last line break that was missing.
pub proof fn law_lines_split_at_line_breaks(s: Seq<char>)
    requires
        forall|j: int| 0 <= j < s.len() ==> s[j] != '\r',
    ensures
        forall|i: int, j: int|
            0 <= i < lines(s).len() && 0 <= j < lines(s)[i].len() ==> #[trigger] lines(s)[i][j]
                != '\n',
        s.len() > 0 && s.last() == '\n' ==> joined_lines(lines(s)) == s,
        s.len() > 0 && s.last() != '\n' ==> joined_lines(lines(s)) == s.push('\n'),
{
    lemma_lines_from(s, 0);
    assert(s.subrange(0, s.len() as int) =~= s);
}

/// The lines, each followed by a line break.
pub open spec fn joined_lines(ls: Seq<Seq<char>>) -> Seq<char>
    decreases ls.len(),
{
    if ls.len() == 0 {
        Seq::empty()
    } else {
        ls[0].push('\n') + joined_lines(ls.drop_first())
    }
}

proof fn lemma_lines_from(s: Seq<char>, i: int)
    requires
        0 <= i <= s.len(),
        forall|j: int| 0 <= j < s.len() ==> s[j] != '\r',
    ensures
        forall|a: int, j: int|
            0 <= a < lines_from(s, i).len() && 0 <= j < lines_from(s, i)[a].len()
                ==> #[trigger] lines_from(s, i)[a][j] != '\n',
        i < s.len() && s.last() == '\n' ==> joined_lines(lines_from(s, i)) == s.subrange(
            i,
            s.len() as int,
        ),
        i < s.len() && s.last() != '\n' ==> joined_lines(lines_from(s, i)) == s.subrange(
            i,
            s.len() as int,
        ).push('\n'),
    decreases s.len() - i,
{
    if i < s.len() {
        let j = next_newline(s, i);
        lemma_next_newline_bounds(s, i);
        let raw = s.subrange(i, j);
        if raw.len() > 0 {
            assert(raw.last() == s[j - 1]);
        }
        let rest = lines_from(s, j + 1);
        let ls = lines_from(s, i);
        assert(ls == seq![raw] + rest);
        if j < s.len() {
            lemma_lines_from(s, j + 1);
        }
        assert forall|a: int, k: int| 0 <= a < ls.len() && 0 <= k < ls[a].len() implies #[trigger] ls[a][k]
            != '\n' by {
            if a == 0 {
                assert(ls[0][k] == s[i + k]);
            } else {
                assert(ls[a] == rest[a - 1]);
            }
        }
        assert(ls.drop_first() =~= rest);
        assert(ls[0] == raw);
        assert(joined_lines(ls) == raw.push('\n') + joined_lines(rest));
        if j < s.len() {
            assert(s.subrange(i, s.len() as int) =~= raw.push('\n') + s.subrange(
                j + 1,
                s.len() as int,
            ));
            if j + 1 == s.len() {
                assert(rest =~= Seq::<Seq<char>>::empty());
                assert(joined_lines(rest) =~= Seq::<char>::empty());
                assert(s.last() == '\n');
                assert(s.subrange(j + 1, s.len() as int) =~= Seq::<char>::empty());
                assert(raw.push('\n') + joined_lines(rest) =~= s.subrange(i, s.len() as int));
            } else {
                assert(s.subrange(i, s.len() as int).push('\n') =~= raw.push('\n') + s.subrange(
                    j + 1,
                    s.len() as int,
                ).push('\n'));
            }
        } else {
            assert(rest =~= Seq::<Seq<char>>::empty());
            assert(joined_lines(rest) =~= Seq::<char>::empty());
            assert(raw =~= s.subrange(i, s.len() as int));
            assert(s[s.len() - 1] != '\n');
            assert(raw.push('\n') + joined_lines(rest) =~= raw.push('\n'));
        }
    }
}

} // verus!
