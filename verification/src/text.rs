//! Character-level helpers shared by the parsers: whitespace trimming,
//! splitting into lines, UTF-8 byte offsets and building strings.

use vstd::prelude::*;

verus! {

/// `String::push` appends one character.
pub assume_specification[ String::push ](s: &mut String, ch: char)
    ensures
        final(s)@ == old(s)@.push(ch),
;

/// The characters of a string slice, in order.
pub fn chars_of(s: &str) -> (v: Vec<char>)
    ensures
        v@ == s@,
{
    let mut v: Vec<char> = Vec::new();
    for c in it: s.chars()
        invariant
            v@ == it.seq().take(it.index() as int),
    {
        v.push(c);
    }
    v
}

/// A copy of the characters `v[lo..hi]`.
pub fn slice_chars(v: &Vec<char>, lo: usize, hi: usize) -> (r: Vec<char>)
    requires
        lo <= hi <= v.len(),
    ensures
        r@ == v@.subrange(lo as int, hi as int),
{
    let mut r: Vec<char> = Vec::new();
    let mut i = lo;
    while i < hi
        invariant
            lo <= i <= hi <= v.len(),
            r@ == v@.subrange(lo as int, i as int),
        decreases hi - i,
    {
        r.push(v[i]);
        i += 1;
        assert(r@ =~= v@.subrange(lo as int, i as int));
    }
    r
}

/// A string made of the characters `v[lo..hi]`.
pub fn string_of(v: &Vec<char>, lo: usize, hi: usize) -> (s: String)
    requires
        lo <= hi <= v.len(),
    ensures
        s@ == v@.subrange(lo as int, hi as int),
{
    let mut s = String::new();
    let mut i = lo;
    while i < hi
        invariant
            lo <= i <= hi <= v.len(),
            s@ == v@.subrange(lo as int, i as int),
        decreases hi - i,
    {
        s.push(v[i]);
        i += 1;
        assert(s@ =~= v@.subrange(lo as int, i as int));
    }
    s
}

// ---------------------------------------------------------------------------
// Whitespace and trimming
// ---------------------------------------------------------------------------

/// The characters with the Unicode `White_Space` property, the set that
/// `char::is_whitespace` (and so `str::trim`) recognises.
pub open spec fn is_white_space(c: char) -> bool {
    let u = c as u32;
    ||| 0x09 <= u <= 0x0D
    ||| u == 0x20
    ||| u == 0x85
    ||| u == 0xA0
    ||| u == 0x1680
    ||| 0x2000 <= u <= 0x200A
    ||| u == 0x2028
    ||| u == 0x2029
    ||| u == 0x202F
    ||| u == 0x205F
    ||| u == 0x3000
}

pub fn white_space(c: char) -> (b: bool)
    ensures
        b == is_white_space(c),
{
    let u = c as u32;
    (0x09 <= u && u <= 0x0D) || u == 0x20 || u == 0x85 || u == 0xA0 || u == 0x1680 || (0x2000
        <= u && u <= 0x200A) || u == 0x2028 || u == 0x2029 || u == 0x202F || u == 0x205F || u
        == 0x3000
}

/// `s` without its leading whitespace.
pub open spec fn trim_start(s: Seq<char>) -> Seq<char>
    decreases s.len(),
{
    if s.len() > 0 && is_white_space(s[0]) {
        trim_start(s.drop_first())
    } else {
        s
    }
}

/// `s` without its trailing whitespace.
pub open spec fn trim_end(s: Seq<char>) -> Seq<char>
    decreases s.len(),
{
    if s.len() > 0 && is_white_space(s.last()) {
        trim_end(s.drop_last())
    } else {
        s
    }
}

/// `s` without leading and trailing whitespace, as `str::trim` gives it.
pub open spec fn trim(s: Seq<char>) -> Seq<char> {
    trim_end(trim_start(s))
}

proof fn lemma_trim_start_skip(s: Seq<char>, k: int)
    requires
        0 <= k <= s.len(),
        forall|i: int| 0 <= i < k ==> is_white_space(#[trigger] s[i]),
        k == s.len() || !is_white_space(s[k]),
    ensures
        trim_start(s) == s.skip(k),
    decreases k,
{
    if k == 0 {
        assert(s.skip(0) =~= s);
    } else {
        let t = s.drop_first();
        assert forall|i: int| 0 <= i < k - 1 implies is_white_space(#[trigger] t[i]) by {
            assert(t[i] == s[i + 1]);
        }
        if k < s.len() {
            assert(t[k - 1] == s[k]);
        }
        lemma_trim_start_skip(t, k - 1);
        assert(t.skip(k - 1) =~= s.skip(k));
    }
}

proof fn lemma_trim_end_take(s: Seq<char>, k: int)
    requires
        0 <= k <= s.len(),
        forall|i: int| k <= i < s.len() ==> is_white_space(#[trigger] s[i]),
        k == 0 || !is_white_space(s[k - 1]),
    ensures
        trim_end(s) == s.take(k),
    decreases s.len() - k,
{
    if k == s.len() {
        assert(s.take(k) =~= s);
    } else {
        let t = s.drop_last();
        assert(is_white_space(s[s.len() - 1]));
        assert forall|i: int| k <= i < t.len() implies is_white_space(#[trigger] t[i]) by {
            assert(t[i] == s[i]);
        }
        if k > 0 {
            assert(t[k - 1] == s[k - 1]);
        }
        lemma_trim_end_take(t, k);
        assert(t.take(k) =~= s.take(k));
    }
}

proof fn lemma_first_non_white(s: Seq<char>) -> (k: int)
    ensures
        0 <= k <= s.len(),
        forall|i: int| 0 <= i < k ==> is_white_space(#[trigger] s[i]),
        k == s.len() || !is_white_space(s[k]),
    decreases s.len(),
{
    if s.len() > 0 && is_white_space(s[0]) {
        let t = s.drop_first();
        let k1 = lemma_first_non_white(t);
        assert forall|i: int| 0 <= i < k1 + 1 implies is_white_space(#[trigger] s[i]) by {
            if i > 0 {
                assert(s[i] == t[i - 1]);
            }
        }
        if k1 < t.len() {
            assert(s[k1 + 1] == t[k1]);
        }
        k1 + 1
    } else {
        0
    }
}

proof fn lemma_last_non_white_end(s: Seq<char>) -> (m: int)
    ensures
        0 <= m <= s.len(),
        forall|i: int| m <= i < s.len() ==> is_white_space(#[trigger] s[i]),
        m == 0 || !is_white_space(s[m - 1]),
    decreases s.len(),
{
    if s.len() > 0 && is_white_space(s.last()) {
        let t = s.drop_last();
        let m1 = lemma_last_non_white_end(t);
        assert forall|i: int| m1 <= i < s.len() implies is_white_space(#[trigger] s[i]) by {
            if i < t.len() {
                assert(s[i] == t[i]);
            }
        }
        if m1 > 0 {
            assert(s[m1 - 1] == t[m1 - 1]);
        }
        m1
    } else {
        s.len() as int
    }
}

/// Trimming keeps one stretch of `s` and drops only white space around it:
/// what it drops at either end is white space, and what it keeps neither
/// starts nor ends with white space.
pub proof fn lemma_trim_shape(s: Seq<char>)
    ensures
        exists|a: int, b: int|
            {
                &&& 0 <= a <= b <= s.len()
                &&& #[trigger] s.subrange(a, b) == trim(s)
                &&& forall|i: int| 0 <= i < a ==> is_white_space(#[trigger] s[i])
                &&& forall|i: int| b <= i < s.len() ==> is_white_space(#[trigger] s[i])
                &&& a < b ==> !is_white_space(s[a]) && !is_white_space(s[b - 1])
            },
{
    let a = lemma_first_non_white(s);
    lemma_trim_start_skip(s, a);
    let t = s.skip(a);
    let m = lemma_last_non_white_end(t);
    lemma_trim_end_take(t, m);
    let b = a + m;
    assert(t.take(m) =~= s.subrange(a, b));
    assert forall|i: int| b <= i < s.len() implies is_white_space(#[trigger] s[i]) by {
        assert(s[i] == t[i - a]);
    }
    if a < b {
        assert(s[b - 1] == t[m - 1]);
    }
}

/// The bounds `(a, b)` such that `v[a..b]` is `v[lo..hi]` trimmed.
pub fn trim_bounds(v: &Vec<char>, lo: usize, hi: usize) -> (r: (usize, usize))
    requires
        lo <= hi <= v.len(),
    ensures
        lo <= r.0 <= r.1 <= hi,
        v@.subrange(r.0 as int, r.1 as int) == trim(v@.subrange(lo as int, hi as int)),
{
    let ghost s = v@.subrange(lo as int, hi as int);
    let mut a = lo;
    while a < hi && white_space(v[a])
        invariant
            lo <= a <= hi <= v.len(),
            forall|i: int| lo <= i < a ==> is_white_space(#[trigger] v@[i]),
        decreases hi - a,
    {
        a += 1;
    }
    proof {
        assert forall|i: int| 0 <= i < a - lo implies is_white_space(#[trigger] s[i]) by {
            assert(s[i] == v@[lo + i]);
        }
        if a < hi {
            assert(s[a - lo] == v@[a as int]);
        }
        lemma_trim_start_skip(s, a - lo);
        assert(s.skip(a - lo) =~= v@.subrange(a as int, hi as int));
    }
    let mut b = hi;
    while b > a && white_space(v[b - 1])
        invariant
            lo <= a <= b <= hi <= v.len(),
            forall|i: int| b <= i < hi ==> is_white_space(#[trigger] v@[i]),
        decreases b - a,
    {
        b -= 1;
    }
    proof {
        let t = v@.subrange(a as int, hi as int);
        assert forall|i: int| b - a <= i < t.len() implies is_white_space(#[trigger] t[i]) by {
            assert(t[i] == v@[a + i]);
        }
        if b > a {
            assert(t[b - a - 1] == v@[b - 1]);
        }
        lemma_trim_end_take(t, b - a);
        assert(t.take(b - a) =~= v@.subrange(a as int, b as int));
    }
    (a, b)
}

// ---------------------------------------------------------------------------
// Lines, as `str::lines` splits them
// ---------------------------------------------------------------------------

/// The index of the first `'\n'` at or after `i`, or `s.len()` when there is none.
pub open spec fn newline_from(s: Seq<char>, i: int) -> int
    decreases s.len() - i,
{
    if i >= s.len() {
        s.len() as int
    } else if s[i] == '\n' {
        i
    } else {
        newline_from(s, i + 1)
    }
}

/// A line that ended in `'\n'` loses one `'\r'` before it.
pub open spec fn strip_cr(l: Seq<char>) -> Seq<char> {
    if l.len() > 0 && l.last() == '\r' {
        l.drop_last()
    } else {
        l
    }
}

pub proof fn lemma_newline_from_bounds(s: Seq<char>, i: int)
    requires
        0 <= i <= s.len(),
    ensures
        i <= newline_from(s, i) <= s.len(),
        newline_from(s, i) < s.len() ==> s[newline_from(s, i)] == '\n',
    decreases s.len() - i,
{
    if i < s.len() && s[i] != '\n' {
        lemma_newline_from_bounds(s, i + 1);
    }
}

proof fn lemma_newline_from_is(s: Seq<char>, i: int, k: int)
    requires
        0 <= i <= k <= s.len(),
        forall|m: int| i <= m < k ==> #[trigger] s[m] != '\n',
        k == s.len() || s[k] == '\n',
    ensures
        newline_from(s, i) == k,
    decreases k - i,
{
    if i < k {
        lemma_newline_from_is(s, i + 1, k);
    }
}

/// The lines of `s` from index `i` on.
pub open spec fn lines_from(s: Seq<char>, i: int) -> Seq<Seq<char>>
    decreases s.len() - i,
{
    if i < 0 || i >= s.len() {
        Seq::empty()
    } else {
        let j = newline_from(s, i);
        proof {
            lemma_newline_from_bounds(s, i);
        }
        if j >= s.len() {
            seq![s.subrange(i, s.len() as int)]
        } else {
            seq![strip_cr(s.subrange(i, j))] + lines_from(s, j + 1)
        }
    }
}

/// The lines of `s` as `str::lines` yields them: split after each `'\n'`,
/// the `'\n'` dropped and then one `'\r'` before it; a last line that ends
/// the text without `'\n'` is kept as it is, and an empty text has no lines.
pub open spec fn lines_of(s: Seq<char>) -> Seq<Seq<char>> {
    lines_from(s, 0)
}

proof fn lemma_newline_from_shift(p: Seq<char>, s: Seq<char>, i: int)
    requires
        0 <= i <= s.len(),
    ensures
        newline_from(p + s, p.len() + i) == p.len() + newline_from(s, i),
    decreases s.len() - i,
{
    if i < s.len() {
        assert((p + s)[p.len() + i] == s[i]);
        if s[i] != '\n' {
            lemma_newline_from_shift(p, s, i + 1);
        }
    }
}

proof fn lemma_lines_from_shift(p: Seq<char>, s: Seq<char>, i: int)
    requires
        0 <= i <= s.len(),
    ensures
        lines_from(p + s, p.len() + i) == lines_from(s, i),
    decreases s.len() - i,
{
    if i < s.len() {
        let ps = p + s;
        lemma_newline_from_shift(p, s, i);
        lemma_newline_from_bounds(s, i);
        let j = newline_from(s, i);
        if j >= s.len() {
            assert(ps.subrange(p.len() + i, ps.len() as int) =~= s.subrange(i, s.len() as int));
        } else {
            assert(ps.subrange(p.len() + i, p.len() + j) =~= s.subrange(i, j));
            lemma_lines_from_shift(p, s, j + 1);
        }
    }
}

/// How a content splits into lines, as `str::lines` does it: no content
/// has no line; content without a line break is one line, itself; and a
/// line `l` (without a break) followed by `\n` and the rest gives `l`, less
/// one `\r` at its end, then the lines of the rest.
pub proof fn lemma_lines_split(l: Seq<char>, rest: Seq<char>)
    requires
        forall|i: int| 0 <= i < l.len() ==> l[i] != '\n',
    ensures
        lines_of(Seq::<char>::empty()).len() == 0,
        l.len() > 0 ==> lines_of(l) == seq![l],
        lines_of(l + seq!['\n'] + rest) == seq![strip_cr(l)] + lines_of(rest),
{
    let s = l + seq!['\n'] + rest;
    lemma_newline_from_none(l, 0);
    if l.len() > 0 {
        assert(l.subrange(0, l.len() as int) =~= l);
    }
    let p = l + seq!['\n'];
    assert(s =~= p + rest);
    assert forall|k: int| 0 <= k < l.len() implies s[k] != '\n' by {
        assert(s[k] == l[k]);
    }
    lemma_newline_from_prefix(s, l.len() as int, 0);
    assert(s.subrange(0, l.len() as int) =~= l);
    lemma_lines_from_shift(p, rest, 0);
}

proof fn lemma_newline_from_none(s: Seq<char>, i: int)
    requires
        0 <= i <= s.len(),
        forall|k: int| i <= k < s.len() ==> s[k] != '\n',
    ensures
        newline_from(s, i) == s.len(),
    decreases s.len() - i,
{
    if i < s.len() {
        lemma_newline_from_none(s, i + 1);
    }
}

/// The first `\n` at or after `i` is at `j` when none comes before `j` and
/// `s[j]` is one.
proof fn lemma_newline_from_prefix(s: Seq<char>, j: int, i: int)
    requires
        0 <= i <= j < s.len(),
        s[j] == '\n',
        forall|k: int| i <= k < j ==> s[k] != '\n',
    ensures
        newline_from(s, i) == j,
    decreases j - i,
{
    if i < j {
        lemma_newline_from_prefix(s, j, i + 1);
    }
}

/// The bounds of each line of `v`, as `str::lines` splits it.
pub fn split_lines(v: &Vec<char>) -> (r: Vec<(usize, usize)>)
    ensures
        r@.len() == lines_of(v@).len(),
        forall|m: int|
            0 <= m < r@.len() ==> {
                &&& (#[trigger] r@[m]).0 <= r@[m].1 <= v.len()
                &&& v@.subrange(r@[m].0 as int, r@[m].1 as int) == lines_of(v@)[m]
            },
{
    let n = v.len();
    let mut r: Vec<(usize, usize)> = Vec::new();
    let mut start: usize = 0;
    let mut k: usize = 0;
    while k < n
        invariant
            n == v.len(),
            start <= k <= n,
            forall|m: int| start <= m < k ==> #[trigger] v@[m] != '\n',
            forall|m: int| 0 <= m < r@.len() ==> (#[trigger] r@[m]).0 <= r@[m].1 <= n,
            lines_of(v@) == Seq::new(
                r@.len(),
                |m: int| v@.subrange(r@[m].0 as int, r@[m].1 as int),
            ) + lines_from(v@, start as int),
        decreases n - k,
    {
        if v[k] == '\n' {
            let end = if k > start && v[k - 1] == '\r' {
                k - 1
            } else {
                k
            };
            proof {
                lemma_newline_from_is(v@, start as int, k as int);
                let piece = v@.subrange(start as int, k as int);
                assert(strip_cr(piece) =~= v@.subrange(start as int, end as int));
                let old_view = Seq::new(
                    r@.len(),
                    |m: int| v@.subrange(r@[m].0 as int, r@[m].1 as int),
                );
                assert(lines_from(v@, start as int) == seq![strip_cr(piece)] + lines_from(
                    v@,
                    k + 1,
                ));
                let new_r = r@.push((start, end));
                let new_view = Seq::new(
                    new_r.len(),
                    |m: int| v@.subrange(new_r[m].0 as int, new_r[m].1 as int),
                );
                assert(new_view =~= old_view.push(v@.subrange(start as int, end as int)));
                assert(old_view + lines_from(v@, start as int) =~= new_view + lines_from(
                    v@,
                    k + 1,
                ));
            }
            r.push((start, end));
            start = k + 1;
        }
        k += 1;
    }
    proof {
        lemma_newline_from_is(v@, start as int, n as int);
    }
    if start < n {
        proof {
            let old_view = Seq::new(
                r@.len(),
                |m: int| v@.subrange(r@[m].0 as int, r@[m].1 as int),
            );
            let new_r = r@.push((start, n));
            let new_view = Seq::new(
                new_r.len(),
                |m: int| v@.subrange(new_r[m].0 as int, new_r[m].1 as int),
            );
            assert(new_view =~= old_view.push(v@.subrange(start as int, n as int)));
            assert(old_view + lines_from(v@, start as int) =~= new_view);
        }
        r.push((start, n));
    } else {
        proof {
            let old_view = Seq::new(
                r@.len(),
                |m: int| v@.subrange(r@[m].0 as int, r@[m].1 as int),
            );
            assert(old_view + lines_from(v@, start as int) =~= old_view);
        }
    }
    proof {
        let view = Seq::new(r@.len(), |m: int| v@.subrange(r@[m].0 as int, r@[m].1 as int));
        assert(lines_of(v@) == view);
        assert forall|m: int| 0 <= m < r@.len() implies v@.subrange(
            (#[trigger] r@[m]).0 as int,
            r@[m].1 as int,
        ) == lines_of(v@)[m] by {
            assert(view[m] == v@.subrange(r@[m].0 as int, r@[m].1 as int));
        }
    }
    r
}

// ---------------------------------------------------------------------------
// UTF-8 byte offsets
// ---------------------------------------------------------------------------

/// The number of bytes that UTF-8 takes for `c`.
pub open spec fn char_width(c: char) -> nat {
    if (c as u32) < 0x80 {
        1
    } else if (c as u32) < 0x800 {
        2
    } else if (c as u32) < 0x10000 {
        3
    } else {
        4
    }
}

/// The length in bytes of the UTF-8 encoding of `s` (what `str::len` gives).
pub open spec fn utf8_len(s: Seq<char>) -> nat
    decreases s.len(),
{
    if s.len() == 0 {
        0
    } else {
        utf8_len(s.drop_last()) + char_width(s.last())
    }
}

/// Byte offset `b` falls between two characters of `s` (or at one of its ends):
/// a byte range of a `str` may only start and end there.
pub open spec fn char_boundary(s: Seq<char>, b: int) -> bool {
    exists|k: int| 0 <= k <= s.len() && #[trigger] utf8_len(s.take(k)) == b
}

/// The character index at byte offset `b`, where `char_boundary(s, b)`.
pub open spec fn char_at_byte(s: Seq<char>, b: int) -> int {
    choose|k: int| 0 <= k <= s.len() && #[trigger] utf8_len(s.take(k)) == b
}

pub fn width_of(c: char) -> (w: usize)
    ensures
        w == char_width(c),
{
    let u = c as u32;
    if u < 0x80 {
        1
    } else if u < 0x800 {
        2
    } else if u < 0x10000 {
        3
    } else {
        4
    }
}

pub proof fn lemma_utf8_len_step(s: Seq<char>, k: int)
    requires
        0 <= k < s.len(),
    ensures
        utf8_len(s.take(k + 1)) == utf8_len(s.take(k)) + char_width(s[k]),
{
    assert(s.take(k + 1).drop_last() =~= s.take(k));
}

pub proof fn lemma_utf8_len_strictly_increasing(s: Seq<char>, i: int, j: int)
    requires
        0 <= i < j <= s.len(),
    ensures
        utf8_len(s.take(i)) < utf8_len(s.take(j)),
    decreases j - i,
{
    lemma_utf8_len_step(s, j - 1);
    if i < j - 1 {
        lemma_utf8_len_strictly_increasing(s, i, j - 1);
    }
}

/// The character index `k` is the one at byte offset `b`.
pub proof fn lemma_char_at_byte_is(s: Seq<char>, b: int, k: int)
    requires
        0 <= k <= s.len(),
        utf8_len(s.take(k)) == b,
    ensures
        char_boundary(s, b),
        char_at_byte(s, b) == k,
{
    let c = char_at_byte(s, b);
    if c < k {
        lemma_utf8_len_strictly_increasing(s, c, k);
    } else if k < c {
        lemma_utf8_len_strictly_increasing(s, k, c);
    }
}

/// The character index at byte offset `b` of `v`, or `None` when `b` does not
/// fall between two characters.
pub fn char_index_at_byte(v: &Vec<char>, b: usize) -> (r: Option<usize>)
    ensures
        r is Some <==> char_boundary(v@, b as int),
        r matches Some(k) ==> k <= v.len() && k == char_at_byte(v@, b as int),
{
    let mut k: usize = 0;
    let mut acc: u128 = 0;
    let target: u128 = b as u128;
    assert(v@.take(0) =~= Seq::<char>::empty());
    while k < v.len() && acc < target
        invariant
            k <= v.len(),
            target == b,
            acc == utf8_len(v@.take(k as int)),
            acc <= 4 * k,
            k > 0 ==> utf8_len(v@.take(k - 1)) < b,
        decreases v.len() - k,
    {
        proof {
            lemma_utf8_len_step(v@, k as int);
        }
        acc = acc + width_of(v[k]) as u128;
        k += 1;
    }
    if acc == target {
        proof {
            lemma_char_at_byte_is(v@, b as int, k as int);
        }
        Some(k)
    } else {
        proof {
            assert forall|j: int| 0 <= j <= v@.len() implies #[trigger] utf8_len(v@.take(j))
                != b by {
                if j < k {
                    if j < k - 1 {
                        lemma_utf8_len_strictly_increasing(v@, j, k - 1);
                    }
                } else if j > k {
                    lemma_utf8_len_strictly_increasing(v@, k as int, j);
                }
            }
        }
        None
    }
}

/// Whether `v` takes more than `n` bytes in UTF-8.
pub fn utf8_len_exceeds(v: &Vec<char>, n: usize) -> (r: bool)
    ensures
        r == (utf8_len(v@) > n),
{
    let mut k: usize = 0;
    let mut acc: u128 = 0;
    let limit: u128 = n as u128;
    assert(v@.take(0) =~= Seq::<char>::empty());
    while k < v.len() && acc <= limit
        invariant
            k <= v.len(),
            limit == n,
            acc == utf8_len(v@.take(k as int)),
            acc <= 4 * k,
        decreases v.len() - k,
    {
        proof {
            lemma_utf8_len_step(v@, k as int);
        }
        acc = acc + width_of(v[k]) as u128;
        k += 1;
    }
    assert(v@.take(v@.len() as int) =~= v@);
    if k < v.len() {
        proof {
            lemma_utf8_len_strictly_increasing(v@, k as int, v@.len() as int);
        }
    }
    acc > limit
}

// ---------------------------------------------------------------------------
// Unsigned decimal numbers, as `u64::from_str` reads them
// ---------------------------------------------------------------------------

pub open spec fn is_digit(c: char) -> bool {
    '0' <= c <= '9'
}

/// The value of a run of decimal digits.
pub open spec fn digits_value(s: Seq<char>) -> nat
    decreases s.len(),
{
    if s.len() == 0 {
        0
    } else {
        digits_value(s.drop_last()) * 10 + ((s.last() as u32) - ('0' as u32)) as nat
    }
}

/// `s` without one leading `'+'`.
pub open spec fn unsigned_digits(s: Seq<char>) -> Seq<char> {
    if s.len() > 0 && s[0] == '+' {
        s.drop_first()
    } else {
        s
    }
}

pub open spec fn all_digits(d: Seq<char>) -> bool {
    forall|i: int| 0 <= i < d.len() ==> is_digit(#[trigger] d[i])
}

/// What `u64::from_str` gives for `s`: an optional `'+'`, then one or more
/// ASCII digits whose value fits in a `u64`; `None` for anything else.
pub open spec fn parse_u64(s: Seq<char>) -> Option<u64> {
    let d = unsigned_digits(s);
    if d.len() > 0 && all_digits(d) && digits_value(d) <= u64::MAX {
        Some(digits_value(d) as u64)
    } else {
        None
    }
}

/// Two characters read as a number exactly when both are digits, giving
/// their two-digit value, or when a `+` is followed by a digit, giving that
/// digit.
pub proof fn lemma_parse_two_chars(a: char, b: char)
    ensures
        parse_u64(seq![a, b]) == (if '0' <= a <= '9' && '0' <= b <= '9' {
            Some((((a as u32) - 48) * 10 + ((b as u32) - 48)) as u64)
        } else if a == '+' && '0' <= b <= '9' {
            Some(((b as u32) - 48) as u64)
        } else {
            None
        }),
{
    let s = seq![a, b];
    reveal_with_fuel(digits_value, 3);
    assert(('0' as u32) == 48);
    if a == '+' {
        let d = seq![b];
        assert(unsigned_digits(s) =~= d);
        assert(d.drop_last() =~= Seq::<char>::empty());
        if '0' <= b <= '9' {
            assert(d.last() == b);
            assert(digits_value(d) == (b as u32) - 48);
        } else {
            assert(!is_digit(d[0]));
        }
    } else {
        assert(unsigned_digits(s) == s);
        assert(s.drop_last() =~= seq![a]);
        assert(seq![a].drop_last() =~= Seq::<char>::empty());
        if '0' <= a <= '9' && '0' <= b <= '9' {
            assert(seq![a].last() == a);
            assert(digits_value(seq![a]) == (a as u32) - 48);
            assert(digits_value(s) == digits_value(seq![a]) * 10 + ((b as u32) - 48));
        }
        if !('0' <= a <= '9') {
            assert(!is_digit(s[0]));
        } else if !('0' <= b <= '9') {
            assert(!is_digit(s[1]));
        }
    }
}

/// `u64::from_str` on the characters `v[lo..hi]`.
pub fn parse_u64_chars(v: &Vec<char>, lo: usize, hi: usize) -> (r: Option<u64>)
    requires
        lo <= hi <= v.len(),
    ensures
        r == parse_u64(v@.subrange(lo as int, hi as int)),
{
    let ghost s = v@.subrange(lo as int, hi as int);
    let mut i = lo;
    if i < hi && v[i] == '+' {
        i += 1;
    }
    let ghost d = v@.subrange(i as int, hi as int);
    assert(d =~= unsigned_digits(s));
    if i == hi {
        return None;
    }
    let start = i;
    let mut acc: u64 = 0;
    let mut overflow = false;
    while i < hi
        invariant
            lo <= start <= i <= hi <= v.len(),
            d == v@.subrange(start as int, hi as int),
            s == v@.subrange(lo as int, hi as int),
            d == unsigned_digits(s),
            forall|m: int| start <= m < i ==> is_digit(#[trigger] v@[m]),
            !overflow ==> acc == digits_value(v@.subrange(start as int, i as int)),
            overflow ==> digits_value(v@.subrange(start as int, i as int)) > u64::MAX,
        decreases hi - i,
    {
        let c = v[i];
        if !('0' <= c && c <= '9') {
            proof {
                assert(d[i - start] == c);
                assert(!is_digit(d[i - start]));
                assert(!all_digits(d));
                assert(parse_u64(s) is None);
            }
            return None;
        }
        let digit = (c as u32 - '0' as u32) as u64;
        proof {
            let p = v@.subrange(start as int, i + 1);
            assert(p.drop_last() =~= v@.subrange(start as int, i as int));
            assert(p.last() == c);
            assert(digits_value(p) == digits_value(p.drop_last()) * 10 + digit);
            if overflow {
                assert(digits_value(p.drop_last()) * 10 >= digits_value(p.drop_last())) by (
                nonlinear_arith);
            }
        }
        if !overflow {
            match acc.checked_mul(10) {
                Some(t) => match t.checked_add(digit) {
                    Some(u) => {
                        acc = u;
                    },
                    None => {
                        overflow = true;
                    },
                },
                None => {
                    overflow = true;
                    proof {
                        assert(acc * 10 + digit >= acc * 10);
                    }
                },
            }
        }
        i += 1;
    }
    proof {
        assert(forall|m: int| 0 <= m < d.len() ==> #[trigger] d[m] == v@[start + m]);
        assert(all_digits(d));
        assert(d =~= v@.subrange(start as int, i as int));
    }
    if overflow {
        None
    } else {
        Some(acc)
    }
}

} // verus!
