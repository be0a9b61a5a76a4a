//! File names of `/`-separated paths, as `std::path::Path` reads them on
//! Unix: the file name, its extension, which files are audio files, and the
//! lyric file that belongs to a song.

use vstd::prelude::*;
use crate::text::{chars_of, slice_chars, string_of};

verus! {

// ---------------------------------------------------------------------------
// File name and extension
// ---------------------------------------------------------------------------

/// Where the last component of `p` ends: trailing `/` and `/.` are not part
/// of it (`a/b/`, `a/b/.` and `a/b` all end in the component `b`).
pub open spec fn name_end(p: Seq<char>) -> int
    decreases p.len(),
{
    if p.len() > 0 && p.last() == '/' {
        name_end(p.drop_last())
    } else if p.len() >= 2 && p.last() == '.' && p[p.len() - 2] == '/' {
        name_end(p.take(p.len() - 2))
    } else {
        p.len() as int
    }
}

/// The index of the last `/` before index `e`, or -1.
pub open spec fn last_slash_before(p: Seq<char>, e: int) -> int
    decreases e,
{
    if e <= 0 {
        -1
    } else if p[e - 1] == '/' {
        e - 1
    } else {
        last_slash_before(p, e - 1)
    }
}

/// The bounds of the file name in `p`: the last component, unless that is
/// missing, `.` or `..` (`Path::file_name` gives `None` then).
pub open spec fn file_name_bounds(p: Seq<char>) -> Option<(int, int)> {
    let e = name_end(p);
    let s = last_slash_before(p, e) + 1;
    let c = p.subrange(s, e);
    if c.len() == 0 || c == seq!['.'] || c == seq!['.', '.'] {
        None
    } else {
        Some((s, e))
    }
}

/// `Path::file_name`.
pub open spec fn file_name(p: Seq<char>) -> Option<Seq<char>> {
    match file_name_bounds(p) {
        Some((s, e)) => Some(p.subrange(s, e)),
        None => None,
    }
}

/// The index of the last `.` in `n`, or -1.
pub open spec fn last_dot(n: Seq<char>) -> int
    decreases n.len(),
{
    if n.len() == 0 {
        -1
    } else if n.last() == '.' {
        n.len() - 1
    } else {
        last_dot(n.drop_last())
    }
}

/// The extension of a file name: what follows its last `.`, unless there is
/// no `.` or the only one opens the name.
pub open spec fn name_extension(n: Seq<char>) -> Option<Seq<char>> {
    if last_dot(n) <= 0 {
        None
    } else {
        Some(n.skip(last_dot(n) + 1))
    }
}

/// The length of the stem of a file name: the name before the `.` of its
/// extension, or the whole name when it has none.
pub open spec fn stem_len(n: Seq<char>) -> int {
    if last_dot(n) <= 0 {
        n.len() as int
    } else {
        last_dot(n)
    }
}

/// `Path::extension`.
pub open spec fn path_extension(p: Seq<char>) -> Option<Seq<char>> {
    match file_name(p) {
        Some(n) => name_extension(n),
        None => None,
    }
}

// ---------------------------------------------------------------------------
// Audio files
// ---------------------------------------------------------------------------

/// The extensions of the audio formats the player opens, in lower case.
pub open spec fn audio_extensions() -> Seq<Seq<char>> {
    seq![
        seq!['m', 'p', '3'],
        seq!['w', 'a', 'v'],
        seq!['f', 'l', 'a', 'c'],
        seq!['o', 'g', 'g'],
        seq!['m', '4', 'a'],
        seq!['a', 'a', 'c'],
        seq!['w', 'm', 'a'],
        seq!['o', 'p', 'u', 's'],
        seq!['a', 'i', 'f', 'f'],
        seq!['a', 'l', 'a', 'c'],
    ]
}

/// `c` with `A`..`Z` turned into `a`..`z`.
pub open spec fn ascii_lower(c: char) -> char {
    if 'A' <= c <= 'Z' {
        ((c as u32) + 32) as char
    } else {
        c
    }
}

/// `x` lowered is `w`. For the lower-case ASCII words above this is what
/// `to_lowercase` and a comparison give: no character outside ASCII lowers
/// to one of their letters or digits.
pub open spec fn lowers_to(x: Seq<char>, w: Seq<char>) -> bool {
    x.len() == w.len() && forall|i: int| 0 <= i < x.len() ==> ascii_lower(#[trigger] x[i]) == w[i]
}

/// The path names an audio file: its extension, in any case, is one of
/// `audio_extensions()`.
pub open spec fn is_audio_path(p: Seq<char>) -> bool {
    match path_extension(p) {
        Some(x) => exists|i: int|
            0 <= i < audio_extensions().len() && lowers_to(x, #[trigger] audio_extensions()[i]),
        None => false,
    }
}

proof fn lemma_no_dot_after_last(n: Seq<char>)
    ensures
        forall|i: int| last_dot(n) < i < n.len() ==> n[i] != '.',
    decreases n.len(),
{
    lemma_last_dot_bounds(n);
    if n.len() > 0 && n.last() != '.' {
        lemma_no_dot_after_last(n.drop_last());
        assert forall|i: int| last_dot(n) < i < n.len() implies n[i] != '.' by {
            if i < n.len() - 1 {
                assert(n[i] == n.drop_last()[i]);
            }
        }
    }
}

/// The extension of a path is what follows the last `.` of its file name,
/// when that `.` is not the name's first character; a path has none when it
/// has no file name, or when no `.` follows the first character of its name.
pub proof fn lemma_extension_shape(p: Seq<char>)
    ensures
        path_extension(p) matches Some(x) ==> (file_name(p) matches Some(n) && exists|k: int|
            0 < k < n.len() && n[k] == '.' && #[trigger] n.skip(k + 1) == x && (forall|i: int|
                k < i < n.len() ==> n[i] != '.')),
        path_extension(p) is None ==> (file_name(p) matches Some(n) ==> forall|i: int|
            0 < i < n.len() ==> n[i] != '.'),
{
    if let Some(n) = file_name(p) {
        lemma_last_dot_bounds(n);
        lemma_no_dot_after_last(n);
        if last_dot(n) >= 0 {
            lemma_last_dot_is_dot(n);
        }
        if path_extension(p) is Some {
            let k = last_dot(n);
            assert(n.skip(k + 1) == path_extension(p)->0);
        }
    }
}

/// A path names an audio file exactly when it has an extension which, with
/// `A`..`Z` lowered, is one of mp3, wav, flac, ogg, m4a, aac, wma, opus,
/// aiff and alac.
pub proof fn lemma_audio_extensions(p: Seq<char>)
    ensures
        is_audio_path(p) <==> (path_extension(p) matches Some(x) && {
            let lx = x.map_values(
                |c: char|
                    if 'A' <= c <= 'Z' {
                        ((c as u32) + 32) as char
                    } else {
                        c
                    },
            );
            ||| lx == seq!['m', 'p', '3']
            ||| lx == seq!['w', 'a', 'v']
            ||| lx == seq!['f', 'l', 'a', 'c']
            ||| lx == seq!['o', 'g', 'g']
            ||| lx == seq!['m', '4', 'a']
            ||| lx == seq!['a', 'a', 'c']
            ||| lx == seq!['w', 'm', 'a']
            ||| lx == seq!['o', 'p', 'u', 's']
            ||| lx == seq!['a', 'i', 'f', 'f']
            ||| lx == seq!['a', 'l', 'a', 'c']
        }),
{
    if let Some(x) = path_extension(p) {
        let lx = x.map_values(
            |c: char|
                if 'A' <= c <= 'Z' {
                    ((c as u32) + 32) as char
                } else {
                    c
                },
        );
        assert forall|w: Seq<char>| lowers_to(x, w) <==> lx == w by {
            if lowers_to(x, w) {
                assert(lx =~= w);
            }
            if lx == w {
                assert forall|i: int| 0 <= i < x.len() implies ascii_lower(#[trigger] x[i]) == w[i] by {
                    assert(lx[i] == w[i]);
                }
            }
        }
        let e = audio_extensions();
        assert(e[0] == seq!['m', 'p', '3']);
        assert(e[1] == seq!['w', 'a', 'v']);
        assert(e[2] == seq!['f', 'l', 'a', 'c']);
        assert(e[3] == seq!['o', 'g', 'g']);
        assert(e[4] == seq!['m', '4', 'a']);
        assert(e[5] == seq!['a', 'a', 'c']);
        assert(e[6] == seq!['w', 'm', 'a']);
        assert(e[7] == seq!['o', 'p', 'u', 's']);
        assert(e[8] == seq!['a', 'i', 'f', 'f']);
        assert(e[9] == seq!['a', 'l', 'a', 'c']);
        assert(e.len() == 10);
    }
}

// ---------------------------------------------------------------------------
// Executable forms
// ---------------------------------------------------------------------------

fn name_end_exec(v: &Vec<char>) -> (e: usize)
    ensures
        e == name_end(v@),
        e <= v.len(),
{
    let mut e = v.len();
    assert(v@.take(e as int) =~= v@);
    loop
        invariant
            e <= v.len(),
            name_end(v@) == name_end(v@.take(e as int)),
        decreases e,
    {
        if e > 0 && v[e - 1] == '/' {
            assert(v@.take(e as int).drop_last() =~= v@.take(e - 1));
            e -= 1;
        } else if e >= 2 && v[e - 1] == '.' && v[e - 2] == '/' {
            assert(v@.take(e as int).take(e - 2) =~= v@.take(e - 2));
            e -= 2;
        } else {
            return e;
        }
    }
}

fn last_slash_before_exec(v: &Vec<char>, e: usize) -> (r: usize)
    requires
        e <= v.len(),
    ensures
        r == last_slash_before(v@, e as int) + 1,
        r <= e,
{
    let mut i = e;
    while i > 0 && v[i - 1] != '/'
        invariant
            i <= e <= v.len(),
            last_slash_before(v@, e as int) == last_slash_before(v@, i as int),
        decreases i,
    {
        i -= 1;
    }
    i
}

fn last_dot_exec(v: &Vec<char>, s: usize, e: usize) -> (r: Option<usize>)
    requires
        s <= e <= v.len(),
    ensures
        match r {
            Some(d) => s <= d < e && last_dot(v@.subrange(s as int, e as int)) == d - s,
            None => last_dot(v@.subrange(s as int, e as int)) == -1,
        },
{
    let mut i = e;
    while i > s && v[i - 1] != '.'
        invariant
            s <= i <= e <= v.len(),
            last_dot(v@.subrange(s as int, e as int)) == last_dot(v@.subrange(s as int, i as int)),
        decreases i,
    {
        assert(v@.subrange(s as int, i as int).drop_last() =~= v@.subrange(s as int, i - 1));
        i -= 1;
    }
    if i > s {
        Some(i - 1)
    } else {
        None
    }
}

/// The bounds of the file name of `v`.
fn file_name_bounds_exec(v: &Vec<char>) -> (r: Option<(usize, usize)>)
    ensures
        match r {
            Some((s, e)) => file_name_bounds(v@) == Some((s as int, e as int)) && s < e
                <= v.len(),
            None => file_name_bounds(v@) is None,
        },
{
    let e = name_end_exec(v);
    let s = last_slash_before_exec(v, e);
    let len = e - s;
    let ghost c = v@.subrange(s as int, e as int);
    if len == 0 {
        return None;
    }
    if len == 1 && v[s] == '.' {
        assert(c =~= seq!['.']);
        return None;
    }
    if len == 2 && v[s] == '.' && v[s + 1] == '.' {
        assert(c =~= seq!['.', '.']);
        return None;
    }
    proof {
        if c == seq!['.'] {
            assert(c[0] == v@[s as int]);
        }
        if c == seq!['.', '.'] {
            assert(c[0] == v@[s as int]);
            assert(c[1] == v@[s + 1]);
        }
    }
    Some((s, e))
}

/// Whether `v[lo..hi]`, lowered, is the lower-case word `w`.
fn lowers_to_exec(v: &Vec<char>, lo: usize, hi: usize, w: &[char]) -> (r: bool)
    requires
        lo <= hi <= v.len(),
    ensures
        r == lowers_to(v@.subrange(lo as int, hi as int), w@),
{
    let ghost x = v@.subrange(lo as int, hi as int);
    if hi - lo != w.len() {
        return false;
    }
    let mut i: usize = 0;
    while i < w.len()
        invariant
            lo <= hi <= v.len(),
            hi - lo == w@.len(),
            x == v@.subrange(lo as int, hi as int),
            i <= w@.len(),
            forall|m: int| 0 <= m < i ==> ascii_lower(#[trigger] x[m]) == w@[m],
        decreases w.len() - i,
    {
        let c = v[lo + i];
        assert(x[i as int] == c);
        let lc = if 'A' <= c && c <= 'Z' {
            ((c as u8) + 32) as char
        } else {
            c
        };
        assert(lc == ascii_lower(c)) by {
            if 'A' <= c <= 'Z' {
                assert((c as u8) as u32 == c as u32);
            }
        }
        if lc != w[i] {
            return false;
        }
        i += 1;
    }
    true
}

/// Whether the path names an audio file: its extension, ignoring case, is
/// one of mp3, wav, flac, ogg, m4a, aac, wma, opus, aiff, alac.
pub fn is_audio_file(path: &str) -> (r: bool)
    ensures
        r == is_audio_path(path@),
{
    let v = chars_of(path);
    let (a, e) = match extension_bounds(&v) {
        Some(bounds) => bounds,
        None => return false,
    };
    let words: [&[char]; 10] = [
        &['m', 'p', '3'],
        &['w', 'a', 'v'],
        &['f', 'l', 'a', 'c'],
        &['o', 'g', 'g'],
        &['m', '4', 'a'],
        &['a', 'a', 'c'],
        &['w', 'm', 'a'],
        &['o', 'p', 'u', 's'],
        &['a', 'i', 'f', 'f'],
        &['a', 'l', 'a', 'c'],
    ];
    assert(words@.map_values(|w: &[char]| w@) =~= audio_extensions());
    let mut i: usize = 0;
    while i < 10
        invariant
            i <= 10,
            a <= e <= v.len(),
            path_extension(path@) == Some(v@.subrange(a as int, e as int)),
            words@.map_values(|w: &[char]| w@) == audio_extensions(),
            forall|m: int|
                0 <= m < i ==> !lowers_to(
                    v@.subrange(a as int, e as int),
                    #[trigger] audio_extensions()[m],
                ),
        decreases 10 - i,
    {
        assert(words@.map_values(|w: &[char]| w@)[i as int] == words[i as int]@);
        if lowers_to_exec(&v, a, e, words[i]) {
            return true;
        }
        i += 1;
    }
    false
}

// ---------------------------------------------------------------------------
// The lyric file of a song
// ---------------------------------------------------------------------------

/// `lrc`
pub open spec fn lrc() -> Seq<char> {
    seq!['l', 'r', 'c']
}

/// `PathBuf::set_extension("lrc")`: the path cut right after the stem of its
/// file name, followed by `.lrc`; a path without a file name is unchanged.
pub open spec fn set_lrc_extension(q: Seq<char>) -> Seq<char> {
    match file_name_bounds(q) {
        Some((s, e)) => q.take(s + stem_len(q.subrange(s, e))) + seq!['.'] + lrc(),
        None => q,
    }
}

/// The path without as many characters at its end as its extension has
/// (the whole path when it has none).
pub open spec fn cut_extension(p: Seq<char>) -> Seq<char> {
    match path_extension(p) {
        Some(x) => p.take(p.len() - x.len()),
        None => p,
    }
}

/// `Path::with_extension("lrc")`: the path less the characters of its
/// extension, then given the extension `lrc`.
pub open spec fn with_lrc_extension(p: Seq<char>) -> Seq<char> {
    set_lrc_extension(cut_extension(p))
}

/// The bounds of the extension of `v`.
fn extension_bounds(v: &Vec<char>) -> (r: Option<(usize, usize)>)
    ensures
        match r {
            Some((a, b)) => a <= b <= v.len() && path_extension(v@) == Some(
                v@.subrange(a as int, b as int),
            ),
            None => path_extension(v@) is None,
        },
{
    let (s, e) = match file_name_bounds_exec(v) {
        Some(bounds) => bounds,
        None => return None,
    };
    let d = match last_dot_exec(v, s, e) {
        Some(d) => d,
        None => return None,
    };
    if d == s {
        return None;
    }
    let ghost n = v@.subrange(s as int, e as int);
    assert(v@.subrange(d + 1, e as int) =~= n.skip(last_dot(n) + 1));
    Some((d + 1, e))
}

/// `set_lrc_extension` of `w`.
fn set_lrc_extension_exec(w: &Vec<char>) -> (r: String)
    ensures
        r@ == set_lrc_extension(w@),
{
    match file_name_bounds_exec(w) {
        None => string_of(w, 0, w.len()),
        Some((s, e)) => {
            let cut = match last_dot_exec(w, s, e) {
                Some(d) => if d == s {
                    e
                } else {
                    d
                },
                None => e,
            };
            let mut r = string_of(w, 0, cut);
            r.push('.');
            r.push('l');
            r.push('r');
            r.push('c');
            proof {
                assert(w@.subrange(0, w@.len() as int) =~= w@);
                assert(w@.subrange(0, cut as int) =~= w@.take(
                    s + stem_len(w@.subrange(s as int, e as int)),
                ));
                assert(r@ =~= w@.take(s + stem_len(w@.subrange(s as int, e as int))) + seq!['.']
                    + lrc());
            }
            r
        },
    }
}

/// The lyric file of a song: the same path with the extension `lrc`.
pub fn replace_ext_to_lrc(file_path: &str) -> (r: String)
    ensures
        r@ == with_lrc_extension(file_path@),
{
    let v = chars_of(file_path);
    let cut = match extension_bounds(&v) {
        Some((a, b)) => v.len() - (b - a),
        None => v.len(),
    };
    let w = slice_chars(&v, 0, cut);
    assert(w@ =~= cut_extension(v@));
    set_lrc_extension_exec(&w)
}

// ---------------------------------------------------------------------------
// Laws of the lyric path
// ---------------------------------------------------------------------------

proof fn lemma_last_slash_props(p: Seq<char>, e: int)
    requires
        0 <= e <= p.len(),
    ensures
        -1 <= last_slash_before(p, e) < e,
        last_slash_before(p, e) >= 0 ==> p[last_slash_before(p, e)] == '/',
        forall|i: int| last_slash_before(p, e) < i < e ==> p[i] != '/',
    decreases e,
{
    if e > 0 && p[e - 1] != '/' {
        lemma_last_slash_props(p, e - 1);
    }
}

proof fn lemma_last_slash_skip(p: Seq<char>, a: int, e: int)
    requires
        0 <= a <= e <= p.len(),
        forall|i: int| a <= i < e ==> p[i] != '/',
    ensures
        last_slash_before(p, e) == last_slash_before(p, a),
    decreases e - a,
{
    if a < e {
        lemma_last_slash_skip(p, a, e - 1);
    }
}

proof fn lemma_last_slash_prefix(p: Seq<char>, q: Seq<char>, a: int)
    requires
        0 <= a <= p.len(),
        a <= q.len(),
        p.take(a) == q.take(a),
    ensures
        last_slash_before(p, a) == last_slash_before(q, a),
    decreases a,
{
    if a > 0 {
        assert(p[a - 1] == p.take(a)[a - 1]);
        assert(q[a - 1] == q.take(a)[a - 1]);
        assert(p.take(a - 1) =~= p.take(a).take(a - 1));
        assert(q.take(a - 1) =~= q.take(a).take(a - 1));
        lemma_last_slash_prefix(p, q, a - 1);
    }
}

proof fn lemma_last_dot_lrc(x: Seq<char>)
    ensures
        last_dot(x + seq!['.'] + lrc()) == x.len(),
{
    let c = x + seq!['.'] + lrc();
    let c1 = x + seq!['.', 'l', 'r'];
    let c2 = x + seq!['.', 'l'];
    let c3 = x + seq!['.'];
    assert(c.drop_last() =~= c1);
    assert(c1.drop_last() =~= c2);
    assert(c2.drop_last() =~= c3);
    assert(c.last() == 'c');
    assert(c1.last() == 'r');
    assert(c2.last() == 'l');
    assert(c3.last() == '.');
    assert(last_dot(c3) == x.len());
    assert(last_dot(c2) == x.len());
    assert(last_dot(c1) == x.len());
}

proof fn lemma_name_end_of(p: Seq<char>)
    ensures
        0 <= name_end(p) <= p.len(),
    decreases p.len(),
{
    if p.len() > 0 && p.last() == '/' {
        lemma_name_end_of(p.drop_last());
    } else if p.len() >= 2 && p.last() == '.' && p[p.len() - 2] == '/' {
        lemma_name_end_of(p.take(p.len() - 2));
    }
}

proof fn lemma_last_dot_bounds(n: Seq<char>)
    ensures
        -1 <= last_dot(n) < n.len(),
    decreases n.len(),
{
    if n.len() > 0 && n.last() != '.' {
        lemma_last_dot_bounds(n.drop_last());
    }
}

/// Giving a path with a file name the extension `lrc`: the path up to the
/// end of the stem (which has no `/`), then `.lrc`; the file name of the
/// result is that stem and `.lrc`.
proof fn lemma_set_lrc_shape(q: Seq<char>)
    requires
        file_name_bounds(q) is Some,
    ensures
        ({
            let (s, e) = file_name_bounds(q)->0;
            let l = stem_len(q.subrange(s, e));
            let r = set_lrc_extension(q);
            &&& r == q.take(s + l) + seq!['.'] + lrc()
            &&& file_name_bounds(r) == Some((s, r.len() as int))
            &&& last_dot(r.subrange(s, r.len() as int)) == l
            &&& l > 0
            &&& 0 <= s < e <= q.len()
            &&& s + l <= e
            &&& s == last_slash_before(q, s) + 1
            &&& forall|i: int| s <= i < s + l ==> q[i] != '/'
        }),
{
    let (s, e) = file_name_bounds(q)->0;
    let n = q.subrange(s, e);
    let l = stem_len(n);
    let r = set_lrc_extension(q);
    let x = q.take(s + l);
    lemma_name_end_of(q);
    lemma_last_slash_props(q, e);
    lemma_last_dot_bounds(n);
    assert(0 < l <= n.len());
    assert(r == x + seq!['.'] + lrc());
    assert(r.last() == 'c');
    assert(name_end(r) == r.len());
    assert forall|i: int| s <= i < r.len() implies r[i] != '/' by {
        if i < s + l {
            assert(r[i] == q[i]);
        }
    }
    lemma_last_slash_skip(r, s, r.len() as int);
    assert(q.take(s) =~= r.take(s));
    lemma_last_slash_prefix(q, r, s);
    lemma_last_slash_props(q, s);
    if s > 0 {
        assert(q[s - 1] == '/');
    }
    assert(last_slash_before(q, s) == s - 1);
    let c = r.subrange(s, r.len() as int);
    assert(c =~= q.subrange(s, s + l) + seq!['.'] + lrc());
    lemma_last_dot_lrc(q.subrange(s, s + l));
    assert(c.len() >= 4);
    assert(c != seq!['.']);
    assert(c != seq!['.', '.']);
}

/// The stem of the file name that the lyric path is built from is not `.`
/// (the case of a name such as `..mp3/`, whose lyric path `..lrc` would in
/// turn lose its file name).
pub open spec fn lyric_stem_not_dot(p: Seq<char>) -> bool {
    match file_name(cut_extension(p)) {
        Some(n) => n.take(stem_len(n)) != seq!['.'],
        None => true,
    }
}

/// Taking the lyric path of a lyric path changes nothing, unless the stem
/// it was built from is `.`.
pub proof fn lemma_lyric_path_idempotent(p: Seq<char>)
    requires
        lyric_stem_not_dot(p),
    ensures
        with_lrc_extension(with_lrc_extension(p)) == with_lrc_extension(p),
{
    let q = cut_extension(p);
    let r = with_lrc_extension(p);
    if file_name_bounds(q) is Some {
        lemma_set_lrc_shape(q);
        let (s, e) = file_name_bounds(q)->0;
        let l = stem_len(q.subrange(s, e));
        let x = q.take(s + l);
        let c = r.subrange(s, r.len() as int);
        assert(c.skip(l + 1) =~= lrc());
        assert(path_extension(r) == Some(lrc()));
        let y = x + seq!['.'];
        assert(cut_extension(r) =~= y);
        // The file name of `y` is the stem followed by `.`.
        assert(y.last() == '.');
        assert(y[y.len() - 2] == q[s + l - 1]);
        assert(name_end(y) == y.len());
        assert forall|i: int| s <= i < y.len() implies y[i] != '/' by {
            if i < s + l {
                assert(y[i] == q[i]);
            }
        }
        lemma_last_slash_skip(y, s, y.len() as int);
        assert(q.take(s) =~= y.take(s));
        lemma_last_slash_prefix(q, y, s);
        let cy = y.subrange(s, y.len() as int);
        let stem = q.subrange(s, e).take(l);
        assert(stem =~= q.subrange(s, s + l));
        assert(cy =~= stem + seq!['.']);
        assert(file_name(q) == Some(q.subrange(s, e)));
        assert(cy != seq!['.', '.']) by {
            if cy == seq!['.', '.'] {
                assert(stem =~= cy.take(1));
                assert(stem =~= seq!['.']);
            }
        }
        assert(cy.drop_last() =~= stem);
        assert(last_dot(cy) == l);
        assert(file_name_bounds(y) == Some((s, y.len() as int)));
        assert(y.take(s + l) =~= x);
    } else {
        assert(file_name(r) is None);
        assert(cut_extension(r) == r);
    }
}

/// The lyric path has the extension `lrc` whenever the path it is built
/// from keeps a file name once the extension's characters are cut.
pub proof fn lemma_lyric_path_extension(p: Seq<char>)
    requires
        file_name(cut_extension(p)) is Some,
    ensures
        path_extension(with_lrc_extension(p)) == Some(lrc()),
{
    let q = cut_extension(p);
    lemma_set_lrc_shape(q);
    let (s, e) = file_name_bounds(q)->0;
    let r = with_lrc_extension(p);
    let c = r.subrange(s, r.len() as int);
    let l = stem_len(q.subrange(s, e));
    assert(c.skip(l + 1) =~= lrc());
}

proof fn lemma_last_dot_is_dot(n: Seq<char>)
    requires
        last_dot(n) >= 0,
    ensures
        n[last_dot(n)] == '.',
    decreases n.len(),
{
    lemma_last_dot_bounds(n);
    if n.len() > 0 && n.last() != '.' {
        lemma_last_dot_bounds(n.drop_last());
        lemma_last_dot_is_dot(n.drop_last());
    }
}

/// Cutting a path anywhere after the end of its last component leaves that
/// component where it was.
proof fn lemma_name_end_prefix(p: Seq<char>, j: int)
    requires
        name_end(p) <= j <= p.len(),
    ensures
        name_end(p.take(j)) == name_end(p),
    decreases p.len(),
{
    lemma_name_end_of(p);
    if j == p.len() {
        assert(p.take(j) =~= p);
    } else if p.len() > 0 && p.last() == '/' {
        assert(p.drop_last().take(j) =~= p.take(j));
        lemma_name_end_prefix(p.drop_last(), j);
    } else if p.len() >= 2 && p.last() == '.' && p[p.len() - 2] == '/' {
        let q = p.take(p.len() - 2);
        if j == p.len() - 1 {
            let r = p.take(j);
            assert(r.last() == '/');
            assert(r.drop_last() =~= q);
            lemma_name_end_of(q);
            assert(q.take(q.len() as int) =~= q);
        } else {
            assert(q.take(j) =~= p.take(j));
            lemma_name_end_prefix(q, j);
        }
    }
}

/// The last `.` of a name is also the last `.` of any prefix that holds it.
proof fn lemma_last_dot_take(n: Seq<char>, m: int)
    requires
        0 <= last_dot(n) < m <= n.len(),
    ensures
        last_dot(n.take(m)) == last_dot(n),
    decreases n.len(),
{
    if m == n.len() {
        assert(n.take(m) =~= n);
    } else {
        assert(n.last() != '.');
        assert(n.drop_last().take(m) =~= n.take(m));
        lemma_last_dot_take(n.drop_last(), m);
    }
}

/// The lyric path of a path with a file name keeps everything up to the end
/// of the stem of that name (the folders and the stem) and puts `.lrc` after
/// it. The one exception is a stem `.` at the very end of the path (as in
/// `..mp3`, whose cut `..` names no file).
pub proof fn lemma_lyric_path_keeps_parent_and_stem(p: Seq<char>)
    requires
        file_name_bounds(p) matches Some((s, e)) && (e < p.len() || p.subrange(s, e).take(
            stem_len(p.subrange(s, e)),
        ) != seq!['.']),
    ensures
        ({
            let (s, e) = file_name_bounds(p)->0;
            with_lrc_extension(p) == p.take(s + stem_len(p.subrange(s, e))) + seq!['.'] + lrc()
        }),
{
    let (s, e) = file_name_bounds(p)->0;
    let n = p.subrange(s, e);
    let l = stem_len(n);
    lemma_name_end_of(p);
    lemma_last_slash_props(p, e);
    lemma_last_dot_bounds(n);
    assert(file_name(p) == Some(n));
    if s > 0 {
        assert(p[s - 1] == '/');
    }
    assert(last_slash_before(p, s) == s - 1);
    if last_dot(n) > 0 {
        lemma_last_dot_is_dot(n);
        let t = p.len() - (n.len() - l - 1);
        let y = p.take(t);
        assert(cut_extension(p) =~= y);
        assert(y.take(s + l) =~= p.take(s + l));
        if t <= e {
            assert(y.last() == p[t - 1]);
            assert(y[y.len() - 2] == p[t - 2]);
            assert(name_end(y) == y.len());
            assert forall|i: int| s <= i < y.len() implies y[i] != '/' by {
                assert(y[i] == p[i]);
            }
            lemma_last_slash_skip(y, s, y.len() as int);
            assert(p.take(s) =~= y.take(s));
            lemma_last_slash_prefix(p, y, s);
            let cy = y.subrange(s, t);
            assert(cy =~= n.take(t - s));
            lemma_last_dot_take(n, t - s);
            assert(cy != seq!['.', '.']) by {
                if cy == seq!['.', '.'] {
                    assert(t - s == 2);
                    assert(l == 1);
                    assert(e == p.len());
                    assert(n.take(l) =~= cy.take(1));
                    assert(n.take(l) =~= seq!['.']);
                }
            }
            assert(file_name_bounds(y) == Some((s, t)));
        } else {
            lemma_name_end_prefix(p, t);
            assert(p.take(e) =~= y.take(e));
            lemma_last_slash_prefix(p, y, e);
            assert(y.subrange(s, e) =~= n);
            assert(file_name_bounds(y) == Some((s, e)));
        }
    } else {
        assert(cut_extension(p) == p);
    }
}

/// A lyric path is never taken for an audio file.
pub proof fn lemma_lyric_path_not_audio(p: Seq<char>)
    ensures
        !is_audio_path(with_lrc_extension(p)),
{
    if file_name(cut_extension(p)) is Some {
        lemma_lyric_path_extension(p);
        assert forall|i: int| 0 <= i < audio_extensions().len() implies !lowers_to(
            lrc(),
            #[trigger] audio_extensions()[i],
        ) by {
            assert(ascii_lower('l') == 'l');
            assert(ascii_lower('r') == 'r');
            assert(ascii_lower('c') == 'c');
            if lowers_to(lrc(), audio_extensions()[i]) {
                assert(ascii_lower(lrc()[0]) == audio_extensions()[i][0]);
                assert(ascii_lower(lrc()[1]) == audio_extensions()[i][1]);
            }
        }
    } else {
        assert(with_lrc_extension(p) == cut_extension(p));
    }
}

} // verus!
