//! Lyric files (`.lrc`): which lines carry a time stamp or a credit, what
//! each such line holds, and the order in which the lyrics are shown.

use vstd::prelude::*;
use crate::text::{
    char_at_byte, char_boundary, char_index_at_byte, chars_of, lemma_char_at_byte_is, lemma_utf8_len_step, lemma_utf8_len_strictly_increasing, lines_of, parse_u64, parse_u64_chars, slice_chars, split_lines, string_of, trim, trim_bounds, utf8_len, utf8_len_exceeds,
};

verus! {

broadcast use vstd::seq_lib::group_seq_properties;

/// One line of lyrics, shown from `time` milliseconds into the song.
#[derive(Debug)]
pub struct LyricLine {
    pub time: u64,
    pub text: String,
}

/// What a line of a lyric file contributes, before its seconds are read.
#[derive(Debug)]
pub enum LyricEntry {
    /// `[0M:SS.xx]text`: the minute digit, the seconds as written, the trimmed text.
    Timed { minutes: u64, seconds: String, text: String },
    /// `[by:name]`: the name between the tag and the next `]`.
    Credit { text: String },
}

/// A `LyricEntry` as plain values.
pub enum EntryView {
    Timed { minutes: u64, seconds: Seq<char>, text: Seq<char> },
    Credit { text: Seq<char> },
}

impl View for LyricEntry {
    type V = EntryView;

    open spec fn view(&self) -> EntryView {
        match self {
            LyricEntry::Timed { minutes, seconds, text } => EntryView::Timed {
                minutes: *minutes,
                seconds: seconds@,
                text: text@,
            },
            LyricEntry::Credit { text } => EntryView::Credit { text: text@ },
        }
    }
}

// ---------------------------------------------------------------------------
// The meaning of one line
// ---------------------------------------------------------------------------

/// A time-stamped line: it starts with `[0` and is longer than ten bytes.
pub open spec fn is_timed_line(l: Seq<char>) -> bool {
    &&& l.len() >= 2
    &&& l[0] == '['
    &&& l[1] == '0'
    &&& utf8_len(l) > 10
}

/// The byte ranges `1..3`, `4..9` and `10..` of a time-stamped line fall
/// between characters, so the line can be cut there.
pub open spec fn timed_line_cuttable(l: Seq<char>) -> bool {
    &&& char_boundary(l, 3)
    &&& char_boundary(l, 4)
    &&& char_boundary(l, 9)
    &&& char_boundary(l, 10)
}

/// What a time-stamped line holds: the number in bytes `1..3` (0 when it does
/// not read as one), the text of bytes `4..9`, and bytes `10..` trimmed.
pub open spec fn timed_entry(l: Seq<char>) -> EntryView {
    let k3 = char_at_byte(l, 3);
    let k4 = char_at_byte(l, 4);
    let k9 = char_at_byte(l, 9);
    let k10 = char_at_byte(l, 10);
    EntryView::Timed {
        minutes: match parse_u64(l.subrange(1, k3)) {
            Some(m) => m,
            None => 0,
        },
        seconds: l.subrange(k4, k9),
        text: trim(l.skip(k10)),
    }
}

/// `[by:`
pub open spec fn by_tag() -> Seq<char> {
    seq!['[', 'b', 'y', ':']
}

/// `p` occurs in `l` at index `i`.
pub open spec fn occurs_at(l: Seq<char>, p: Seq<char>, i: int) -> bool {
    0 <= i && i + p.len() <= l.len() && l.subrange(i, i + p.len()) == p
}

/// The first index at or after `i` where `p` occurs in `l`.
pub open spec fn find_from(l: Seq<char>, p: Seq<char>, i: int) -> Option<int>
    decreases l.len() - i,
{
    if i < 0 || i >= l.len() || i + p.len() > l.len() {
        None
    } else if occurs_at(l, p, i) {
        Some(i)
    } else {
        find_from(l, p, i + 1)
    }
}

/// The first index at or after `i` that holds `c`.
pub open spec fn find_char_from(l: Seq<char>, c: char, i: int) -> Option<int>
    decreases l.len() - i,
{
    if i < 0 || i >= l.len() {
        None
    } else if l[i] == c {
        Some(i)
    } else {
        find_char_from(l, c, i + 1)
    }
}

/// The text between the first `[by:` of `l` and the first `]` after it.
pub open spec fn by_content(l: Seq<char>) -> Option<Seq<char>> {
    match find_from(l, by_tag(), 0) {
        Some(s) => match find_char_from(l, ']', s + 4) {
            Some(e) => Some(l.subrange(s + 4, e)),
            None => None,
        },
        None => None,
    }
}

/// A credit line starts with `[by:`.
pub open spec fn is_credit_line(l: Seq<char>) -> bool {
    l.len() >= 4 && l.subrange(0, 4) == by_tag()
}

/// What line `l` contributes to the lyrics, if anything.
pub open spec fn entry_of_line(l: Seq<char>) -> Option<EntryView> {
    if is_timed_line(l) {
        Some(timed_entry(l))
    } else if is_credit_line(l) {
        Some(
            EntryView::Credit {
                text: match by_content(l) {
                    Some(t) => t,
                    None => Seq::empty(),
                },
            },
        )
    } else {
        None
    }
}

/// The entries of a sequence of lines, in order.
pub open spec fn entries_of(ls: Seq<Seq<char>>) -> Seq<EntryView>
    decreases ls.len(),
{
    if ls.len() == 0 {
        Seq::empty()
    } else {
        let rest = entries_of(ls.drop_last());
        match entry_of_line(ls.last()) {
            Some(e) => rest.push(e),
            None => rest,
        }
    }
}

/// The entries of a lyric file's content.
pub open spec fn lyric_entries(content: Seq<char>) -> Seq<EntryView> {
    entries_of(lines_of(content))
}

/// Every time-stamped line of `content` can be cut at its fixed byte offsets.
pub open spec fn lyric_lines_cuttable(content: Seq<char>) -> bool {
    forall|i: int|
        0 <= i < lines_of(content).len() && is_timed_line(#[trigger] lines_of(content)[i])
            ==> timed_line_cuttable(lines_of(content)[i])
}

// ---------------------------------------------------------------------------
// Reading one line
// ---------------------------------------------------------------------------

/// The bounds of the first `[by:` in `l` at or after `from`.
fn find_by_tag(l: &Vec<char>, from: usize) -> (r: Option<usize>)
    requires
        from <= l.len(),
    ensures
        match r {
            Some(i) => find_from(l@, by_tag(), from as int) == Some(i as int) && i + 4 <= l.len(),
            None => find_from(l@, by_tag(), from as int) is None,
        },
{
    let mut i = from;
    while i < l.len() && l.len() - i >= 4
        invariant
            from <= i <= l.len(),
            find_from(l@, by_tag(), from as int) == find_from(l@, by_tag(), i as int),
        decreases l.len() - i,
    {
        if l[i] == '[' && l[i + 1] == 'b' && l[i + 2] == 'y' && l[i + 3] == ':' {
            assert(l@.subrange(i as int, i + 4) =~= by_tag());
            return Some(i);
        }
        proof {
            if l@.subrange(i as int, i + 4) == by_tag() {
                assert(l@.subrange(i as int, i + 4)[0] == l@[i as int]);
                assert(l@.subrange(i as int, i + 4)[1] == l@[i + 1]);
                assert(l@.subrange(i as int, i + 4)[2] == l@[i + 2]);
                assert(l@.subrange(i as int, i + 4)[3] == l@[i + 3]);
            }
        }
        i += 1;
    }
    None
}

fn find_char(l: &Vec<char>, c: char, from: usize) -> (r: Option<usize>)
    requires
        from <= l.len(),
    ensures
        match r {
            Some(i) => find_char_from(l@, c, from as int) == Some(i as int) && from <= i < l.len(),
            None => find_char_from(l@, c, from as int) is None,
        },
{
    let mut i = from;
    while i < l.len()
        invariant
            from <= i <= l.len(),
            find_char_from(l@, c, from as int) == find_char_from(l@, c, i as int),
        decreases l.len() - i,
    {
        if l[i] == c {
            return Some(i);
        }
        i += 1;
    }
    None
}

/// The bounds of the text between the first `[by:` and the `]` after it.
fn by_content_bounds(l: &Vec<char>) -> (r: Option<(usize, usize)>)
    ensures
        match r {
            Some((a, b)) => a <= b <= l.len() && by_content(l@) == Some(
                l@.subrange(a as int, b as int),
            ),
            None => by_content(l@) is None,
        },
{
    match find_by_tag(l, 0) {
        Some(s) => match find_char(l, ']', s + 4) {
            Some(e) => Some((s + 4, e)),
            None => None,
        },
        None => None,
    }
}

/// The text after `[by:` up to the next `]`, where both are present.
pub fn get_by_content(text: &str) -> (r: Option<&str>)
    ensures
        match r {
            Some(t) => by_content(text@) == Some(t@),
            None => by_content(text@) is None,
        },
{
    let v = chars_of(text);
    match by_content_bounds(&v) {
        Some((a, b)) => Some(text.substring_char(a, b)),
        None => None,
    }
}

/// Whether a time-stamped line can be cut at its fixed byte offsets.
fn timed_line_cuttable_exec(l: &Vec<char>) -> (r: bool)
    ensures
        r == timed_line_cuttable(l@),
{
    char_index_at_byte(l, 3).is_some() && char_index_at_byte(l, 4).is_some()
        && char_index_at_byte(l, 9).is_some() && char_index_at_byte(l, 10).is_some()
}

fn is_timed_line_exec(l: &Vec<char>) -> (r: bool)
    ensures
        r == is_timed_line(l@),
{
    l.len() >= 2 && l[0] == '[' && l[1] == '0' && utf8_len_exceeds(l, 10)
}

fn is_credit_line_exec(l: &Vec<char>) -> (r: bool)
    ensures
        r == is_credit_line(l@),
{
    let r = l.len() >= 4 && l[0] == '[' && l[1] == 'b' && l[2] == 'y' && l[3] == ':';
    proof {
        if r {
            assert(l@.subrange(0, 4) =~= by_tag());
        }
        if l@.len() >= 4 && l@.subrange(0, 4) == by_tag() {
            assert(l@.subrange(0, 4)[0] == l@[0]);
            assert(l@.subrange(0, 4)[1] == l@[1]);
            assert(l@.subrange(0, 4)[2] == l@[2]);
            assert(l@.subrange(0, 4)[3] == l@[3]);
        }
    }
    r
}

proof fn lemma_char_at_byte_order(l: Seq<char>, a: int, b: int)
    requires
        char_boundary(l, a),
        char_boundary(l, b),
        a <= b,
    ensures
        0 <= char_at_byte(l, a) <= char_at_byte(l, b) <= l.len(),
{
    let ka = char_at_byte(l, a);
    let kb = char_at_byte(l, b);
    if kb < ka {
        lemma_utf8_len_strictly_increasing(l, kb, ka);
    }
}

/// The entry of a time-stamped line that can be cut.
fn timed_entry_exec(l: &Vec<char>) -> (e: LyricEntry)
    requires
        is_timed_line(l@),
        timed_line_cuttable(l@),
    ensures
        e@ == timed_entry(l@),
{
    let k3 = match char_index_at_byte(l, 3) {
        Some(k) => k,
        None => 0,
    };
    let k4 = match char_index_at_byte(l, 4) {
        Some(k) => k,
        None => 0,
    };
    let k9 = match char_index_at_byte(l, 9) {
        Some(k) => k,
        None => 0,
    };
    let k10 = match char_index_at_byte(l, 10) {
        Some(k) => k,
        None => 0,
    };
    proof {
        lemma_char_at_byte_order(l@, 3, 4);
        lemma_char_at_byte_order(l@, 4, 9);
        lemma_char_at_byte_order(l@, 9, 10);
        assert(l@.take(0) =~= Seq::<char>::empty());
        lemma_utf8_len_step(l@, 0);
        assert(l@[0] == '[');
        assert(utf8_len(l@.take(1)) == 1);
        if k3 == 1 {
            assert(false);
        }
        if k3 == 0 {
            assert(false);
        }
    }
    let minutes = match parse_u64_chars(l, 1, k3) {
        Some(m) => m,
        None => 0,
    };
    let seconds = string_of(l, k4, k9);
    let (a, b) = trim_bounds(l, k10, l.len());
    let text = string_of(l, a, b);
    proof {
        assert(l@.skip(k10 as int) =~= l@.subrange(k10 as int, l@.len() as int));
    }
    LyricEntry::Timed { minutes, seconds, text }
}

/// What line `l` contributes, where its time stamp can be cut.
fn entry_of_line_exec(l: &Vec<char>) -> (r: Option<LyricEntry>)
    requires
        is_timed_line(l@) ==> timed_line_cuttable(l@),
    ensures
        match r {
            Some(e) => entry_of_line(l@) == Some(e@),
            None => entry_of_line(l@) is None,
        },
{
    if is_timed_line_exec(l) {
        Some(timed_entry_exec(l))
    } else if is_credit_line_exec(l) {
        let text = match by_content_bounds(l) {
            Some((a, b)) => string_of(l, a, b),
            None => String::new(),
        };
        Some(LyricEntry::Credit { text })
    } else {
        None
    }
}

// ---------------------------------------------------------------------------
// Reading a whole file
// ---------------------------------------------------------------------------

/// Whether every time-stamped line of `content` can be cut at its fixed byte
/// offsets (reading a file where one cannot fails).
pub fn lyrics_cuttable(content: &str) -> (ok: bool)
    ensures
        ok == lyric_lines_cuttable(content@),
{
    let v = chars_of(content);
    let bounds = split_lines(&v);
    let mut i: usize = 0;
    while i < bounds.len()
        invariant
            v@ == content@,
            i <= bounds@.len() == lines_of(v@).len(),
            forall|m: int|
                0 <= m < bounds@.len() ==> {
                    &&& (#[trigger] bounds@[m]).0 <= bounds@[m].1 <= v.len()
                    &&& v@.subrange(bounds@[m].0 as int, bounds@[m].1 as int) == lines_of(
                        v@,
                    )[m]
                },
            forall|m: int|
                0 <= m < i && is_timed_line(#[trigger] lines_of(v@)[m]) ==> timed_line_cuttable(
                    lines_of(v@)[m],
                ),
        decreases bounds.len() - i,
    {
        let (lo, hi) = bounds[i];
        let line = slice_chars(&v, lo, hi);
        if is_timed_line_exec(&line) && !timed_line_cuttable_exec(&line) {
            return false;
        }
        i += 1;
    }
    true
}

/// The entries of a lyric file's content, line by line and in order.
pub fn scan_lyric_lines(content: &str) -> (entries: Vec<LyricEntry>)
    requires
        lyric_lines_cuttable(content@),
    ensures
        entries@.map_values(|e: LyricEntry| e@) == lyric_entries(content@),
{
    let v = chars_of(content);
    let bounds = split_lines(&v);
    let ghost ls = lines_of(v@);
    let mut entries: Vec<LyricEntry> = Vec::new();
    let mut i: usize = 0;
    while i < bounds.len()
        invariant
            v@ == content@,
            ls == lines_of(v@),
            lyric_lines_cuttable(content@),
            i <= bounds@.len() == ls.len(),
            forall|m: int|
                0 <= m < bounds@.len() ==> {
                    &&& (#[trigger] bounds@[m]).0 <= bounds@[m].1 <= v.len()
                    &&& v@.subrange(bounds@[m].0 as int, bounds@[m].1 as int) == ls[m]
                },
            entries@.map_values(|e: LyricEntry| e@) == entries_of(ls.take(i as int)),
        decreases bounds.len() - i,
    {
        let (lo, hi) = bounds[i];
        let line = slice_chars(&v, lo, hi);
        let ghost before = entries@;
        proof {
            assert(ls.take(i + 1).drop_last() =~= ls.take(i as int));
            assert(ls.take(i + 1).last() == ls[i as int]);
        }
        match entry_of_line_exec(&line) {
            Some(e) => {
                entries.push(e);
                assert(entries@.map_values(|e: LyricEntry| e@) =~= before.map_values(
                    |e: LyricEntry| e@,
                ).push(e@));
            },
            None => {},
        }
        i += 1;
    }
    proof {
        assert(ls.take(ls.len() as int) =~= ls);
    }
    entries
}

// ---------------------------------------------------------------------------
// Times and order
// ---------------------------------------------------------------------------

/// The time of an entry whose seconds were read as `seconds_ms` milliseconds:
/// whole minutes plus those milliseconds; a credit takes the time `previous`
/// of the line before it.
pub open spec fn entry_time(e: EntryView, seconds_ms: u64, previous: int) -> int {
    match e {
        EntryView::Timed { minutes, .. } => minutes * 60 * 1000 + seconds_ms,
        EntryView::Credit { .. } => previous,
    }
}

pub open spec fn entry_text(e: EntryView) -> Seq<char> {
    match e {
        EntryView::Timed { text, .. } => text,
        EntryView::Credit { text } => text,
    }
}

/// The time of the line before entry `i` (0 before the first line), the
/// seconds of entry `j` having been read as `secs[j]` milliseconds.
pub open spec fn time_before(es: Seq<EntryView>, secs: Seq<u64>, i: int) -> int
    decreases i,
{
    if i <= 0 {
        0
    } else {
        entry_time(es[i - 1], secs[i - 1], time_before(es, secs, i - 1))
    }
}

/// The time of entry `i`.
pub open spec fn time_at(es: Seq<EntryView>, secs: Seq<u64>, i: int) -> int {
    entry_time(es[i], secs[i], time_before(es, secs, i))
}

/// The views of a list of entries.
pub open spec fn entry_views(es: Seq<LyricEntry>) -> Seq<EntryView> {
    es.map_values(|e: LyricEntry| e@)
}

/// The lyric line of an entry, given its seconds in milliseconds and the time
/// of the line before it; `None` where the time does not fit in a `u64`.
pub fn lyric_line_of(entry: LyricEntry, seconds_ms: u64, previous: u64) -> (r: Option<LyricLine>)
    ensures
        match r {
            Some(l) => l.time == entry_time(entry@, seconds_ms, previous as int) && l.text@
                == entry_text(entry@),
            None => entry_time(entry@, seconds_ms, previous as int) > u64::MAX,
        },
{
    match entry {
        LyricEntry::Timed { minutes, seconds: _, text } => {
            let per_minute = match minutes.checked_mul(60) {
                Some(m) => m.checked_mul(1000),
                None => None,
            };
            match per_minute {
                Some(base) => match base.checked_add(seconds_ms) {
                    Some(time) => Some(LyricLine { time, text }),
                    None => None,
                },
                None => {
                    proof {
                        assert(minutes * 60 * 1000 >= minutes * 60) by (nonlinear_arith);
                    }
                    None
                },
            }
        },
        LyricEntry::Credit { text } => Some(LyricLine { time: previous, text }),
    }
}

/// The lyric lines of the entries of a file, in file order, the seconds of
/// entry `i` having been read as `seconds_ms[i]` milliseconds (ignored for a
/// credit, which takes the time of the line before it); `None` where the
/// time of a line does not fit in a `u64`.
pub fn lyric_lines(entries: Vec<LyricEntry>, seconds_ms: &Vec<u64>) -> (r: Option<Vec<LyricLine>>)
    requires
        entries.len() == seconds_ms.len(),
    ensures
        r is None <==> exists|i: int|
            0 <= i < entries.len() && #[trigger] time_at(entry_views(entries@), seconds_ms@, i)
                > u64::MAX,
        r matches Some(ls) ==> {
            &&& ls.len() == entries.len()
            &&& forall|i: int|
                0 <= i < ls.len() ==> {
                    &&& (#[trigger] ls@[i]).time == time_at(entry_views(entries@), seconds_ms@, i)
                    &&& ls@[i].text@ == entry_text(entries@[i]@)
                }
        },
{
    let ghost es = entry_views(entries@);
    let ghost secs = seconds_ms@;
    let mut lines: Vec<LyricLine> = Vec::new();
    let mut previous: u64 = 0;
    for e in it: entries.into_iter()
        invariant
            es == entry_views(it.seq()),
            secs == seconds_ms@,
            it.seq().len() == seconds_ms.len(),
            lines.len() == it.index(),
            previous == time_before(es, secs, it.index() as int),
            forall|i: int|
                0 <= i < lines.len() ==> {
                    &&& (#[trigger] lines@[i]).time == time_at(es, secs, i)
                    &&& lines@[i].text@ == entry_text(it.seq()[i]@)
                },
            forall|i: int| 0 <= i < lines.len() ==> #[trigger] time_at(es, secs, i) <= u64::MAX,
    {
        let i = lines.len();
        assert(es[i as int] == e@);
        let ghost text = entry_text(e@);
        match lyric_line_of(e, seconds_ms[i], previous) {
            Some(l) => {
                previous = l.time;
                lines.push(l);
            },
            None => {
                assert(time_at(es, secs, i as int) > u64::MAX);
                return None;
            },
        }
    }
    Some(lines)
}

/// Every line shows no earlier than the lines before it.
pub open spec fn sorted_by_time(s: Seq<LyricLine>) -> bool {
    forall|i: int, j: int| 0 <= i <= j < s.len() ==> s[i].time <= s[j].time
}

/// The line shows at time `t`.
pub open spec fn shows_at(t: u64) -> spec_fn(LyricLine) -> bool {
    |l: LyricLine| l.time == t
}

/// The lines of `s` that show at time `t`, in their order in `s`.
pub open spec fn at_time(s: Seq<LyricLine>, t: u64) -> Seq<LyricLine> {
    s.filter(shows_at(t))
}

proof fn lemma_filter_none(s: Seq<LyricLine>, t: u64)
    requires
        forall|i: int| 0 <= i < s.len() ==> (#[trigger] s[i]).time != t,
    ensures
        at_time(s, t) == Seq::<LyricLine>::empty(),
    decreases s.len(),
{
    reveal(Seq::filter);
    if s.len() > 0 {
        let d = s.drop_last();
        assert forall|i: int| 0 <= i < d.len() implies (#[trigger] d[i]).time != t by {
            assert(d[i] == s[i]);
        }
        lemma_filter_none(d, t);
    }
}

proof fn lemma_single_at_time(x: LyricLine, t: u64)
    ensures
        at_time(seq![x], t) == (if x.time == t {
            seq![x]
        } else {
            Seq::<LyricLine>::empty()
        }),
{
    Seq::<LyricLine>::empty().lemma_filter_prepend(x, shows_at(t));
    assert(seq![x] + Seq::<LyricLine>::empty() =~= seq![x]);
    reveal(Seq::filter);
}

/// Inserting `x` in front of the lines that show at or after it keeps, for
/// every time, the lines of that time in the order of `x` followed by `src`.
proof fn lemma_insert_keeps_groups(
    before: Seq<LyricLine>,
    p: int,
    x: LyricLine,
    src: Seq<LyricLine>,
    t: u64,
)
    requires
        0 <= p <= before.len(),
        forall|i: int| 0 <= i < p ==> (#[trigger] before[i]).time < x.time,
        at_time(before, t) == at_time(src, t),
    ensures
        at_time(before.take(p) + seq![x] + before.skip(p), t) == at_time(seq![x] + src, t),
{
    let pre = before.take(p);
    let post = before.skip(p);
    let pred = shows_at(t);
    assert(before =~= pre + post);
    Seq::filter_distributes_over_add(pre + seq![x], post, pred);
    Seq::filter_distributes_over_add(pre, seq![x], pred);
    Seq::filter_distributes_over_add(pre, post, pred);
    src.lemma_filter_prepend(x, pred);
    lemma_single_at_time(x, t);
    if t == x.time {
        assert forall|i: int| 0 <= i < pre.len() implies (#[trigger] pre[i]).time != t by {
            assert(pre[i] == before[i]);
        }
        lemma_filter_none(pre, t);
        assert(at_time(pre + seq![x] + post, t) =~= seq![x] + at_time(post, t));
        assert(at_time(seq![x] + src, t) =~= seq![x] + at_time(pre, t) + at_time(post, t));
    } else {
        assert(at_time(pre + seq![x] + post, t) =~= at_time(pre, t) + at_time(post, t));
        assert(at_time(seq![x] + src, t) =~= Seq::<LyricLine>::empty() + at_time(src, t));
    }
}

/// The lyrics ordered by time; lines with the same time keep their order.
pub fn sort_lyrics(lines: Vec<LyricLine>) -> (out: Vec<LyricLine>)
    ensures
        out@.len() == lines@.len(),
        sorted_by_time(out@),
        forall|t: u64| #[trigger] at_time(out@, t) == at_time(lines@, t),
{
    let ghost all = lines@;
    let mut rest = lines;
    let mut out: Vec<LyricLine> = Vec::new();
    while rest.len() > 0
        invariant
            rest@ == all.take(rest@.len() as int),
            rest@.len() <= all.len(),
            out@.len() + rest@.len() == all.len(),
            sorted_by_time(out@),
            forall|t: u64| #[trigger] at_time(out@, t) == at_time(all.skip(rest@.len() as int), t),
        decreases rest@.len(),
    {
        let ghost n = rest@.len() as int;
        let x = match rest.pop() {
            Some(x) => x,
            None => {
                assert(false);
                return out;
            },
        };
        assert(x == all[n - 1]);
        let mut p: usize = 0;
        while p < out.len() && out[p].time < x.time
            invariant
                p <= out@.len(),
                forall|i: int| 0 <= i < p ==> (#[trigger] out@[i]).time < x.time,
            decreases out@.len() - p,
        {
            p += 1;
        }
        let ghost before = out@;
        out.insert(p, x);
        proof {
            assert(out@ =~= before.take(p as int) + seq![x] + before.skip(p as int));
            assert(all.skip(n - 1) =~= seq![x] + all.skip(n));
            assert(rest@ =~= all.take(n - 1));
            assert(before =~= before.take(p as int) + before.skip(p as int));
            assert forall|i: int, j: int| 0 <= i <= j < out@.len() implies out@[i].time
                <= out@[j].time by {
                if p < before.len() {
                    assert(before[p as int].time >= x.time);
                }
                if i < p && j > p {
                    assert(before[i].time <= before[j - 1].time);
                } else if i > p {
                    assert(before[i - 1].time <= before[j - 1].time);
                } else if i == p && j > p {
                    assert(before[p as int].time <= before[j - 1].time);
                }
            }
            assert forall|t: u64| #[trigger] at_time(out@, t) == at_time(
                all.skip(n - 1),
                t,
            ) by {
                lemma_insert_keeps_groups(before, p as int, x, all.skip(n), t);
            }
        }
    }
    proof {
        assert(all.skip(0) =~= all);
    }
    out
}

// ---------------------------------------------------------------------------
// The order is determined
// ---------------------------------------------------------------------------

proof fn lemma_in_group(a: Seq<LyricLine>, i: int)
    requires
        0 <= i < a.len(),
    ensures
        at_time(a, a[i].time).len() > 0,
{
    a.lemma_filter_contains(shows_at(a[i].time), i);
}

proof fn lemma_group_member(a: Seq<LyricLine>, t: u64) -> (i: int)
    requires
        at_time(a, t).len() > 0,
    ensures
        0 <= i < a.len(),
        a[i].time == t,
{
    let y = at_time(a, t)[0];
    a.lemma_filter_pred(shows_at(t), 0);
    assert(at_time(a, t).contains(y));
    a.lemma_filter_contains_rev(shows_at(t), y);
    choose|i: int| 0 <= i < a.len() && a[i] == y
}

proof fn lemma_groups_of_push(a: Seq<LyricLine>, x: LyricLine, t: u64)
    ensures
        at_time(a.push(x), t) == (if x.time == t {
            at_time(a, t).push(x)
        } else {
            at_time(a, t)
        }),
{
    a.lemma_filter_push(x, shows_at(t));
}

/// Two lists of lines, each ordered by time, that hold the same lines at
/// every time in the same order are the same list: the order of the lyrics
/// is fully determined, so sorting lyrics that are already in order leaves
/// them as they are.
pub proof fn lemma_sorted_lyrics_unique(a: Seq<LyricLine>, b: Seq<LyricLine>)
    requires
        sorted_by_time(a),
        sorted_by_time(b),
        forall|t: u64| #[trigger] at_time(a, t) == at_time(b, t),
    ensures
        a == b,
    decreases a.len(),
{
    if a.len() == 0 {
        if b.len() > 0 {
            lemma_in_group(b, 0);
            assert(at_time(a, b[0].time) == at_time(b, b[0].time));
            reveal(Seq::filter);
            assert(false);
        }
        assert(a =~= b);
    } else {
        let x = a.last();
        let tx = x.time;
        lemma_in_group(a, a.len() - 1);
        assert(at_time(a, tx) == at_time(b, tx));
        let j = lemma_group_member(b, tx);
        let y = b.last();
        let ty = y.time;
        assert(b[j].time <= ty);
        lemma_in_group(b, b.len() - 1);
        assert(at_time(a, ty) == at_time(b, ty));
        let i = lemma_group_member(a, ty);
        assert(a[i].time <= tx);
        assert(tx == ty);
        let a1 = a.drop_last();
        let b1 = b.drop_last();
        assert(a =~= a1.push(x));
        assert(b =~= b1.push(y));
        lemma_groups_of_push(a1, x, tx);
        lemma_groups_of_push(b1, y, tx);
        assert(at_time(a, tx).last() == x);
        assert(at_time(b, tx).last() == y);
        assert(x == y);
        assert(at_time(a1, tx) =~= at_time(a, tx).drop_last());
        assert(at_time(b1, tx) =~= at_time(b, tx).drop_last());
        assert forall|t: u64| #[trigger] at_time(a1, t) == at_time(b1, t) by {
            lemma_groups_of_push(a1, x, t);
            lemma_groups_of_push(b1, y, t);
            assert(at_time(a, t) == at_time(b, t));
        }
        lemma_sorted_lyrics_unique(a1, b1);
    }
}

// ---------------------------------------------------------------------------
// Laws of reading a lyric file
// ---------------------------------------------------------------------------

/// A line gives an entry exactly when it starts with `[0` and is longer than
/// ten bytes, which gives a time-stamped entry, or starts with `[by:`, which
/// gives a credit. Any other line, such as an `[ar:]` or `[ti:]` header,
/// gives none.
pub proof fn lemma_which_lines_give_entries(l: Seq<char>)
    ensures
        (l.len() >= 2 && l[0] == '[' && l[1] == '0' && utf8_len(l) > 10) ==> (entry_of_line(
            l,
        ) matches Some(EntryView::Timed { .. })),
        !(l.len() >= 2 && l[0] == '[' && l[1] == '0' && utf8_len(l) > 10) && (l.len() >= 4
            && l[0] == '[' && l[1] == 'b' && l[2] == 'y' && l[3] == ':') ==> (entry_of_line(
            l,
        ) matches Some(EntryView::Credit { .. })),
        !(l.len() >= 2 && l[0] == '[' && l[1] == '0' && utf8_len(l) > 10) && !(l.len() >= 4
            && l[0] == '[' && l[1] == 'b' && l[2] == 'y' && l[3] == ':') ==> entry_of_line(
            l,
        ) is None,
{
    if l.len() >= 4 {
        let h = l.subrange(0, 4);
        assert(h[0] == l[0] && h[1] == l[1] && h[2] == l[2] && h[3] == l[3]);
        if l[0] == '[' && l[1] == 'b' && l[2] == 'y' && l[3] == ':' {
            assert(h =~= by_tag());
        }
    }
}

/// The entries of a file are as many as its lines that start with `[0` and
/// are longer than ten bytes, or start with `[by:`: one for each, in order.
pub proof fn lemma_entry_count(ls: Seq<Seq<char>>)
    ensures
        entries_of(ls).len() == ls.filter(
            |l: Seq<char>|
                (l.len() >= 2 && l[0] == '[' && l[1] == '0' && utf8_len(l) > 10) || (l.len() >= 4
                    && l[0] == '[' && l[1] == 'b' && l[2] == 'y' && l[3] == ':'),
        ).len(),
    decreases ls.len(),
{
    reveal(Seq::filter);
    if ls.len() > 0 {
        lemma_entry_count(ls.drop_last());
        lemma_which_lines_give_entries(ls.last());
    }
}

/// A prefix of ASCII characters takes one byte per character.
proof fn lemma_ascii_prefix_bytes(l: Seq<char>, k: int)
    requires
        0 <= k <= l.len(),
        forall|i: int| 0 <= i < k ==> (l[i] as u32) < 0x80,
    ensures
        utf8_len(l.take(k)) == k,
    decreases k,
{
    if k > 0 {
        lemma_ascii_prefix_bytes(l, k - 1);
        lemma_utf8_len_step(l, k - 1);
    }
}

/// A line that starts with `[0` and holds more than ten characters, the
/// first ten of them ASCII, is time-stamped: its minutes are the number
/// written in characters 1..3 (0 when they are not one), its seconds are
/// characters 4..9 as written, and its text is what follows character 10,
/// trimmed.
pub proof fn lemma_timed_line_fields(l: Seq<char>)
    requires
        l.len() > 10,
        l[0] == '[',
        l[1] == '0',
        forall|i: int| 0 <= i < 10 ==> (l[i] as u32) < 0x80,
    ensures
        entry_of_line(l) == Some(
            EntryView::Timed {
                minutes: match parse_u64(l.subrange(1, 3)) {
                    Some(m) => m,
                    None => 0,
                },
                seconds: l.subrange(4, 9),
                text: trim(l.skip(10)),
            },
        ),
{
    lemma_ascii_prefix_bytes(l, 3);
    lemma_ascii_prefix_bytes(l, 4);
    lemma_ascii_prefix_bytes(l, 9);
    lemma_ascii_prefix_bytes(l, 10);
    lemma_char_at_byte_is(l, 3, 3);
    lemma_char_at_byte_is(l, 4, 4);
    lemma_char_at_byte_is(l, 9, 9);
    lemma_char_at_byte_is(l, 10, 10);
    lemma_utf8_len_strictly_increasing(l, 10, l.len() as int);
    assert(l.take(l.len() as int) =~= l);
}

/// Where `c` first occurs in `l` at or after `i`, if it does.
proof fn lemma_find_char_from(l: Seq<char>, c: char, i: int)
    requires
        0 <= i,
    ensures
        match find_char_from(l, c, i) {
            Some(e) => i <= e < l.len() && l[e] == c && forall|k: int| i <= k < e ==> l[k] != c,
            None => forall|k: int| i <= k < l.len() ==> l[k] != c,
        },
    decreases l.len() - i,
{
    if i < l.len() && l[i] != c {
        lemma_find_char_from(l, c, i + 1);
    }
}

/// A line that starts with `[by:` and is not time-stamped is a credit whose
/// text is what stands between the tag and the first `]` after it, or
/// nothing when no `]` follows.
pub proof fn lemma_credit_line_text(l: Seq<char>)
    requires
        l.len() >= 4,
        l[0] == '[' && l[1] == 'b' && l[2] == 'y' && l[3] == ':',
        !(l.len() >= 2 && l[0] == '[' && l[1] == '0' && utf8_len(l) > 10),
    ensures
        entry_of_line(l) matches Some(EntryView::Credit { text }) && ({
            ||| exists|e: int|
                4 <= e < l.len() && l[e] == ']' && (forall|k: int| 4 <= k < e ==> l[k] != ']')
                    && text == l.subrange(4, e)
            ||| (forall|k: int| 4 <= k < l.len() ==> l[k] != ']') && text.len() == 0
        }),
{
    lemma_which_lines_give_entries(l);
    assert(l.subrange(0, 4) =~= by_tag());
    assert(occurs_at(l, by_tag(), 0));
    assert(find_from(l, by_tag(), 0) == Some(0int));
    lemma_find_char_from(l, ']', 4);
}

/// A time-stamped entry shows at its minutes plus the milliseconds its
/// seconds were read as; a credit shows at the time of the line before it,
/// or at 0 when it comes first.
pub proof fn lemma_line_times(es: Seq<EntryView>, secs: Seq<u64>, i: int)
    requires
        0 <= i < es.len(),
        es.len() == secs.len(),
    ensures
        es[i] matches EntryView::Timed { minutes, .. } ==> time_at(es, secs, i) == minutes * 60000
            + secs[i],
        (es[i] is Credit && i == 0) ==> time_at(es, secs, i) == 0,
        (es[i] is Credit && i > 0) ==> time_at(es, secs, i) == time_at(es, secs, i - 1),
{
}

/// In lyrics sorted by time no line comes after a later one.
pub proof fn lemma_sorted_means_no_later_line_first(s: Seq<LyricLine>, i: int, j: int)
    requires
        sorted_by_time(s),
        0 <= i < j < s.len(),
    ensures
        s[i].time <= s[j].time,
{
}

/// The lines of `s` at time `t` are exactly those of its lines whose time
/// is `t`.
pub proof fn lemma_at_time_members(s: Seq<LyricLine>, t: u64, l: LyricLine)
    ensures
        at_time(s, t).contains(l) <==> (s.contains(l) && l.time == t),
{
    broadcast use vstd::seq_lib::group_filter_ensures;
    if s.contains(l) && l.time == t {
        let k = choose|k: int| 0 <= k < s.len() && s[k] == l;
        s.lemma_filter_contains(shows_at(t), k);
    }
    if at_time(s, t).contains(l) {
        s.lemma_filter_contains_rev(shows_at(t), l);
        let k = choose|k: int| 0 <= k < at_time(s, t).len() && at_time(s, t)[k] == l;
        s.lemma_filter_pred(shows_at(t), k);
    }
}

proof fn lemma_find_from(l: Seq<char>, p: Seq<char>, i: int)
    requires
        0 <= i,
        p.len() > 0,
    ensures
        match find_from(l, p, i) {
            Some(s) => i <= s && occurs_at(l, p, s) && forall|k: int| i <= k < s ==> !occurs_at(l, p, k),
            None => forall|k: int| i <= k ==> !occurs_at(l, p, k),
        },
    decreases l.len() - i,
{
    if !(i >= l.len() || i + p.len() > l.len()) && !occurs_at(l, p, i) {
        lemma_find_from(l, p, i + 1);
    }
}

/// `[by:` stands in `l` at index `k`.
pub open spec fn by_tag_at(l: Seq<char>, k: int) -> bool {
    0 <= k && k + 4 <= l.len() && l[k] == '[' && l[k + 1] == 'b' && l[k + 2] == 'y' && l[k + 3]
        == ':'
}

proof fn lemma_by_tag_at(l: Seq<char>, k: int)
    ensures
        occurs_at(l, by_tag(), k) <==> by_tag_at(l, k),
{
    if 0 <= k && k + 4 <= l.len() {
        let h = l.subrange(k, k + 4);
        assert(h[0] == l[k] && h[1] == l[k + 1] && h[2] == l[k + 2] && h[3] == l[k + 3]);
        if by_tag_at(l, k) {
            assert(h =~= by_tag());
        }
    }
}

/// The credit name of a line is the text between its first `[by:` and the
/// first `]` after that tag; there is none when the line holds no `[by:`, or
/// no `]` after the first one.
pub proof fn lemma_by_content(l: Seq<char>)
    ensures
        by_content(l) matches Some(t) ==> exists|s: int, e: int|
            {
                &&& by_tag_at(l, s)
                &&& forall|k: int| 0 <= k < s ==> !by_tag_at(l, k)
                &&& s + 4 <= e < l.len()
                &&& l[e] == ']'
                &&& forall|k: int| s + 4 <= k < e ==> l[k] != ']'
                &&& #[trigger] l.subrange(s + 4, e) == t
            },
        by_content(l) is None ==> (forall|k: int| 0 <= k ==> !by_tag_at(l, k)) || exists|s: int|
            {
                &&& #[trigger] by_tag_at(l, s)
                &&& forall|k: int| 0 <= k < s ==> !by_tag_at(l, k)
                &&& forall|k: int| s + 4 <= k < l.len() ==> l[k] != ']'
            },
{
    lemma_find_from(l, by_tag(), 0);
    assert forall|k: int| occurs_at(l, by_tag(), k) <==> by_tag_at(l, k) by {
        lemma_by_tag_at(l, k);
    }
    if let Some(s) = find_from(l, by_tag(), 0) {
        lemma_find_char_from(l, ']', s + 4);
        if let Some(e) = find_char_from(l, ']', s + 4) {
            assert(l.subrange(s + 4, e) == by_content(l)->0);
        } else {
            assert(by_tag_at(l, s));
        }
    }
}

} // verus!
