use music_player::lyric::{
    get_by_content, lyric_line_of, lyric_lines, lyrics_cuttable, scan_lyric_lines, sort_lyrics,
    LyricEntry, LyricLine,
};

fn timed(e: &LyricEntry) -> Option<(u64, String, String)> {
    match e {
        LyricEntry::Timed { minutes, seconds, text } => Some((*minutes, seconds.clone(), text.clone())),
        LyricEntry::Credit { .. } => None,
    }
}

fn credit(e: &LyricEntry) -> Option<String> {
    match e {
        LyricEntry::Credit { text } => Some(text.clone()),
        LyricEntry::Timed { .. } => None,
    }
}

fn line(time: u64, text: &str) -> LyricLine {
    LyricLine { time, text: text.to_string() }
}

fn summary(lines: &[LyricLine]) -> Vec<(u64, String)> {
    lines.iter().map(|l| (l.time, l.text.clone())).collect()
}

const SAMPLE: &str = "[ti:Song]\n[by:QQ音乐动态歌词]\n[00:12.34]Hello world  \r\n[01:02.50] second\n[00:05.00]first\nnot a line\n[0x]";

#[test]
fn scan_reads_timed_and_credit_lines() {
    assert!(lyrics_cuttable(SAMPLE));
    let entries = scan_lyric_lines(SAMPLE);
    assert_eq!(entries.len(), 4);
    assert_eq!(credit(&entries[0]), Some("QQ音乐动态歌词".to_string()));
    assert_eq!(timed(&entries[1]), Some((0, "12.34".to_string(), "Hello world".to_string())));
    assert_eq!(timed(&entries[2]), Some((1, "02.50".to_string(), "second".to_string())));
    assert_eq!(timed(&entries[3]), Some((0, "05.00".to_string(), "first".to_string())));
}

#[test]
fn scan_of_empty_content_is_empty() {
    assert!(lyrics_cuttable(""));
    assert_eq!(scan_lyric_lines("").len(), 0);
    assert_eq!(scan_lyric_lines("\n\n").len(), 0);
}

#[test]
fn minutes_that_do_not_read_as_a_number_are_zero() {
    let entries = scan_lyric_lines("[0x:10.00]text here");
    assert_eq!(entries.len(), 1);
    assert_eq!(timed(&entries[0]), Some((0, "10.00".to_string(), "text here".to_string())));
    let entries = scan_lyric_lines("[07:10.00]seven");
    assert_eq!(timed(&entries[0]), Some((7, "10.00".to_string(), "seven".to_string())));
}

#[test]
fn short_lines_are_not_time_stamped() {
    // ten bytes exactly: not longer than ten
    assert_eq!(scan_lyric_lines("[00:01.00]").len(), 0);
    let entries = scan_lyric_lines("[00:01.00]x");
    assert_eq!(timed(&entries[0]), Some((0, "01.00".to_string(), "x".to_string())));
}

#[test]
fn a_cut_inside_a_character_is_detected() {
    // 'é' takes bytes 2 and 3, so byte 3 is inside it
    assert!(!lyrics_cuttable("[0é345678901"));
    // a multi-byte character after byte 10 is fine
    assert!(lyrics_cuttable("[00:01.00]é"));
    let entries = scan_lyric_lines("[00:01.00]é");
    assert_eq!(timed(&entries[0]), Some((0, "01.00".to_string(), "é".to_string())));
}

#[test]
fn credit_without_closing_bracket_is_empty() {
    let entries = scan_lyric_lines("[by:nobody");
    assert_eq!(credit(&entries[0]), Some(String::new()));
}

#[test]
fn get_by_content_finds_the_name() {
    assert_eq!(get_by_content("[by:abc]"), Some("abc"));
    assert_eq!(get_by_content("x [by:a b] [by:c]"), Some("a b"));
    assert_eq!(get_by_content("[by:]"), Some(""));
    assert_eq!(get_by_content("[by:abc"), None);
    assert_eq!(get_by_content("no tag ]"), None);
    assert_eq!(get_by_content("[by:歌手]尾"), Some("歌手"));
}

#[test]
fn lyric_line_of_adds_minutes() {
    let e = LyricEntry::Timed { minutes: 2, seconds: "03.50".to_string(), text: "t".to_string() };
    let l = lyric_line_of(e, 3500, 77).unwrap();
    assert_eq!((l.time, l.text.as_str()), (123_500, "t"));
    let c = LyricEntry::Credit { text: "me".to_string() };
    let l = lyric_line_of(c, 999, 4_000).unwrap();
    assert_eq!((l.time, l.text.as_str()), (4_000, "me"));
    let e = LyricEntry::Timed { minutes: 1, seconds: String::new(), text: String::new() };
    assert!(lyric_line_of(e, u64::MAX, 0).is_none());
}

#[test]
fn sort_orders_by_time_and_keeps_ties() {
    let lines = vec![line(5, "a"), line(1, "b"), line(5, "c"), line(0, "d"), line(1, "e")];
    let sorted = sort_lyrics(lines);
    assert_eq!(
        summary(&sorted),
        vec![
            (0, "d".to_string()),
            (1, "b".to_string()),
            (1, "e".to_string()),
            (5, "a".to_string()),
            (5, "c".to_string())
        ]
    );
}

#[test]
fn sort_leaves_sorted_lyrics_unchanged() {
    let lines = vec![line(0, "x"), line(2, "y"), line(2, "z"), line(9, "w")];
    let before = summary(&lines);
    let sorted = sort_lyrics(lines);
    assert_eq!(summary(&sorted), before);
    let again = sort_lyrics(sorted);
    assert_eq!(summary(&again), before);
}

fn seconds_ms(entries: &[LyricEntry]) -> Vec<u64> {
    entries
        .iter()
        .map(|e| match e {
            LyricEntry::Timed { seconds, .. } => (seconds.parse::<f64>().unwrap_or(0.0) * 1000.0) as u64,
            LyricEntry::Credit { .. } => 0,
        })
        .collect()
}

#[test]
fn whole_file_in_time_order() {
    let entries = scan_lyric_lines(SAMPLE);
    let ms = seconds_ms(&entries);
    let lines = lyric_lines(entries, &ms).unwrap();
    let sorted = sort_lyrics(lines);
    assert_eq!(
        summary(&sorted),
        vec![
            (0, "QQ音乐动态歌词".to_string()),
            (5000, "first".to_string()),
            (12340, "Hello world".to_string()),
            (62500, "second".to_string())
        ]
    );
}

#[test]
fn credit_takes_the_time_of_the_line_before() {
    let entries = scan_lyric_lines("[00:05.00]A\n[by:QQ]");
    let ms = seconds_ms(&entries);
    let lines = sort_lyrics(lyric_lines(entries, &ms).unwrap());
    assert_eq!(summary(&lines), vec![(5000, "A".to_string()), (5000, "QQ".to_string())]);
    // a credit after two credits and a late line keeps the last line's time
    let entries = scan_lyric_lines("[by:a]\n[01:00.00]x\n[by:b]\n[by:c]");
    let ms = seconds_ms(&entries);
    let lines = lyric_lines(entries, &ms).unwrap();
    assert_eq!(
        summary(&lines),
        vec![
            (0, "a".to_string()),
            (60000, "x".to_string()),
            (60000, "b".to_string()),
            (60000, "c".to_string())
        ]
    );
}

#[test]
fn a_time_past_u64_gives_no_lines() {
    let entries = vec![LyricEntry::Timed { minutes: u64::MAX / 60_000, seconds: String::new(), text: String::new() }];
    assert!(lyric_lines(entries, &vec![u64::MAX]).is_none());
    let entries = vec![LyricEntry::Timed { minutes: 1, seconds: String::new(), text: String::new() }];
    assert_eq!(summary(&lyric_lines(entries, &vec![250]).unwrap()), vec![(60250, String::new())]);
}

/// Lines and trimming agree with `str::lines` and `str::trim`.
#[test]
fn lines_and_trim_agree_with_std() {
    let texts = [
        "", "\n", "a", "a\n", "a\r\n", "a\r", "\r\n\r\n", "a\nb", "a\r\nb\r", "x\n\ny\n", "\r",
    ];
    for t in texts {
        let mut content = String::new();
        let mut expected = Vec::new();
        for l in t.lines() {
            expected.push(format!("[0m:00.00]  {}\u{3000}", l.trim()));
        }
        for (i, l) in t.lines().enumerate() {
            content.push_str(&format!("[0m:00.00]  {}\u{3000}", l));
            if i + 1 < t.lines().count() || t.ends_with('\n') {
                content.push('\n');
            }
        }
        let entries = scan_lyric_lines(&content);
        assert_eq!(entries.len(), t.lines().count());
        for (e, l) in entries.iter().zip(t.lines()) {
            assert_eq!(timed(e).unwrap().2, l.trim().to_string());
        }
        assert_eq!(expected.len(), entries.len());
    }
}

/// The reading of a content with `std`'s string slicing, `u64` parsing and
/// trimming, for contents whose time stamps can be cut.
fn read_with_std(content: &str) -> Vec<(Option<u64>, String, String)> {
    let mut out = Vec::new();
    for line in content.lines() {
        if line.starts_with("[0") && line.len() > 10 {
            let minutes: u64 = line[1..3].parse().unwrap_or(0);
            out.push((Some(minutes), line[4..9].to_string(), line[10..].trim().to_string()));
        } else if line.starts_with("[by:") {
            let text = match line.find("[by:") {
                Some(start) => match line[start + 4..].find(']') {
                    Some(end) => line[start + 4..start + 4 + end].to_string(),
                    None => String::new(),
                },
                None => String::new(),
            };
            out.push((None, String::new(), text));
        }
    }
    out
}

fn read_with_library(content: &str) -> Vec<(Option<u64>, String, String)> {
    scan_lyric_lines(content)
        .iter()
        .map(|e| match e {
            LyricEntry::Timed { minutes, seconds, text } => (Some(*minutes), seconds.clone(), text.clone()),
            LyricEntry::Credit { text } => (None, String::new(), text.clone()),
        })
        .collect()
}

fn cuttable_with_std(content: &str) -> bool {
    content.lines().all(|line| {
        !(line.starts_with("[0") && line.len() > 10)
            || [3, 4, 9, 10].iter().all(|&b| line.is_char_boundary(b))
    })
}

#[test]
fn reading_agrees_with_std_slicing() {
    let contents = [
        SAMPLE,
        "[00:00.29]a\n[by:x]\n[by:y]z]\n[01:00.00]\t b \u{2003}\n",
        "[0:1.2]short\n[00:00.000]longer line\n[0+:00.00]plus\n[00:00.00]é\n",
        "[03:05.99]歌词\r\n[by:作者]\r\n[00:01.00]\u{85}x\u{a0}\n",
        "[0é345678901",
        "[00é45678901",
        "[00:é5678901",
        "[00:01.23é901",
        "[00:01.2é8901",
        "[00:01.234é01",
        "\n\r\n[0",
    ];
    for c in contents {
        assert_eq!(lyrics_cuttable(c), cuttable_with_std(c), "content {:?}", c);
        if cuttable_with_std(c) {
            assert_eq!(read_with_library(c), read_with_std(c), "content {:?}", c);
        }
    }
}
