use music_player::path::{is_audio_file, replace_ext_to_lrc};
use std::path::Path;

const PATHS: &[&str] = &[
    "", "/", ".", "..", "./", "a", "a.mp3", "/music/song.MP3", "dir.mp3/", "a/b.mp3/.", "a/b.mp3//",
    "a/..", "a/.", ".mp3", "..mp3", "a..", "a.", "a/.hidden", "a/.hidden.flac", "b.tar.gz",
    "x/y/z.Ogg", "x/y/z.m4A", "x.wav.lrc", "歌曲/歌.opus", "a/b.AIFF", "a/b.alac", "a/b.wma",
    "a/b.aac", "a/b.mp4", "a/b.mp33", "/.", "//a//b.c//", "a/./b.flac", "./a.mp3", "..mp3",
    "a/..mp3", "x/...", "x/a.b/", "x/a.bcd/.", "x/.a.b", ".a.", "a.b.",
];

/// Paths whose lyric path is built on the stem `.`.
const DOT_STEM: &[&str] = &["..mp3/"];

/// What `std::path` says: the extension, lowered, is in the list.
fn audio_by_std(p: &str) -> bool {
    const LIST: [&str; 10] = ["mp3", "wav", "flac", "ogg", "m4a", "aac", "wma", "opus", "aiff", "alac"];
    match Path::new(p).extension().and_then(|e| e.to_str()) {
        Some(e) => LIST.contains(&e.to_lowercase().as_str()),
        None => false,
    }
}

#[test]
fn audio_files_agree_with_std_path() {
    for p in PATHS {
        assert_eq!(is_audio_file(p), audio_by_std(p), "path {:?}", p);
    }
}

#[test]
fn audio_file_examples() {
    assert!(is_audio_file("/music/a.MP3"));
    assert!(is_audio_file("a.flac"));
    assert!(!is_audio_file("a.lrc"));
    assert!(!is_audio_file(".mp3"));
    assert!(!is_audio_file("noext"));
    // the Kelvin sign lowers to 'k' only; no listed extension has it
    assert!(!is_audio_file("a.\u{212A}"));
}

#[test]
fn lyric_path_agrees_with_std_path() {
    for p in PATHS {
        let expected = Path::new(p).with_extension("lrc").to_string_lossy().to_string();
        assert_eq!(replace_ext_to_lrc(p), expected, "path {:?}", p);
    }
}

#[test]
fn lyric_path_examples() {
    assert_eq!(replace_ext_to_lrc("/music/song.mp3"), "/music/song.lrc");
    assert_eq!(replace_ext_to_lrc("song"), "song.lrc");
    assert_eq!(replace_ext_to_lrc("a/b.tar.gz"), "a/b.tar.lrc");
    assert_eq!(replace_ext_to_lrc("a/b.mp3/"), "a/b.lrc");
    assert_eq!(replace_ext_to_lrc("a/.."), "a/..");
    assert_eq!(replace_ext_to_lrc("..mp3"), "..");
}

#[test]
fn lyric_path_of_a_dot_stem_is_not_stable() {
    for p in DOT_STEM {
        let expected = Path::new(p).with_extension("lrc").to_string_lossy().to_string();
        assert_eq!(replace_ext_to_lrc(p), expected);
    }
    assert_eq!(replace_ext_to_lrc("..mp3/"), "..lrc");
    assert_eq!(replace_ext_to_lrc("..lrc"), "..");
}

#[test]
fn lyric_path_is_stable_and_never_audio() {
    for p in PATHS {
        if DOT_STEM.contains(p) {
            continue;
        }
        let once = replace_ext_to_lrc(p);
        assert_eq!(replace_ext_to_lrc(&once), once);
        assert!(!is_audio_file(&once));
    }
}

#[test]
fn lyric_path_keeps_folders_and_stem_after_trailing_separators() {
    assert_eq!(replace_ext_to_lrc("a/b/."), "a/b.lrc");
    assert_eq!(replace_ext_to_lrc("a/b.mp3/."), "a/b.lrc");
    assert_eq!(replace_ext_to_lrc("a/b.x//./"), "a/b.lrc");
    assert_eq!(replace_ext_to_lrc("/m/x.y.flac//"), "/m/x.y.lrc");
    assert_eq!(replace_ext_to_lrc("..mp3//"), "..lrc");
    for p in ["a/b/.", "a/b.mp3/.", "a/b.x//./", "/m/x.y.flac//", "..mp3//"] {
        let expected = Path::new(p).with_extension("lrc").to_string_lossy().to_string();
        assert_eq!(replace_ext_to_lrc(p), expected, "path {:?}", p);
    }
}
