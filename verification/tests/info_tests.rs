use music_player::player::needs_reload;
use music_player::info::{
    pressed_next, pressed_pause, pressed_play, pressed_prev, pressed_repeat_list,
    pressed_shuffle_list, InfoState,
};

#[test]
fn play_and_pause_buttons() {
    let mut s = InfoState { is_playing: false, repeat_list: true, shuffle_list: false };
    assert!(pressed_play(&mut s));
    assert!(s.is_playing);
    assert!(!pressed_play(&mut s));
    assert!(s.is_playing);
    assert!(pressed_pause(&mut s));
    assert!(!s.is_playing);
    assert!(!pressed_pause(&mut s));
    assert!(s.repeat_list && !s.shuffle_list);
}

#[test]
fn switches_flip_and_flip_back() {
    let mut s = InfoState { is_playing: true, repeat_list: false, shuffle_list: true };
    pressed_repeat_list(&mut s);
    assert!(s.repeat_list && s.shuffle_list && s.is_playing);
    pressed_repeat_list(&mut s);
    assert!(!s.repeat_list);
    pressed_shuffle_list(&mut s);
    assert!(!s.shuffle_list);
    pressed_shuffle_list(&mut s);
    assert!(s.shuffle_list && s.is_playing);
}

#[test]
fn next_and_previous_rows() {
    assert_eq!(pressed_next(0, 3), Some(1));
    assert_eq!(pressed_next(2, 3), None);
    assert_eq!(pressed_next(-5, 3), None);
    assert_eq!(pressed_prev(1, 3), Some(0));
    assert_eq!(pressed_prev(0, 3), None);
    assert_eq!(pressed_prev(5, 3), None);
}

#[test]
fn reload_only_when_not_already_playing_that_file() {
    assert!(!needs_reload("/m/a.mp3", "/m/a.mp3", true));
    assert!(needs_reload("/m/a.mp3", "/m/a.mp3", false));
    assert!(needs_reload("/m/a.mp3", "/m/b.mp3", true));
    assert!(needs_reload("", "/m/a.mp3", true));
}
