use music_player::command::{Command, MusicInfo};
use music_player::dispatch::{
    index_after, listen_step, pick_music_index, pick_music_info, timer_tick, PickMode, Step,
};

fn song(id: i32) -> MusicInfo {
    MusicInfo {
        id,
        album: String::new(),
        artist: String::new(),
        duration: 0,
        path: format!("/m/{}.mp3", id),
        title: String::new(),
    }
}

#[test]
fn neighbours_in_the_list() {
    assert_eq!(pick_music_index(PickMode::Prev, 2, false, false, 5).0, Some(1));
    assert_eq!(pick_music_index(PickMode::Prev, 0, false, false, 5).0, None);
    assert_eq!(pick_music_index(PickMode::Next, 2, false, false, 5).0, Some(3));
    assert_eq!(pick_music_index(PickMode::Next, 4, false, false, 5).0, None);
    // shuffle only changes "next"
    assert_eq!(pick_music_index(PickMode::Prev, 3, true, false, 5).0, Some(2));
}

#[test]
fn repeating_list_starts_again_after_its_last_song() {
    assert_eq!(pick_music_index(PickMode::Next, 4, false, true, 5).0, Some(0));
    assert_eq!(pick_music_index(PickMode::Next, 2, false, true, 5).0, Some(3));
    // "previous" from the first song does not go round
    assert_eq!(pick_music_index(PickMode::Prev, 0, false, true, 5).0, None);
    // an empty list has nothing to repeat
    assert_eq!(pick_music_index(PickMode::Next, 0, false, true, 0).0, None);
}

#[test]
fn shuffled_next_stays_in_the_list() {
    for _ in 0..200 {
        let i = pick_music_index(PickMode::Next, 1_000, true, false, 7).0.unwrap();
        assert!(i < 7);
    }
    assert_eq!(pick_music_index(PickMode::Next, 5, true, true, 1).0, Some(0));
}

#[test]
fn index_after_uses_the_draw() {
    assert_eq!(index_after(PickMode::Next, 0, false, Some(4), 5), Some(4));
    assert_eq!(index_after(PickMode::Next, 0, false, Some(5), 5), None);
    assert_eq!(index_after(PickMode::Next, 0, false, None, 5), Some(1));
    assert_eq!(index_after(PickMode::Next, 4, true, None, 5), Some(0));
    assert_eq!(index_after(PickMode::Next, 4, false, None, 5), None);
    assert_eq!(index_after(PickMode::Prev, -3, false, None, 5), None);
}

#[test]
fn pick_music_info_returns_the_song() {
    let list = vec![song(0), song(1), song(2)];
    let m = pick_music_info(&list, &song(1), false, false, PickMode::Next).0.unwrap();
    assert_eq!(m.path, "/m/2.mp3");
    let m = pick_music_info(&list, &song(1), false, false, PickMode::Prev).0.unwrap();
    assert_eq!(m.path, "/m/0.mp3");
    assert!(pick_music_info(&list, &song(2), false, false, PickMode::Next).0.is_none());
    let m = pick_music_info(&list, &song(2), false, true, PickMode::Next).0.unwrap();
    assert_eq!(m.path, "/m/0.mp3");
    let m = pick_music_info(&list, &song(2), true, false, PickMode::Next).0.unwrap();
    assert!(list.iter().any(|s| s.path == m.path));
}

fn name(s: &Step) -> String {
    match s {
        Step::LoadLibrary => "load".to_string(),
        Step::StartPlayback(m) => format!("start {}", m.id),
        Step::Resume => "resume".to_string(),
        Step::Pause => "pause".to_string(),
        Step::Ignore => "ignore".to_string(),
        Step::Seek(v) => format!("seek {}", f32::from_bits(*v)),
        Step::Pick(PickMode::Prev) => "prev".to_string(),
        Step::Pick(PickMode::Next) => "next".to_string(),
        Step::SetRepeat(b) => format!("repeat {}", b),
        Step::SetShuffle(b) => format!("shuffle {}", b),
    }
}

#[test]
fn steps_of_the_player_thread() {
    assert_eq!(name(&listen_step(Command::SelectFiles, false)), "load");
    assert_eq!(name(&listen_step(Command::Playback(song(9)), true)), "start 9");
    assert_eq!(name(&listen_step(Command::Play, true)), "ignore");
    assert_eq!(name(&listen_step(Command::Play, false)), "resume");
    assert_eq!(name(&listen_step(Command::Pause, true)), "pause");
    assert_eq!(name(&listen_step(Command::Pause, false)), "ignore");
    assert_eq!(name(&listen_step(Command::ChangeProgress(2.0f32.to_bits()), false)), "seek 2");
    assert_eq!(name(&listen_step(Command::Prev, false)), "prev");
    assert_eq!(name(&listen_step(Command::Next, false)), "next");
    assert_eq!(name(&listen_step(Command::HopeRepeat(true), false)), "repeat true");
    assert_eq!(name(&listen_step(Command::HopeShuffle(false), false)), "shuffle false");
}

#[test]
fn ticks_of_the_timer() {
    // paused with a song loaded: nothing
    let t = timer_tick(false, false, true, true);
    assert!(!t.show_progress && !t.play_next);
    // playing: progress only
    let t = timer_tick(false, true, true, true);
    assert!(t.show_progress && !t.play_next);
    // nothing left, repeating list: next song
    let t = timer_tick(true, false, false, true);
    assert!(!t.show_progress && t.play_next);
    // nothing left, plain list: stop there
    let t = timer_tick(true, false, false, false);
    assert!(!t.show_progress && !t.play_next);
}
