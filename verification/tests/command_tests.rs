use music_player::command::{
    change_progress, current_pause, current_play, hope_repeat_play, hope_shuffle_play, play_next,
    play_prev, playback, select_files, Command, Dispatch, MusicInfo,
};

fn song(id: i32, path: &str) -> MusicInfo {
    MusicInfo {
        id,
        album: "Album".to_string(),
        artist: "Artist".to_string(),
        duration: 3.5f32.to_bits(),
        path: path.to_string(),
        title: "Title".to_string(),
    }
}

fn describe(c: &Command) -> String {
    match c {
        Command::SelectFiles => "select".to_string(),
        Command::Playback(m) => format!("playback {} {}", m.id, m.path),
        Command::Play => "play".to_string(),
        Command::Pause => "pause".to_string(),
        Command::Prev => "prev".to_string(),
        Command::Next => "next".to_string(),
        Command::ChangeProgress(v) => format!("progress {}", f32::from_bits(*v)),
        Command::HopeRepeat(b) => format!("repeat {}", b),
        Command::HopeShuffle(b) => format!("shuffle {}", b),
    }
}

#[test]
fn handlers_send_their_commands_in_order() {
    let (d, rx) = Dispatch::new();
    assert!(select_files(&d).0.is_ok());
    assert!(playback(&d, song(3, "/m/a.mp3")).0.is_ok());
    assert!(current_play(&d).0.is_ok());
    assert!(current_pause(&d).0.is_ok());
    assert!(change_progress(&d, 12.5f32.to_bits()).0.is_ok());
    assert!(play_prev(&d).0.is_ok());
    assert!(play_next(&d).0.is_ok());
    assert!(hope_repeat_play(&d, true).0.is_ok());
    assert!(hope_shuffle_play(&d, false).0.is_ok());
    // once the window's end is gone, the player thread's end reports the end
    drop(d);
    let mut got: Vec<String> = Vec::new();
    while let Some(c) = rx.recv() {
        got.push(describe(&c));
    }
    assert_eq!(
        got,
        vec![
            "select",
            "playback 3 /m/a.mp3",
            "play",
            "pause",
            "progress 12.5",
            "prev",
            "next",
            "repeat true",
            "shuffle false"
        ]
    );
}

#[test]
fn a_command_comes_back_when_the_player_thread_is_gone() {
    let (d, rx) = Dispatch::new();
    drop(rx);
    match playback(&d, song(7, "x.flac")).0 {
        Err(c) => assert_eq!(describe(&c), "playback 7 x.flac"),
        Ok(()) => panic!("sent without a receiver"),
    }
    match hope_repeat_play(&d, false).0 {
        Err(c) => assert_eq!(describe(&c), "repeat false"),
        Ok(()) => panic!("sent without a receiver"),
    }
}

#[test]
fn music_info_clone_keeps_every_field() {
    let a = song(4, "p.ogg");
    let b = a.clone();
    assert_eq!((b.id, b.album, b.artist, b.duration, b.path, b.title),
        (4, "Album".to_string(), "Artist".to_string(), 3.5f32.to_bits(), "p.ogg".to_string(), "Title".to_string()));
}

#[test]
fn a_clone_of_the_window_end_sends_on_the_same_channel() {
    let (d, rx) = Dispatch::new();
    let e = d.clone();
    assert!(play_next(&e).0.is_ok());
    assert!(play_prev(&d).0.is_ok());
    drop(d);
    drop(e);
    let mut got: Vec<String> = Vec::new();
    while let Some(c) = rx.recv() {
        got.push(describe(&c));
    }
    assert_eq!(got, vec!["next", "prev"]);
}
