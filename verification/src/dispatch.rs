//! The player thread's decisions: what each command makes it do, which song
//! comes before or after the current one, and what the periodic tick does.

use vstd::prelude::*;
use crate::command::{Command, MusicInfo};
use crate::draw::{random_below, Drawn};

verus! {

/// Which way to move in the play list.
#[derive(Debug)]
pub enum PickMode {
    Prev,
    Next,
}

/// The list index for a signed position: the position itself when it lies in
/// the list; a negative one turns into a huge `usize`, so none.
pub open spec fn index_in(i: int, len: nat) -> Option<usize> {
    if 0 <= i < len {
        Some(i as usize)
    } else {
        None
    }
}

/// The song to move to, given the current song's id, whether the list
/// repeats, and, for a shuffled "next", the number drawn: the one before,
/// the drawn one, or the one after, which for a repeating list past its last
/// song is the first song again.
pub open spec fn picked_index(
    mode: PickMode,
    current_id: i32,
    is_repeat: bool,
    draw: Option<i32>,
    len: nat,
) -> Option<usize> {
    match mode {
        PickMode::Prev => index_in(current_id - 1, len),
        PickMode::Next => match draw {
            Some(d) => index_in(d as int, len),
            None => if is_repeat && len > 0 && current_id + 1 >= len {
                Some(0usize)
            } else {
                index_in(current_id + 1, len)
            },
        },
    }
}

/// The list index to move to from the song with id `current_id`, given
/// whether the list repeats and what was drawn for a shuffled "next" (`None`
/// when nothing was drawn).
pub fn index_after(
    mode: PickMode,
    current_id: i32,
    is_repeat: bool,
    draw: Option<i32>,
    len: usize,
) -> (r: Option<usize>)
    requires
        mode is Prev ==> current_id > i32::MIN,
        (mode is Next && draw is None) ==> current_id < i32::MAX,
    ensures
        r == picked_index(mode, current_id, is_repeat, draw, len as nat),
{
    let target: i32 = match mode {
        PickMode::Prev => current_id - 1,
        PickMode::Next => match draw {
            Some(d) => d,
            None => {
                let next = current_id + 1;
                if is_repeat && len > 0 && next >= 0 && (next as usize) >= len {
                    return Some(0);
                }
                next
            },
        },
    };
    if target >= 0 && (target as usize) < len {
        Some(target as usize)
    } else {
        None
    }
}

/// The list index to move to, and the record of the random draw, if one was
/// made. A "next" in a shuffled list (shuffle wins over repeat) draws a song
/// from the whole list; otherwise the neighbour of the song with id
/// `current_id` is taken, going round to the first song in a repeating list.
pub fn pick_music_index(
    mode: PickMode,
    current_id: i32,
    is_shuffle: bool,
    is_repeat: bool,
    len: usize,
) -> (r: (Option<usize>, Option<Drawn>))
    requires
        mode is Prev ==> current_id > i32::MIN,
        (mode is Next && !is_shuffle) ==> current_id < i32::MAX,
        (mode is Next && is_shuffle) ==> 0 < len <= i32::MAX,
    ensures
        (mode is Next && is_shuffle) ==> {
            &&& r.1 matches Some(d)
            &&& d.bound() == len
            &&& 0 <= d.value() < len
            &&& r.0 == Some(d.value() as usize)
        },
        !(mode is Next && is_shuffle) ==> {
            &&& r.1 is None
            &&& r.0 == picked_index(mode, current_id, is_repeat, None, len as nat)
        },
{
    match mode {
        PickMode::Next => if is_shuffle {
            let (d, drawn) = random_below(len as i32);
            (index_after(mode, current_id, is_repeat, Some(d), len), Some(drawn))
        } else {
            (index_after(mode, current_id, is_repeat, None, len), None)
        },
        PickMode::Prev => (index_after(mode, current_id, is_repeat, None, len), None),
    }
}

/// The song to play when moving through `music_list` from `current`, if the
/// list has one at that place, and the record of the random draw, if one was
/// made.
pub fn pick_music_info(
    music_list: &Vec<MusicInfo>,
    current: &MusicInfo,
    is_shuffle: bool,
    is_repeat: bool,
    mode: PickMode,
) -> (r: (Option<MusicInfo>, Option<Drawn>))
    requires
        mode is Prev ==> current.id > i32::MIN,
        (mode is Next && !is_shuffle) ==> current.id < i32::MAX,
        (mode is Next && is_shuffle) ==> 0 < music_list.len() <= i32::MAX,
    ensures
        (mode is Next && is_shuffle) ==> {
            &&& r.1 matches Some(d)
            &&& d.bound() == music_list.len()
            &&& 0 <= d.value() < music_list.len()
            &&& r.0 == Some(music_list@[d.value()])
        },
        !(mode is Next && is_shuffle) ==> {
            &&& r.1 is None
            &&& r.0 == (match picked_index(
                mode,
                current.id,
                is_repeat,
                None,
                music_list.len() as nat,
            ) {
                Some(i) => Some(music_list@[i as int]),
                None => None,
            })
        },
{
    let (index, drawn) = pick_music_index(
        mode,
        current.id,
        is_shuffle,
        is_repeat,
        music_list.len(),
    );
    match index {
        Some(i) => {
            let m = music_list[i].clone();
            assert(music_list@[i as int] == m);
            (Some(m), drawn)
        },
        None => (None, drawn),
    }
}

// ---------------------------------------------------------------------------
// What the player thread does on a command
// ---------------------------------------------------------------------------

/// The player thread's reaction to a command.
#[derive(Debug)]
pub enum Step {
    /// Let the user pick songs, then show the folder and the list.
    LoadLibrary,
    /// Load the song, read its lyrics, play it, and show it as playing.
    StartPlayback(MusicInfo),
    /// Resume the player and show it as playing.
    Resume,
    /// Pause the player and show it as paused.
    Pause,
    /// Nothing to do: a "play" while playing, or a "pause" while paused.
    Ignore,
    /// Seek to this many seconds (an `f32`, as its bits) and show that progress.
    Seek(u32),
    /// Move to another song of the list.
    Pick(PickMode),
    /// Show whether the list repeats.
    SetRepeat(bool),
    /// Show whether the list is shuffled.
    SetShuffle(bool),
}

/// The reaction to `cmd`, given whether the player is playing.
pub open spec fn step_of(cmd: Command, player_playing: bool) -> Step {
    match cmd {
        Command::SelectFiles => Step::LoadLibrary,
        Command::Playback(m) => Step::StartPlayback(m),
        Command::Play => if player_playing {
            Step::Ignore
        } else {
            Step::Resume
        },
        Command::Pause => if player_playing {
            Step::Pause
        } else {
            Step::Ignore
        },
        Command::ChangeProgress(v) => Step::Seek(v),
        Command::Prev => Step::Pick(PickMode::Prev),
        Command::Next => Step::Pick(PickMode::Next),
        Command::HopeRepeat(b) => Step::SetRepeat(b),
        Command::HopeShuffle(b) => Step::SetShuffle(b),
    }
}

/// What the player thread does with a command it receives.
pub fn listen_step(cmd: Command, player_playing: bool) -> (s: Step)
    ensures
        s == step_of(cmd, player_playing),
{
    match cmd {
        Command::SelectFiles => Step::LoadLibrary,
        Command::Playback(m) => Step::StartPlayback(m),
        Command::Play => if player_playing {
            Step::Ignore
        } else {
            Step::Resume
        },
        Command::Pause => if player_playing {
            Step::Pause
        } else {
            Step::Ignore
        },
        Command::ChangeProgress(v) => Step::Seek(v),
        Command::Prev => Step::Pick(PickMode::Prev),
        Command::Next => Step::Pick(PickMode::Next),
        Command::HopeRepeat(b) => Step::SetRepeat(b),
        Command::HopeShuffle(b) => Step::SetShuffle(b),
    }
}

/// Each command's step does what the command asks, and only that command's
/// step does it: the switch shown is the one asked for, the seek goes to the
/// position asked for, and the song started is the one asked for. Whether the
/// player is playing matters only to "play" and "pause".
pub proof fn lemma_steps_do_what_was_asked(
    cmd: Command,
    playing: bool,
    b: bool,
    v: u32,
    m: MusicInfo,
)
    ensures
        (step_of(cmd, playing) == Step::SetRepeat(b)) <==> (cmd == Command::HopeRepeat(b)),
        (step_of(cmd, playing) == Step::SetShuffle(b)) <==> (cmd == Command::HopeShuffle(b)),
        (step_of(cmd, playing) == Step::Seek(v)) <==> (cmd == Command::ChangeProgress(v)),
        (step_of(cmd, playing) == Step::StartPlayback(m)) <==> (cmd == Command::Playback(m)),
        (step_of(cmd, playing) is LoadLibrary) <==> (cmd is SelectFiles),
        (step_of(cmd, playing) == Step::Pick(PickMode::Prev)) <==> (cmd is Prev),
        (step_of(cmd, playing) == Step::Pick(PickMode::Next)) <==> (cmd is Next),
        (step_of(cmd, playing) is Resume) <==> (cmd is Play && !playing),
        (step_of(cmd, playing) is Pause) <==> (cmd is Pause && playing),
        (step_of(cmd, playing) is Ignore) <==> ((cmd is Play && playing) || (cmd is Pause
            && !playing)),
{
}

/// "Previous" from the song with id `id` is the song at index `id - 1` when
/// the list has one there, and nothing otherwise, whether or not the list
/// repeats and whatever was drawn.
pub proof fn lemma_previous_song(id: i32, is_repeat: bool, draw: Option<i32>, len: nat)
    ensures
        picked_index(PickMode::Prev, id, is_repeat, draw, len) == (if 1 <= id && id - 1 < len {
            Some((id - 1) as usize)
        } else {
            None
        }),
{
}

/// "Next" without a draw is the song at index `id + 1` when the list has one
/// there; past the last song it is the first song of a repeating list that
/// is not empty, and nothing otherwise. With a draw it is the song at the
/// drawn index when the list has one there, whatever the repeat switch.
pub proof fn lemma_next_song(id: i32, is_repeat: bool, d: i32, len: nat)
    ensures
        picked_index(PickMode::Next, id, is_repeat, None, len) == (if 0 <= id + 1 < len {
            Some((id + 1) as usize)
        } else if is_repeat && len > 0 && id + 1 >= len {
            Some(0usize)
        } else {
            None
        }),
        picked_index(PickMode::Next, id, is_repeat, Some(d), len) == (if 0 <= d < len {
            Some(d as usize)
        } else {
            None
        }),
{
}

// ---------------------------------------------------------------------------
// The periodic tick of the window
// ---------------------------------------------------------------------------

/// What one tick of the window's timer does.
pub struct Tick {
    /// Show the position of the song and the lyric line at it.
    pub show_progress: bool,
    /// Ask for the next song.
    pub play_next: bool,
}

/// A tick does nothing while a loaded song is paused; while a song plays it
/// shows the progress; once nothing is left to play, a repeating or
/// shuffled list moves on to the next song.
pub fn timer_tick(player_empty: bool, player_playing: bool, is_shuffle: bool, is_repeat: bool) -> (t:
    Tick)
    ensures
        (!player_empty && !player_playing) ==> (!t.show_progress && !t.play_next),
        (player_empty || player_playing) ==> (t.show_progress == player_playing && t.play_next == (
        player_empty && (is_shuffle || is_repeat))),
{
    if !player_empty && !player_playing {
        return Tick { show_progress: false, play_next: false };
    }
    Tick { show_progress: player_playing, play_next: player_empty && (is_shuffle || is_repeat) }
}

} // verus!
