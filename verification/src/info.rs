//! The buttons of the song panel: play, pause, previous, next, and the
//! repeat and shuffle switches.

use vstd::prelude::*;

verus! {

/// What the song panel shows.
#[derive(Debug)]
pub struct InfoState {
    pub is_playing: bool,
    pub repeat_list: bool,
    pub shuffle_list: bool,
}

/// The panel after the play button: playing; the player is started only
/// when it was not playing already.
pub fn pressed_play(state: &mut InfoState) -> (start_player: bool)
    ensures
        start_player == !old(state).is_playing,
        final(state).is_playing,
        final(state).repeat_list == old(state).repeat_list,
        final(state).shuffle_list == old(state).shuffle_list,
{
    if state.is_playing {
        return false;
    }
    state.is_playing = true;
    true
}

/// The panel after the pause button: paused; the player is paused only when
/// it was playing.
pub fn pressed_pause(state: &mut InfoState) -> (pause_player: bool)
    ensures
        pause_player == old(state).is_playing,
        !final(state).is_playing,
        final(state).repeat_list == old(state).repeat_list,
        final(state).shuffle_list == old(state).shuffle_list,
{
    if !state.is_playing {
        return false;
    }
    state.is_playing = false;
    true
}

/// The row of the list to play after the song in row `idx`, if the list has it.
pub fn pressed_next(idx: i32, list_len: usize) -> (r: Option<usize>)
    requires
        idx < i32::MAX,
    ensures
        r == (if 0 <= idx + 1 < list_len {
            Some((idx + 1) as usize)
        } else {
            None::<usize>
        }),
{
    let next = idx + 1;
    if next >= 0 && (next as usize) < list_len {
        Some(next as usize)
    } else {
        None
    }
}

/// The row of the list to play before the song in row `idx`, if the list has it.
pub fn pressed_prev(idx: i32, list_len: usize) -> (r: Option<usize>)
    requires
        idx > i32::MIN,
    ensures
        r == (if 0 <= idx - 1 < list_len {
            Some((idx - 1) as usize)
        } else {
            None::<usize>
        }),
{
    let prev = idx - 1;
    if prev >= 0 && (prev as usize) < list_len {
        Some(prev as usize)
    } else {
        None
    }
}

/// The panel with the repeat switch flipped.
pub open spec fn repeat_toggled(s: InfoState) -> InfoState {
    InfoState { repeat_list: !s.repeat_list, ..s }
}

/// The panel with the shuffle switch flipped.
pub open spec fn shuffle_toggled(s: InfoState) -> InfoState {
    InfoState { shuffle_list: !s.shuffle_list, ..s }
}

/// The repeat button flips the repeat switch.
pub fn pressed_repeat_list(state: &mut InfoState)
    ensures
        *final(state) == repeat_toggled(*old(state)),
{
    state.repeat_list = !state.repeat_list;
}

/// The shuffle button flips the shuffle switch.
pub fn pressed_shuffle_list(state: &mut InfoState)
    ensures
        *final(state) == shuffle_toggled(*old(state)),
{
    state.shuffle_list = !state.shuffle_list;
}

/// Pressing the repeat button twice leaves the panel as it was.
pub proof fn lemma_repeat_twice(s: InfoState)
    ensures
        repeat_toggled(repeat_toggled(s)) == s,
{
}

/// Pressing the shuffle button twice leaves the panel as it was.
pub proof fn lemma_shuffle_twice(s: InfoState)
    ensures
        shuffle_toggled(shuffle_toggled(s)) == s,
{
}

/// The repeat button turns the repeat switch to the other position and
/// changes nothing else; so does the shuffle button for its switch.
pub proof fn lemma_buttons_flip_their_switch(s: InfoState)
    ensures
        repeat_toggled(s).repeat_list != s.repeat_list,
        repeat_toggled(s).shuffle_list == s.shuffle_list,
        repeat_toggled(s).is_playing == s.is_playing,
        shuffle_toggled(s).shuffle_list != s.shuffle_list,
        shuffle_toggled(s).repeat_list == s.repeat_list,
        shuffle_toggled(s).is_playing == s.is_playing,
{
}

} // verus!
