//! The commands the window sends to the player thread, the channel that
//! carries them, and the window's handlers that send them.

use vstd::prelude::*;
use crate::channel::{clone_sender, command_channel, send_command, CommandReceiver, CommandSender, Sent};

verus! {

/// A song of the play list. `duration` is its length in seconds, an `f32`
/// kept as its bits (`f32::to_bits`).
#[derive(Debug)]
pub struct MusicInfo {
    pub id: i32,
    pub album: String,
    pub artist: String,
    pub duration: u32,
    pub path: String,
    pub title: String,
}

impl Clone for MusicInfo {
    fn clone(&self) -> (r: Self)
        ensures
            r == *self,
    {
        MusicInfo {
            id: self.id,
            album: self.album.clone(),
            artist: self.artist.clone(),
            duration: self.duration,
            path: self.path.clone(),
            title: self.title.clone(),
        }
    }
}

/// What the window asks the player thread to do.
#[derive(Debug)]
pub enum Command {
    /// Let the user pick songs.
    SelectFiles,
    /// Play this song.
    Playback(MusicInfo),
    /// Go on playing the current song.
    Play,
    /// Pause the current song.
    Pause,
    /// Play the song before the current one.
    Prev,
    /// Play the song after the current one.
    Next,
    /// Move to this many seconds into the song (an `f32`, as its bits).
    ChangeProgress(u32),
    /// Whether the list should repeat.
    HopeRepeat(bool),
    /// Whether the list should play shuffled.
    HopeShuffle(bool),
}

/// The window's end of the command channel.
pub struct Dispatch {
    /// The window only has to send the command it wants carried out here.
    pub ui_sender: CommandSender,
}

impl Dispatch {
    /// The channel the window sends on.
    pub open spec fn channel(&self) -> int {
        self.ui_sender.channel()
    }

    /// A new channel: the window's end, and the end the player thread reads,
    /// which receives what the window's end sends.
    pub fn new() -> (r: (Self, CommandReceiver))
        ensures
            r.0.channel() == r.1.channel(),
    {
        let (ui_sender, back_receiver) = command_channel();
        (Self { ui_sender }, back_receiver)
    }

    /// Hands `cmd` to the window's channel; when the player thread is gone,
    /// gives it back. The record is that of this send.
    pub fn send(&self, cmd: Command) -> (r: (Result<(), Command>, Sent))
        ensures
            r.1.command() == cmd,
            r.1.channel() == self.channel(),
            r.1.refused() == (r.0 is Err),
            r.0 matches Err(c) ==> c == cmd,
    {
        let (unsent, sent) = send_command(&self.ui_sender, cmd);
        match unsent {
            None => (Ok(()), sent),
            Some(c) => (Err(c), sent),
        }
    }
}

impl Clone for Dispatch {
    /// Another window end of the same channel.
    fn clone(&self) -> (r: Self)
        ensures
            r.channel() == self.channel(),
    {
        Dispatch { ui_sender: clone_sender(&self.ui_sender) }
    }
}

/// The window asks to play `music_info`. Hands `Playback(music_info)` to the window's channel;
/// gives it back when the player thread is gone.
pub fn playback(dis: &Dispatch, music_info: MusicInfo) -> (r: (Result<(), Command>, Sent))
    ensures
        r.1.command() == Command::Playback(music_info),
        r.1.channel() == dis.channel(),
        r.1.refused() == (r.0 is Err),
        r.0 matches Err(c) ==> c == Command::Playback(music_info),
{
    dis.send(Command::Playback(music_info))
}

/// The window asks to go on playing. Hands `Play` to the window's channel;
/// gives it back when the player thread is gone.
pub fn current_play(dis: &Dispatch) -> (r: (Result<(), Command>, Sent))
    ensures
        r.1.command() == Command::Play,
        r.1.channel() == dis.channel(),
        r.1.refused() == (r.0 is Err),
        r.0 matches Err(c) ==> c == Command::Play,
{
    dis.send(Command::Play)
}

/// The window asks to pause. Hands `Pause` to the window's channel;
/// gives it back when the player thread is gone.
pub fn current_pause(dis: &Dispatch) -> (r: (Result<(), Command>, Sent))
    ensures
        r.1.command() == Command::Pause,
        r.1.channel() == dis.channel(),
        r.1.refused() == (r.0 is Err),
        r.0 matches Err(c) ==> c == Command::Pause,
{
    dis.send(Command::Pause)
}

/// The window asks to move to `val` seconds (an `f32`, as its bits). Hands `ChangeProgress(val)` to the window's channel;
/// gives it back when the player thread is gone.
pub fn change_progress(dis: &Dispatch, val: u32) -> (r: (Result<(), Command>, Sent))
    ensures
        r.1.command() == Command::ChangeProgress(val),
        r.1.channel() == dis.channel(),
        r.1.refused() == (r.0 is Err),
        r.0 matches Err(c) ==> c == Command::ChangeProgress(val),
{
    dis.send(Command::ChangeProgress(val))
}

/// The window asks for the song before the current one. Hands `Prev` to the window's channel;
/// gives it back when the player thread is gone.
pub fn play_prev(dis: &Dispatch) -> (r: (Result<(), Command>, Sent))
    ensures
        r.1.command() == Command::Prev,
        r.1.channel() == dis.channel(),
        r.1.refused() == (r.0 is Err),
        r.0 matches Err(c) ==> c == Command::Prev,
{
    dis.send(Command::Prev)
}

/// The window asks for the song after the current one. Hands `Next` to the window's channel;
/// gives it back when the player thread is gone.
pub fn play_next(dis: &Dispatch) -> (r: (Result<(), Command>, Sent))
    ensures
        r.1.command() == Command::Next,
        r.1.channel() == dis.channel(),
        r.1.refused() == (r.0 is Err),
        r.0 matches Err(c) ==> c == Command::Next,
{
    dis.send(Command::Next)
}

/// The window asks the list to repeat, or not. Hands `HopeRepeat(mode)` to the window's channel;
/// gives it back when the player thread is gone.
pub fn hope_repeat_play(dis: &Dispatch, mode: bool) -> (r: (Result<(), Command>, Sent))
    ensures
        r.1.command() == Command::HopeRepeat(mode),
        r.1.channel() == dis.channel(),
        r.1.refused() == (r.0 is Err),
        r.0 matches Err(c) ==> c == Command::HopeRepeat(mode),
{
    dis.send(Command::HopeRepeat(mode))
}

/// The window asks the list to play shuffled, or not. Hands `HopeShuffle(mode)` to the window's channel;
/// gives it back when the player thread is gone.
pub fn hope_shuffle_play(dis: &Dispatch, mode: bool) -> (r: (Result<(), Command>, Sent))
    ensures
        r.1.command() == Command::HopeShuffle(mode),
        r.1.channel() == dis.channel(),
        r.1.refused() == (r.0 is Err),
        r.0 matches Err(c) ==> c == Command::HopeShuffle(mode),
{
    dis.send(Command::HopeShuffle(mode))
}

/// The window asks to pick songs. Hands `SelectFiles` to the window's channel;
/// gives it back when the player thread is gone.
pub fn select_files(dis: &Dispatch) -> (r: (Result<(), Command>, Sent))
    ensures
        r.1.command() == Command::SelectFiles,
        r.1.channel() == dis.channel(),
        r.1.refused() == (r.0 is Err),
        r.0 matches Err(c) ==> c == Command::SelectFiles,
{
    dis.send(Command::SelectFiles)
}

} // verus!
