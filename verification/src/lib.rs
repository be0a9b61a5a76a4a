//! Core logic of a local music player: lyric files, audio paths, the
//! command protocol between the window and the playback thread, and the
//! decisions the player takes on each command.

pub mod text;
pub mod lyric;
pub mod path;
pub mod channel;
pub mod command;
pub mod draw;
pub mod dispatch;
pub mod info;
pub mod loader;
pub mod album;
pub mod player;
