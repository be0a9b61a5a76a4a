# music_player

A local music player: a Slint window, a player thread that plays songs with
rodio, album covers, and time-stamped lyrics (`.lrc` files) shown in step
with the song.

The crate is written in Verus. `src/` is the verified library:

- `text` — characters of strings, UTF-8 byte offsets, `trim` and line
  splitting as `str` does them, reading unsigned numbers.
- `lyric` — what each line of a lyric file contributes (time-stamped lines,
  `[by:…]` credits), and the lyrics in time order.
- `path` — file names and extensions of `/`-separated paths, which files are
  audio files, and the lyric file of a song (`with_extension("lrc")`).
- `loader` — the answer of the "files or folder" dialog, which of the chosen
  paths are audio files, and the play list built from the songs' metadata.
- `album` — which embedded picture is the cover, decoded with `image`.
- `channel` — the two ends of the command channel, which carry the ghost
  identity of their channel, and the record of each send.
- `command` — the commands the window sends to the player thread, and the
  window's handlers that send them.
- `draw` — the random draw of a shuffled "next", and its record.
- `dispatch` — what the player thread does on each command, which song comes
  before or after the current one (at random for a shuffled "next", back to
  the first after the last in a repeating list), and what
  the window's timer does on each tick.
- `info` — the buttons of the song panel.

`app/` is the program around it: the window, the dialogs, the audio output,
reading files and tags, and the floating-point parts (seconds of a time
stamp, seeking, the lyric line at the current position). `tests/` runs the
library, among other things against `std::path` and `str` on the same inputs.
