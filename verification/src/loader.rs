//! Loading songs: what the user chose in the dialog, and the play list built
//! from the metadata of the chosen files.

use vstd::prelude::*;
use crate::command::MusicInfo;
use crate::path::{is_audio_file, is_audio_path};
use crate::text::chars_of;

verus! {

/// The indices `i < n` of the paths in `paths` that name audio files, in
/// increasing order.
pub open spec fn audio_indices(paths: Seq<Seq<char>>, n: int) -> Seq<usize>
    decreases n,
{
    if n <= 0 {
        Seq::empty()
    } else if is_audio_path(paths[n - 1]) {
        audio_indices(paths, n - 1).push((n - 1) as usize)
    } else {
        audio_indices(paths, n - 1)
    }
}

/// Of the first `n` paths, the kept indices are below `n` and increasing,
/// an index `i < n` is kept exactly when path `i` names an audio file, and
/// there are as many as there are audio paths among them.
pub proof fn lemma_audio_indices(paths: Seq<Seq<char>>, n: int)
    requires
        0 <= n <= paths.len() <= usize::MAX,
    ensures
        forall|k: int|
            0 <= k < audio_indices(paths, n).len() ==> #[trigger] audio_indices(paths, n)[k] < n,
        forall|j: int, k: int|
            0 <= j < k < audio_indices(paths, n).len() ==> audio_indices(paths, n)[j]
                < audio_indices(paths, n)[k],
        forall|i: int|
            0 <= i < n ==> (audio_indices(paths, n).contains(i as usize) <==> is_audio_path(
                #[trigger] paths[i],
            )),
        audio_indices(paths, n).len() == paths.take(n).filter(|p: Seq<char>| is_audio_path(p)).len(),
    decreases n,
{
    reveal(Seq::filter);
    if n > 0 {
        lemma_audio_indices(paths, n - 1);
        let prev = audio_indices(paths, n - 1);
        let r = audio_indices(paths, n);
        assert(paths.take(n).drop_last() =~= paths.take(n - 1));
        assert forall|i: int| 0 <= i < n implies (r.contains(i as usize) <==> is_audio_path(
            #[trigger] paths[i],
        )) by {
            if is_audio_path(paths[n - 1]) {
                assert(r == prev.push((n - 1) as usize));
                if i == n - 1 {
                    assert(r[prev.len() as int] == i as usize);
                } else {
                    if r.contains(i as usize) {
                        let k = choose|k: int| 0 <= k < r.len() && r[k] == i as usize;
                        if k < prev.len() {
                            assert(prev[k] == i as usize);
                        }
                    }
                    if prev.contains(i as usize) {
                        let k = choose|k: int| 0 <= k < prev.len() && prev[k] == i as usize;
                        assert(r[k] == i as usize);
                    }
                }
            } else {
                if i == n - 1 {
                    if r.contains(i as usize) {
                        let k = choose|k: int| 0 <= k < r.len() && r[k] == i as usize;
                        assert(r[k] < n - 1);
                    }
                }
            }
        }
    }
}

/// Which of the chosen paths to keep: the indices of those that name audio
/// files, in the order they were chosen.
pub fn audio_file_indices(paths: &Vec<String>) -> (r: Vec<usize>)
    ensures
        r@ == audio_indices(paths@.map_values(|p: String| p@), paths.len() as int),
{
    let ghost views = paths@.map_values(|p: String| p@);
    let mut r: Vec<usize> = Vec::new();
    let mut i: usize = 0;
    while i < paths.len()
        invariant
            i <= paths.len(),
            views == paths@.map_values(|p: String| p@),
            r@ == audio_indices(views, i as int),
        decreases paths.len() - i,
    {
        assert(views[i as int] == paths@[i as int]@);
        if is_audio_file(paths[i].as_str()) {
            r.push(i);
        }
        i += 1;
    }
    r
}

/// Metadata read from an audio file. `duration` is its length in seconds, an
/// `f32` kept as its bits.
pub struct AudioMetadata {
    /// The path, kept to find the lyric file next to the song.
    pub path: String,
    pub duration: u32,
    pub title: Option<String>,
    pub artist: Option<String>,
    pub album: Option<String>,
}

/// The text of an optional tag, empty when the tag is missing.
pub open spec fn tag_text(t: Option<String>) -> Seq<char> {
    match t {
        Some(s) => s@,
        None => Seq::empty(),
    }
}

/// Entry `i` of the play list built from `m`.
pub open spec fn music_info_of(m: AudioMetadata, i: int, info: MusicInfo) -> bool {
    &&& info.id == i
    &&& info.album@ == tag_text(m.album)
    &&& info.artist@ == tag_text(m.artist)
    &&& info.duration == m.duration
    &&& info.path@ == m.path@
    &&& info.title@ == tag_text(m.title)
}

fn tag_or_empty(t: Option<String>) -> (s: String)
    ensures
        s@ == tag_text(t),
{
    match t {
        Some(s) => s,
        None => String::new(),
    }
}

/// The play list of the songs with these metadata, numbered from 0 in order.
pub fn music_info_list(metadata_list: Vec<AudioMetadata>) -> (r: Vec<MusicInfo>)
    requires
        metadata_list.len() <= i32::MAX + 1,
    ensures
        r.len() == metadata_list.len(),
        forall|i: int|
            0 <= i < r.len() ==> music_info_of(metadata_list@[i], i, #[trigger] r@[i]),
{
    let ghost all = metadata_list@;
    let mut r: Vec<MusicInfo> = Vec::new();
    for m in it: metadata_list.into_iter()
        invariant
            all.len() <= i32::MAX + 1,
            it.seq() == all,
            r.len() == it.index(),
            forall|i: int| 0 <= i < r.len() ==> music_info_of(all[i], i, #[trigger] r@[i]),
    {
        let idx = r.len();
        assert(m == all[idx as int]);
        let info = MusicInfo {
            id: idx as i32,
            album: tag_or_empty(m.album),
            artist: tag_or_empty(m.artist),
            duration: m.duration,
            path: m.path,
            title: tag_or_empty(m.title),
        };
        r.push(info);
    }
    r
}

// ---------------------------------------------------------------------------
// What the user chose
// ---------------------------------------------------------------------------

/// What to pick: a folder or files (the dialog cannot tell them apart).
#[derive(Debug)]
pub enum SelectionType {
    /// A folder.
    Folder,
    /// Single files.
    Files,
}

/// The answer of the question dialog.
#[derive(Debug)]
pub enum DialogChoice {
    Yes,
    No,
    /// The plain confirming button ("Ok").
    Confirm,
    Cancel,
    /// One of the two custom buttons, by its label.
    Custom(String),
}

/// The label of the button for picking files: 选择文件.
pub open spec fn files_label() -> Seq<char> {
    seq!['选', '择', '文', '件']
}

/// The label of the button for picking a folder: 选择文件夹.
pub open spec fn folder_label() -> Seq<char> {
    seq!['选', '择', '文', '件', '夹']
}

fn string_from(w: &[char]) -> (s: String)
    ensures
        s@ == w@,
{
    let mut s = String::new();
    let mut i: usize = 0;
    while i < w.len()
        invariant
            i <= w@.len(),
            s@ == w@.take(i as int),
        decreases w.len() - i,
    {
        s.push(w[i]);
        i += 1;
        assert(s@ =~= w@.take(i as int));
    }
    assert(w@.take(w@.len() as int) =~= w@);
    s
}

/// The label of the button for picking files.
pub fn files_button_label() -> (s: String)
    ensures
        s@ == files_label(),
{
    let w: [char; 4] = ['选', '择', '文', '件'];
    assert(w@ =~= files_label());
    string_from(&w)
}

/// The label of the button for picking a folder.
pub fn folder_button_label() -> (s: String)
    ensures
        s@ == folder_label(),
{
    let w: [char; 5] = ['选', '择', '文', '件', '夹'];
    assert(w@ =~= folder_label());
    string_from(&w)
}

fn chars_equal(v: &Vec<char>, w: &[char]) -> (r: bool)
    ensures
        r == (v@ == w@),
{
    if v.len() != w.len() {
        return false;
    }
    let mut i: usize = 0;
    while i < v.len()
        invariant
            v@.len() == w@.len(),
            i <= v@.len(),
            forall|m: int| 0 <= m < i ==> v@[m] == w@[m],
        decreases v.len() - i,
    {
        if v[i] != w[i] {
            return false;
        }
        i += 1;
    }
    assert(v@ =~= w@);
    true
}

/// What to pick after the question dialog: files or a folder for the two
/// custom buttons, nothing for any other answer.
pub fn selection_type_of(choice: DialogChoice) -> (r: Option<SelectionType>)
    ensures
        r == (match choice {
            DialogChoice::Custom(label) => if label@ == files_label() {
                Some(SelectionType::Files)
            } else if label@ == folder_label() {
                Some(SelectionType::Folder)
            } else {
                None
            },
            _ => None,
        }),
{
    match choice {
        DialogChoice::Custom(label) => {
            let v = chars_of(label.as_str());
            let files: [char; 4] = ['选', '择', '文', '件'];
            let folder: [char; 5] = ['选', '择', '文', '件', '夹'];
            assert(files@ =~= files_label());
            assert(folder@ =~= folder_label());
            if chars_equal(&v, &files) {
                Some(SelectionType::Files)
            } else if chars_equal(&v, &folder) {
                Some(SelectionType::Folder)
            } else {
                None
            }
        },
        _ => None,
    }
}

/// A tag that is there is shown as written, a missing one as empty text;
/// and the two buttons of the dialog carry different labels, so the answer
/// tells files from a folder.
pub proof fn lemma_tags_and_labels(t: String)
    ensures
        tag_text(Some(t)) == t@,
        tag_text(None) == Seq::<char>::empty(),
        files_label() != folder_label(),
{
    assert(files_label().len() != folder_label().len());
}

} // verus!
