//! Decisions of the earlier player that keeps the file it plays.

use vstd::prelude::*;
use crate::text::chars_of;

verus! {

/// Whether asking to play `file_path` loads it anew: not when that very file
/// is the current one and is playing.
pub fn needs_reload(current_file: &str, file_path: &str, is_playing: bool) -> (r: bool)
    ensures
        r == !(current_file@ == file_path@ && is_playing),
{
    if !is_playing {
        return true;
    }
    let a = chars_of(current_file);
    let b = chars_of(file_path);
    if a.len() != b.len() {
        return true;
    }
    let mut i: usize = 0;
    while i < a.len()
        invariant
            a@ == current_file@,
            b@ == file_path@,
            a@.len() == b@.len(),
            i <= a@.len(),
            forall|m: int| 0 <= m < i ==> a@[m] == b@[m],
        decreases a.len() - i,
    {
        if a[i] != b[i] {
            return true;
        }
        i += 1;
    }
    assert(a@ =~= b@);
    false
}

} // verus!
