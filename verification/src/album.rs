//! The album cover of a song: which embedded picture is the cover, and its
//! pixels decoded as RGBA.

use vstd::prelude::*;

verus! {

/// What an embedded picture shows, as far as the cover is concerned.
#[derive(Debug)]
pub enum PictureKind {
    /// The front of the album.
    CoverFront,
    /// The back of the album.
    CoverBack,
    /// Anything else.
    Other,
}

/// The picture can serve as the cover.
pub open spec fn is_cover(k: PictureKind) -> bool {
    k is CoverFront || k is CoverBack
}

/// The index of the first cover among `kinds` at or after `i`.
pub open spec fn first_cover_from(kinds: Seq<PictureKind>, i: int) -> Option<int>
    decreases kinds.len() - i,
{
    if i < 0 || i >= kinds.len() {
        None
    } else if is_cover(kinds[i]) {
        Some(i)
    } else {
        first_cover_from(kinds, i + 1)
    }
}

/// The index of the first picture that shows the front or the back of the album.
pub open spec fn first_cover(kinds: Seq<PictureKind>) -> Option<int> {
    first_cover_from(kinds, 0)
}

proof fn lemma_first_cover_from(kinds: Seq<PictureKind>, i: int)
    requires
        0 <= i,
    ensures
        first_cover_from(kinds, i) matches Some(j) ==> i <= j < kinds.len() && (kinds[j] is CoverFront
            || kinds[j] is CoverBack) && forall|k: int| i <= k < j ==> kinds[k] is Other,
        first_cover_from(kinds, i) is None ==> forall|k: int|
            i <= k < kinds.len() ==> kinds[k] is Other,
    decreases kinds.len() - i,
{
    if i < kinds.len() && !is_cover(kinds[i]) {
        lemma_first_cover_from(kinds, i + 1);
    }
}

/// The cover is the first picture that shows the front or the back of the
/// album: every picture before it shows something else, and when there is
/// none, every picture shows something else.
pub proof fn lemma_first_cover(kinds: Seq<PictureKind>)
    ensures
        first_cover(kinds) matches Some(j) ==> 0 <= j < kinds.len() && (kinds[j] is CoverFront
            || kinds[j] is CoverBack) && forall|k: int| 0 <= k < j ==> kinds[k] is Other,
        first_cover(kinds) is None ==> forall|k: int| 0 <= k < kinds.len() ==> kinds[k] is Other,
{
    lemma_first_cover_from(kinds, 0);
}

/// What `image::load_from_memory` followed by `into_rgba8` makes of `data`:
/// the pixels as RGBA bytes, the width and the height; `None` when the
/// bytes do not decode as an image of a supported format.
pub uninterp spec fn decoded_rgba(data: Seq<u8>) -> Option<(Seq<u8>, u32, u32)>;

/// `image::load_from_memory`, then `DynamicImage::into_rgba8`, `dimensions`
/// and `into_vec`. The result is `decoded_rgba(data)`: a function of the
/// bytes alone, whose pixel values the contract does not state. An RGBA8
/// buffer holds four bytes for each of the `w * h` pixels, whether the
/// decoder filled it or the conversion allocated it.
#[verifier::external_body]
fn decode_rgba(data: &[u8]) -> (r: Option<(Vec<u8>, u32, u32)>)
    ensures
        r matches Some((buf, w, h)) ==> buf@.len() == 4 * (w as int) * (h as int),
        match r {
            Some((buf, w, h)) => decoded_rgba(data@) == Some((buf@, w, h)),
            None => decoded_rgba(data@) is None,
        },
{
    match image::load_from_memory(data) {
        Ok(img) => {
            let rgba = img.into_rgba8();
            let (width, height) = rgba.dimensions();
            Some((rgba.into_vec(), width, height))
        },
        Err(_) => None,
    }
}

/// The kinds of the pictures.
pub open spec fn kinds_of(pictures: Seq<(PictureKind, Vec<u8>)>) -> Seq<PictureKind> {
    pictures.map_values(|p: (PictureKind, Vec<u8>)| p.0)
}

/// The cover among the pictures embedded in a song, decoded: the first
/// front or back picture, if it decodes; `None` otherwise. A decoded cover
/// holds four bytes (red, green, blue, alpha) for each pixel.
pub fn parse_album_cover(pictures: &Vec<(PictureKind, Vec<u8>)>) -> (r: Option<
    (Vec<u8>, u32, u32),
>)
    ensures
        r matches Some((buf, w, h)) ==> buf@.len() == 4 * (w as int) * (h as int),
        match first_cover(kinds_of(pictures@)) {
            Some(i) => match r {
                Some((buf, w, h)) => decoded_rgba(pictures@[i].1@) == Some((buf@, w, h)),
                None => decoded_rgba(pictures@[i].1@) is None,
            },
            None => r is None,
        },
{
    let ghost kinds = kinds_of(pictures@);
    let mut i: usize = 0;
    while i < pictures.len()
        invariant
            i <= pictures.len(),
            kinds == kinds_of(pictures@),
            first_cover(kinds) == first_cover_from(kinds, i as int),
        decreases pictures.len() - i,
    {
        assert(kinds[i as int] == pictures@[i as int].0);
        let is_cover_pic = match pictures[i].0 {
            PictureKind::CoverFront | PictureKind::CoverBack => true,
            PictureKind::Other => false,
        };
        if is_cover_pic {
            return decode_rgba(pictures[i].1.as_slice());
        }
        i += 1;
    }
    None
}

} // verus!
