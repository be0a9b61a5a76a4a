use music_player::album::{parse_album_cover, PictureKind};

/// A 2x1 PNG: one red pixel, one green pixel.
const PNG: [u8; 72] = [
    0x89, 0x50, 0x4e, 0x47, 0x0d, 0x0a, 0x1a, 0x0a, 0x00, 0x00, 0x00, 0x0d, 0x49, 0x48, 0x44,
    0x52, 0x00, 0x00, 0x00, 0x02, 0x00, 0x00, 0x00, 0x01, 0x08, 0x02, 0x00, 0x00, 0x00, 0x7b,
    0x40, 0xe8, 0xdd, 0x00, 0x00, 0x00, 0x0f, 0x49, 0x44, 0x41, 0x54, 0x78, 0x9c, 0x63, 0xf8,
    0xcf, 0xc0, 0xc0, 0xf0, 0x9f, 0x01, 0x00, 0x07, 0xff, 0x01, 0xff, 0x01, 0x7f, 0x89, 0xa7,
    0x00, 0x00, 0x00, 0x00, 0x49, 0x45, 0x4e, 0x44, 0xae, 0x42, 0x60, 0x82,
];

#[test]
fn first_cover_is_decoded() {
    let pictures = vec![
        (PictureKind::Other, vec![1, 2, 3]),
        (PictureKind::CoverBack, PNG.to_vec()),
        (PictureKind::CoverFront, vec![9, 9]),
    ];
    let (buf, w, h) = parse_album_cover(&pictures).unwrap();
    assert_eq!((w, h), (2, 1));
    assert_eq!(buf, vec![255, 0, 0, 255, 0, 255, 0, 255]);
}

#[test]
fn a_cover_that_does_not_decode_gives_none() {
    let pictures = vec![(PictureKind::CoverFront, vec![1, 2, 3]), (PictureKind::CoverBack, PNG.to_vec())];
    assert!(parse_album_cover(&pictures).is_none());
}

#[test]
fn no_cover_gives_none() {
    let pictures = vec![(PictureKind::Other, PNG.to_vec())];
    assert!(parse_album_cover(&pictures).is_none());
    assert!(parse_album_cover(&Vec::new()).is_none());
}
