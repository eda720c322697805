use softraster::bitmap::Bitmap;
use softraster::image::{DecodedImage, LoadError};

#[test]
fn from_rgba_repacks_bytes_into_packed_colours() {
    let data = [
        0x11, 0x22, 0x33, 0xff, // first pixel: red, green, blue, alpha
        0x00, 0x00, 0x00, 0x00, //
        0xff, 0xfe, 0xfd, 0x80, //
        0x01, 0x02, 0x03, 0x04,
    ];
    let b = Bitmap::from_rgba(2, 2, &data).unwrap();
    assert_eq!((b.width(), b.height(), b.stride()), (2, 2, 2));
    assert_eq!(b.pixels(), &[0xff112233, 0x00000000, 0x80fffefd, 0x04010203][..]);
}

#[test]
fn from_rgba_checks_the_amount_of_data() {
    assert!(matches!(Bitmap::from_rgba(2, 2, &[0u8; 15]), Err(LoadError::SizeMismatch)));
    assert!(matches!(Bitmap::from_rgba(2, 2, &[0u8; 17]), Err(LoadError::SizeMismatch)));
    assert!(matches!(Bitmap::from_rgba(0, 5, &[]), Ok(_)));
    assert!(matches!(Bitmap::from_rgba(1usize << 31, 1, &[]), Err(LoadError::TooLarge)));
    assert!(matches!(Bitmap::from_rgba(1, usize::MAX, &[]), Err(LoadError::TooLarge)));
}

#[test]
fn from_decoded_maps_each_outcome() {
    let ok = DecodedImage::Bytes { width: 1, height: 1, depth: 4, data: vec![1, 2, 3, 4] };
    assert_eq!(Bitmap::from_decoded(ok).unwrap().pixels(), &[0x04010203][..]);
    let rgb = DecodedImage::Bytes { width: 1, height: 1, depth: 3, data: vec![1, 2, 3] };
    assert!(matches!(Bitmap::from_decoded(rgb), Err(LoadError::UnsupportedFormat)));
    assert!(matches!(Bitmap::from_decoded(DecodedImage::Floats), Err(LoadError::UnsupportedFormat)));
    let failed = DecodedImage::Failed { reason: String::from("no such format") };
    match Bitmap::from_decoded(failed) {
        Err(LoadError::Undecodable { reason }) => assert_eq!(reason, "no such format"),
        _ => panic!("the failure was not passed on"),
    }
    let short = DecodedImage::Bytes { width: 2, height: 1, depth: 4, data: vec![1, 2, 3, 4] };
    assert!(matches!(Bitmap::from_decoded(short), Err(LoadError::SizeMismatch)));
}

#[test]
fn decode_reads_a_portable_pixmap() {
    // a binary portable pixmap of two pixels side by side: the magic number,
    // the sides "2 1" and the greatest sample "255", then the samples;
    // the decoder adds full alpha
    let mut file = vec![b'P', b'6', b'\n'];
    file.extend_from_slice(b"2 1\n255\n");
    file.extend_from_slice(&[0x01, 0x02, 0x03, 0x0a, 0x0b, 0x0c]);
    let b = Bitmap::decode(&file).unwrap();
    assert_eq!((b.width(), b.height()), (2, 1));
    assert_eq!(b.pixels(), &[0xff010203, 0xff0a0b0c][..]);
}

#[test]
fn decode_reports_what_is_no_image() {
    assert!(matches!(Bitmap::decode(b"not an image"), Err(LoadError::Undecodable { .. })));
    assert!(matches!(Bitmap::decode(b""), Err(LoadError::Undecodable { .. })));
}
