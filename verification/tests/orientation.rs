use phone_sync_server::orientation::{from_exif_value, read, read_jpeg_exif, Mirror, Orientation};

#[test]
fn identity_orientation_needs_no_filter() {
    assert!(Orientation::default().ffmpeg_filters().is_none());
}

#[test]
fn irot_is_translated_from_anticlockwise_to_ffmpeg_clockwise() {
    assert_eq!(Orientation { rotation_ccw: 270, mirror: None }.ffmpeg_filters().as_deref(), Some("transpose=1"));
    assert_eq!(Orientation { rotation_ccw: 90, mirror: None }.ffmpeg_filters().as_deref(), Some("transpose=2"));
}

#[test]
fn mirroring_is_applied_before_the_rotation() {
    let flipped = Orientation { rotation_ccw: 270, mirror: Some(Mirror::Horizontal) };
    assert_eq!(flipped.ffmpeg_filters().as_deref(), Some("hflip,transpose=1"));
}

#[test]
fn exif_six_is_the_common_portrait_case() {
    // EXIF 6 means "rotate 90 clockwise to display", i.e. 270 anti-clockwise.
    assert_eq!(from_exif_value(6), Orientation { rotation_ccw: 270, mirror: None });
    assert_eq!(from_exif_value(1), Orientation::default());
    assert_eq!(from_exif_value(99), Orientation::default());
}

fn little_endian_jpeg() -> Vec<u8> {
    // SOI, then an APP1 segment carrying a minimal TIFF block with one IFD0
    // entry: tag 0x0112, type SHORT, count 1, value 6.
    let mut jpeg = vec![0xff, 0xd8];
    let mut tiff: Vec<u8> = Vec::new();
    tiff.extend_from_slice(b"II\x2a\x00");
    tiff.extend_from_slice(&8u32.to_le_bytes()); // IFD0 at offset 8
    tiff.extend_from_slice(&1u16.to_le_bytes()); // one entry
    tiff.extend_from_slice(&0x0112u16.to_le_bytes());
    tiff.extend_from_slice(&3u16.to_le_bytes()); // SHORT
    tiff.extend_from_slice(&1u32.to_le_bytes());
    tiff.extend_from_slice(&6u16.to_le_bytes());
    tiff.extend_from_slice(&[0, 0]);
    let payload_len = (2 + 6 + tiff.len()) as u16;
    jpeg.extend_from_slice(&[0xff, 0xe1]);
    jpeg.extend_from_slice(&payload_len.to_be_bytes());
    jpeg.extend_from_slice(b"Exif\0\0");
    jpeg.extend_from_slice(&tiff);
    jpeg
}

#[test]
fn a_little_endian_jpeg_orientation_is_read_back() {
    let jpeg = little_endian_jpeg();
    assert_eq!(read_jpeg_exif(&jpeg), Some(Orientation { rotation_ccw: 270, mirror: None }));
}

#[test]
fn a_jpeg_without_exif_is_treated_as_upright() {
    let jpeg = vec![0xff, 0xd8, 0xff, 0xda, 0x00, 0x02];
    assert_eq!(read_jpeg_exif(&jpeg), None);
}

#[test]
fn a_big_endian_jpeg_orientation_is_read_back() {
    let mut jpeg = vec![0xff, 0xd8];
    let mut tiff: Vec<u8> = Vec::new();
    tiff.extend_from_slice(b"MM\x00\x2a");
    tiff.extend_from_slice(&8u32.to_be_bytes());
    tiff.extend_from_slice(&1u16.to_be_bytes());
    tiff.extend_from_slice(&0x0112u16.to_be_bytes());
    tiff.extend_from_slice(&3u16.to_be_bytes());
    tiff.extend_from_slice(&1u32.to_be_bytes());
    tiff.extend_from_slice(&8u16.to_be_bytes());
    tiff.extend_from_slice(&[0, 0]);
    let payload_len = (2 + 6 + tiff.len()) as u16;
    jpeg.extend_from_slice(&[0xff, 0xe1]);
    jpeg.extend_from_slice(&payload_len.to_be_bytes());
    jpeg.extend_from_slice(b"Exif\0\0");
    jpeg.extend_from_slice(&tiff);
    assert_eq!(read_jpeg_exif(&jpeg), Some(Orientation { rotation_ccw: 90, mirror: None }));
}

#[test]
fn the_reader_is_chosen_by_content_not_name() {
    // SOI followed by a marker: read as a JPEG, whatever the file is called.
    let jpeg = little_endian_jpeg();
    assert_eq!(read(&jpeg), Orientation { rotation_ccw: 270, mirror: None });
    // Unrecognised bytes are upright.
    assert_eq!(read(b"hello world"), Orientation::default());
    assert_eq!(read(&[]), Orientation::default());
}

#[test]
fn every_exif_code_maps_to_a_quarter_turn() {
    for v in 0u16..=20 {
        let o = from_exif_value(v);
        assert!(matches!(o.rotation_ccw, 0 | 90 | 180 | 270));
        assert_eq!(o.ffmpeg_filters().is_none(), o.is_identity());
    }
    assert_eq!(from_exif_value(3).ffmpeg_filters().as_deref(), Some("hflip,vflip"));
    assert_eq!(from_exif_value(2).ffmpeg_filters().as_deref(), Some("hflip"));
    assert_eq!(from_exif_value(4).ffmpeg_filters().as_deref(), Some("vflip"));
}
