use phone_sync_server::heif::{find_box, parse_orientation, read_box};
use phone_sync_server::orientation::{Mirror, Orientation};

/// Wraps a payload in a box header of the given four-character type.
fn boxed(kind: &[u8; 4], payload: &[u8]) -> Vec<u8> {
    let mut out = ((payload.len() + 8) as u32).to_be_bytes().to_vec();
    out.extend_from_slice(kind);
    out.extend_from_slice(payload);
    out
}

/// Builds a minimal HEIF `meta` box whose primary item (id 1) is associated
/// with an `irot` of the given quarter-turn count, plus a decoy property so
/// the 1-based `ipma` indexing is actually exercised.
fn meta_with_irot(quarter_turns: u8) -> Vec<u8> {
    let pitm = boxed(b"pitm", &[0, 0, 0, 0, 0, 1]);
    let mut ipco_body = boxed(b"ispe", &[0; 12]);
    ipco_body.extend_from_slice(&boxed(b"irot", &[quarter_turns]));
    let ipco = boxed(b"ipco", &ipco_body);
    // version 0, flags 0, one entry: item 1, two properties (ispe=1, irot=2).
    let ipma = boxed(b"ipma", &[0, 0, 0, 0, 0, 0, 0, 1, 0, 1, 2, 1, 2]);
    let mut iprp_body = ipco;
    iprp_body.extend_from_slice(&ipma);
    let iprp = boxed(b"iprp", &iprp_body);

    let mut meta_body = vec![0, 0, 0, 0]; // FullBox version/flags
    meta_body.extend_from_slice(&pitm);
    meta_body.extend_from_slice(&iprp);
    boxed(b"meta", &meta_body)
}

#[test]
fn the_primary_items_irot_is_read_through_ipma() {
    assert_eq!(parse_orientation(&meta_with_irot(3)), Some(Orientation { rotation_ccw: 270, mirror: None }));
    assert_eq!(parse_orientation(&meta_with_irot(0)), Some(Orientation::default()));
    assert_eq!(parse_orientation(&meta_with_irot(2)), Some(Orientation { rotation_ccw: 180, mirror: None }));
}

#[test]
fn a_file_with_no_meta_box_has_no_answer() {
    assert!(parse_orientation(&boxed(b"ftyp", b"heic")).is_none());
}

#[test]
fn garbage_is_rejected_rather_than_panicking() {
    assert!(parse_orientation(&[]).is_none());
    assert!(parse_orientation(&[0, 0, 0, 8, b'm', b'e', b't', b'a']).is_none());
    // A truncated `meta` box must not read past the buffer.
    assert!(parse_orientation(&[0, 0, 0xff, 0xff, b'm', b'e', b't', b'a', 0, 0, 0, 0]).is_none());
}

#[test]
fn an_imir_property_mirrors_the_primary_item() {
    let pitm = boxed(b"pitm", &[0, 0, 0, 0, 0, 1]);
    let mut ipco_body = boxed(b"imir", &[1]);
    ipco_body.extend_from_slice(&boxed(b"irot", &[1]));
    let ipco = boxed(b"ipco", &ipco_body);
    let ipma = boxed(b"ipma", &[0, 0, 0, 0, 0, 0, 0, 1, 0, 1, 2, 1, 2]);
    let mut iprp_body = ipco;
    iprp_body.extend_from_slice(&ipma);
    let iprp = boxed(b"iprp", &iprp_body);
    let mut meta_body = vec![0, 0, 0, 0];
    meta_body.extend_from_slice(&pitm);
    meta_body.extend_from_slice(&iprp);
    let meta = boxed(b"meta", &meta_body);
    assert_eq!(
        parse_orientation(&meta),
        Some(Orientation { rotation_ccw: 90, mirror: Some(Mirror::Vertical) })
    );
}

#[test]
fn boxes_are_found_by_kind_within_bounds() {
    let mut buf = boxed(b"ftyp", b"heic");
    buf.extend_from_slice(&meta_with_irot(1));
    let (first, next) = read_box(&buf, 0, buf.len()).unwrap();
    assert_eq!(first.kind, *b"ftyp");
    assert_eq!((first.start, first.end), (8, 12));
    assert_eq!(next, 12);
    let meta = find_box(&buf, 0, buf.len(), b"meta").unwrap();
    assert_eq!(meta.start, 20);
    assert_eq!(meta.end, buf.len());
    assert!(find_box(&buf, 0, buf.len(), b"moov").is_none());
    assert!(read_box(&buf, 0, 7).is_none());
}
