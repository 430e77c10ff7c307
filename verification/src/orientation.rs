//! Which way up a photo actually is.
//!
//! Phones almost never rotate pixels; they store the sensor's native landscape
//! frame and record the intended rotation as metadata. A HEIC puts it in an
//! `irot`/`imir` item property (see [`crate::heif`]); a JPEG puts it in EXIF
//! tag 0x0112 in an APP1 segment (below). Both are turned into the ffmpeg
//! filter chain that puts the picture right way up.

use vstd::prelude::*;

use crate::bytes::{be16, be32, in_bounds, le16, le32, read_be16, read_be32, read_le16, read_le32};

verus! {

/// How a stored image must be transformed before it is displayed.
#[derive(Debug, Clone, Copy, PartialEq, Eq, Structural)]
pub struct Orientation {
    /// Anti-clockwise rotation in degrees (0, 90, 180 or 270), as `irot` records it.
    pub rotation_ccw: u16,
    /// Mirroring, applied before the rotation.
    pub mirror: Option<Mirror>,
}

/// The axis an image is mirrored about.
#[derive(Debug, Clone, Copy, PartialEq, Eq, Structural)]
pub enum Mirror {
    /// Top and bottom are swapped.
    Vertical,
    /// Left and right are swapped.
    Horizontal,
}

/// The upright orientation: no rotation, no mirroring.
pub open spec fn upright() -> Orientation {
    Orientation { rotation_ccw: 0, mirror: None }
}

impl Default for Orientation {
    fn default() -> (o: Orientation)
        ensures
            o == upright(),
    {
        Orientation { rotation_ccw: 0, mirror: None }
    }
}

/// The filter for a mirror, if any.
pub open spec fn mirror_filter(m: Option<Mirror>) -> Option<Seq<char>> {
    match m {
        Some(Mirror::Horizontal) => Some("hflip"@),
        Some(Mirror::Vertical) => Some("vflip"@),
        None => None,
    }
}

/// The filter for an anti-clockwise rotation, if it is a non-zero quarter turn.
/// ffmpeg's `transpose` counts clockwise, so 90 and 270 swap.
pub open spec fn rotation_filter(r: u16) -> Option<Seq<char>> {
    if r == 90 {
        Some("transpose=2"@)
    } else if r == 180 {
        Some("hflip"@ + seq![','] + "vflip"@)
    } else if r == 270 {
        Some("transpose=1"@)
    } else {
        None
    }
}

/// The filter chain `ffmpeg_filters` returns: the mirror first, then the
/// rotation, joined by a comma.
pub open spec fn filters_spec(o: Orientation) -> Option<Seq<char>> {
    if o.rotation_ccw == 0 && o.mirror is None {
        None
    } else {
        match (mirror_filter(o.mirror), rotation_filter(o.rotation_ccw)) {
            (None, None) => None,
            (Some(m), None) => Some(m),
            (None, Some(r)) => Some(r),
            (Some(m), Some(r)) => Some(m + seq![','] + r),
        }
    }
}

impl Orientation {
    /// True when the image is stored exactly as it should be shown.
    pub fn is_identity(&self) -> (res: bool)
        ensures
            res == (self.rotation_ccw == 0 && self.mirror is None),
    {
        self.rotation_ccw == 0 && self.mirror.is_none()
    }

    /// Builds the ffmpeg filter chain that puts the image the right way up, or
    /// None when no transform is needed.
    ///
    /// `irot` counts anti-clockwise while ffmpeg's `transpose` counts clockwise,
    /// so the two quarter-turn cases are swapped relative to what the box says.
    pub fn ffmpeg_filters(&self) -> (res: Option<String>)
        ensures
            match res {
                Some(s) => filters_spec(*self) == Some(s@),
                None => filters_spec(*self) is None,
            },
    {
        if self.is_identity() {
            return None;
        }
        let mut out = String::new();
        let mut any = false;
        match self.mirror {
            Some(Mirror::Horizontal) => {
                out.append("hflip");
                any = true;
            },
            Some(Mirror::Vertical) => {
                out.append("vflip");
                any = true;
            },
            None => {},
        }
        let ghost m = out@;
        assert(any ==> mirror_filter(self.mirror) == Some(m));
        assert(!any ==> mirror_filter(self.mirror) is None && m.len() == 0);
        if self.rotation_ccw == 90 {
            if any {
                crate::text::string_push(&mut out, ',');
            }
            out.append("transpose=2");
        } else if self.rotation_ccw == 180 {
            if any {
                crate::text::string_push(&mut out, ',');
            }
            out.append("hflip");
            crate::text::string_push(&mut out, ',');
            out.append("vflip");
        } else if self.rotation_ccw == 270 {
            if any {
                crate::text::string_push(&mut out, ',');
            }
            out.append("transpose=1");
        } else if !any {
            return None;
        }
        proof {
            if any {
                if rotation_filter(self.rotation_ccw) is Some {
                    assert(out@ =~= m + seq![','] + rotation_filter(self.rotation_ccw).unwrap());
                }
            } else {
                assert(out@ =~= rotation_filter(self.rotation_ccw).unwrap());
            }
        }
        Some(out)
    }
}

/// The rotation/mirror pair an EXIF orientation code (1-8) stands for, in the
/// anti-clockwise convention used throughout. Any other code is upright.
pub open spec fn exif_orientation_spec(value: u16) -> Orientation {
    if value == 2 {
        Orientation { rotation_ccw: 0, mirror: Some(Mirror::Horizontal) }
    } else if value == 3 {
        Orientation { rotation_ccw: 180, mirror: None }
    } else if value == 4 {
        Orientation { rotation_ccw: 0, mirror: Some(Mirror::Vertical) }
    } else if value == 5 {
        Orientation { rotation_ccw: 270, mirror: Some(Mirror::Horizontal) }
    } else if value == 6 {
        Orientation { rotation_ccw: 270, mirror: None }
    } else if value == 7 {
        Orientation { rotation_ccw: 90, mirror: Some(Mirror::Horizontal) }
    } else if value == 8 {
        Orientation { rotation_ccw: 90, mirror: None }
    } else {
        upright()
    }
}

/// Maps an EXIF orientation code (1-8) onto a rotation/mirror pair.
///
/// EXIF describes the transform needed to display the stored pixels, in
/// clockwise terms; this converts to the anti-clockwise convention used
/// throughout so both formats produce the same filter chain.
pub fn from_exif_value(value: u16) -> (o: Orientation)
    ensures
        o == exif_orientation_spec(value),
{
    match value {
        2 => Orientation { rotation_ccw: 0, mirror: Some(Mirror::Horizontal) },
        3 => Orientation { rotation_ccw: 180, mirror: None },
        4 => Orientation { rotation_ccw: 0, mirror: Some(Mirror::Vertical) },
        5 => Orientation { rotation_ccw: 270, mirror: Some(Mirror::Horizontal) },
        6 => Orientation { rotation_ccw: 270, mirror: None },
        7 => Orientation { rotation_ccw: 90, mirror: Some(Mirror::Horizontal) },
        8 => Orientation { rotation_ccw: 90, mirror: None },
        _ => Orientation::default(),
    }
}

/// The six bytes that open an EXIF APP1 payload: `Exif\0\0`.
pub open spec fn exif_magic() -> Seq<u8> {
    seq![0x45u8, 0x78u8, 0x69u8, 0x66u8, 0u8, 0u8]
}

/// Walks the JPEG marker segments from `pos` to the start of the TIFF header
/// inside the EXIF APP1 segment. Each segment is `0xFF <marker> <2-byte
/// big-endian length, inclusive of itself>`; start-of-scan (0xDA) ends the
/// search, as does anything malformed or past the end of the buffer.
pub open spec fn exif_tiff_from(b: Seq<u8>, pos: int) -> Option<int>
    decreases (if 0 <= pos < b.len() { b.len() - pos } else { 0 }),
{
    if pos < 0 || pos >= b.len() || b[pos] != 0xff || pos + 1 >= b.len() {
        None
    } else if b[pos + 1] == 0xda {
        None
    } else if !in_bounds(b, pos + 2, 2) {
        None
    } else if be16(b, pos + 2) < 2 {
        None
    } else if b[pos + 1] == 0xe1 && !in_bounds(b, pos + 4, 6) {
        None
    } else if b[pos + 1] == 0xe1 && b.subrange(pos + 4, pos + 10) == exif_magic() {
        Some(pos + 10)
    } else if pos + 2 + be16(b, pos + 2) > usize::MAX {
        None
    } else {
        exif_tiff_from(b, pos + 2 + be16(b, pos + 2))
    }
}

/// Walks the JPEG marker segments (after the two-byte SOI) to the start of the
/// TIFF header inside APP1.
pub fn find_exif_tiff_header(buf: &[u8]) -> (res: Option<usize>)
    ensures
        res matches Some(t) ==> exif_tiff_from(buf@, 2) == Some(t as int),
        res is None ==> exif_tiff_from(buf@, 2) is None,
{
    let mut pos: usize = 2;
    loop
        invariant
            exif_tiff_from(buf@, 2) == exif_tiff_from(buf@, pos as int),
        decreases (if pos < buf@.len() { buf@.len() - pos } else { 0 }),
    {
        if pos >= buf.len() || buf[pos] != 0xff || pos + 1 >= buf.len() {
            return None;
        }
        let marker = buf[pos + 1];
        if marker == 0xda {
            return None;
        }
        let length = match read_be16(buf, pos + 2) {
            Some(v) => v,
            None => return None,
        };
        if length < 2 {
            return None;
        }
        if marker == 0xe1 {
            if pos + 4 > buf.len() || buf.len() - (pos + 4) < 6 {
                return None;
            }
            if buf[pos + 4] == 0x45 && buf[pos + 5] == 0x78 && buf[pos + 6] == 0x69 && buf[pos + 7]
                == 0x66 && buf[pos + 8] == 0 && buf[pos + 9] == 0 {
                assert(buf@.subrange(pos + 4, pos + 10) =~= exif_magic());
                return Some(pos + 10);
            }
            assert(buf@.subrange(pos + 4, pos + 10)[0] == buf@[pos + 4]);
            assert(buf@.subrange(pos + 4, pos + 10)[1] == buf@[pos + 5]);
            assert(buf@.subrange(pos + 4, pos + 10)[2] == buf@[pos + 6]);
            assert(buf@.subrange(pos + 4, pos + 10)[3] == buf@[pos + 7]);
            assert(buf@.subrange(pos + 4, pos + 10)[4] == buf@[pos + 8]);
            assert(buf@.subrange(pos + 4, pos + 10)[5] == buf@[pos + 9]);
            assert(buf@.subrange(pos + 4, pos + 10) != exif_magic());
        }
        if pos > usize::MAX - 2 - (length as usize) {
            return None;
        }
        pos = pos + 2 + length as usize;
    }
}

/// The orientation tag's value from IFD0 of the TIFF block at `tiff`.
pub open spec fn tiff_orientation_spec(b: Seq<u8>, tiff: int) -> Option<u16> {
    if !in_bounds(b, tiff, 2) {
        None
    } else if !((b[tiff] == 0x4d && b[tiff + 1] == 0x4d) || (b[tiff] == 0x49 && b[tiff + 1] == 0x49)) {
        None
    } else if !in_bounds(b, tiff + 4, 4) {
        None
    } else {
        let big = b[tiff] == 0x4d;
        let off = if big { be32(b, tiff + 4) } else { le32(b, tiff + 4) };
        let ifd0 = tiff + off;
        if ifd0 > usize::MAX || !in_bounds(b, ifd0, 2) {
            None
        } else {
            let entries = if big { be16(b, ifd0) } else { le16(b, ifd0) };
            ifd_orientation_from(b, big, ifd0, entries, 0)
        }
    }
}

/// Scans IFD entries `i..entries` (12 bytes each, after the 2-byte count) for
/// tag 0x0112; a SHORT value sits in the first two bytes of the value field.
pub open spec fn ifd_orientation_from(b: Seq<u8>, big: bool, ifd0: int, entries: int, i: int) -> Option<u16>
    decreases entries - i,
{
    if i >= entries {
        None
    } else {
        let entry = ifd0 + 2 + i * 12;
        if entry > usize::MAX || !in_bounds(b, entry, 2) {
            None
        } else if (if big { be16(b, entry) } else { le16(b, entry) }) == 0x0112 {
            if in_bounds(b, entry + 8, 2) {
                Some((if big { be16(b, entry + 8) } else { le16(b, entry + 8) }) as u16)
            } else {
                None
            }
        } else {
            ifd_orientation_from(b, big, ifd0, entries, i + 1)
        }
    }
}

fn read_u16_order(b: &[u8], at: usize, big: bool) -> (res: Option<u16>)
    ensures
        res is Some <==> in_bounds(b@, at as int, 2),
        res matches Some(v) ==> v == (if big { be16(b@, at as int) } else { le16(b@, at as int) }),
{
    if big {
        read_be16(b, at)
    } else {
        read_le16(b, at)
    }
}

/// Reads tag 0x0112 (orientation) from IFD0 of the TIFF block at `tiff`.
pub fn read_tiff_orientation(buf: &[u8], tiff: usize) -> (res: Option<u16>)
    ensures
        res == tiff_orientation_spec(buf@, tiff as int),
{
    if tiff > buf.len() || buf.len() - tiff < 2 {
        return None;
    }
    let big = if buf[tiff] == 0x4d && buf[tiff + 1] == 0x4d {
        true
    } else if buf[tiff] == 0x49 && buf[tiff + 1] == 0x49 {
        false
    } else {
        return None;
    };
    if tiff > usize::MAX - 4 {
        return None;
    }
    let off = if big {
        read_be32(buf, tiff + 4)
    } else {
        read_le32(buf, tiff + 4)
    };
    let off = match off {
        Some(v) => v,
        None => return None,
    };
    if tiff > usize::MAX - (off as usize) {
        return None;
    }
    let ifd0 = tiff + off as usize;
    let entries = match read_u16_order(buf, ifd0, big) {
        Some(v) => v,
        None => return None,
    };
    let mut i: usize = 0;
    while i < entries as usize
        invariant
            i <= entries,
            in_bounds(buf@, ifd0 as int, 2),
            entries == (if big { be16(buf@, ifd0 as int) } else { le16(buf@, ifd0 as int) }),
            big == (buf@[tiff as int] == 0x4d),
            tiff_orientation_spec(buf@, tiff as int) == ifd_orientation_from(
                buf@,
                big,
                ifd0 as int,
                entries as int,
                i as int,
            ),
        decreases entries - i,
    {
        let wide_entry: u128 = ifd0 as u128 + 2 + (i as u128) * 12;
        if wide_entry > usize::MAX as u128 {
            return None;
        }
        let entry = wide_entry as usize;
        let tag = match read_u16_order(buf, entry, big) {
            Some(v) => v,
            None => return None,
        };
        if tag == 0x0112 {
            if entry > usize::MAX - 8 {
                assert(buf@.len() == buf.len());
                return None;
            }
            return read_u16_order(buf, entry + 8, big);
        }
        i += 1;
    }
    None
}

/// The EXIF orientation in a JPEG's head, if it carries one.
pub open spec fn jpeg_orientation_spec(b: Seq<u8>) -> Option<Orientation> {
    match exif_tiff_from(b, 2) {
        None => None,
        Some(t) => match tiff_orientation_spec(b, t) {
            None => None,
            Some(v) => Some(exif_orientation_spec(v)),
        },
    }
}

/// Finds the EXIF orientation in a JPEG's APP1 segment and maps it to a
/// rotation/mirror pair. Returns None when the file carries no EXIF orientation.
/// @param buf - the head of the JPEG, covering its marker segments
pub fn read_jpeg_exif(buf: &[u8]) -> (res: Option<Orientation>)
    ensures
        res == jpeg_orientation_spec(buf@),
{
    let tiff = match find_exif_tiff_header(buf) {
        Some(t) => t,
        None => return None,
    };
    let value = match read_tiff_orientation(buf, tiff) {
        Some(v) => v,
        None => return None,
    };
    Some(from_exif_value(value))
}


/// The `ftyp` box type that opens every ISOBMFF file, at offset 4.
pub open spec fn ftyp() -> Seq<u8> {
    seq![0x66u8, 0x74u8, 0x79u8, 0x70u8]
}

/// A still image's orientation from the head of its file, chosen by what the
/// bytes are rather than by the file's extension: JPEG (`FF D8 FF`) is read
/// from EXIF, ISOBMFF (`ftyp` at offset 4) from its item properties, and
/// anything unrecognised or unreadable is upright.
pub open spec fn head_orientation_spec(b: Seq<u8>) -> Orientation {
    if b.len() >= 3 && b[0] == 0xff && b[1] == 0xd8 && b[2] == 0xff {
        match jpeg_orientation_spec(b) {
            Some(o) => o,
            None => upright(),
        }
    } else if b.len() > 8 && b.subrange(4, 8) == ftyp() {
        match crate::heif::heif_orientation_spec(b) {
            Some(o) => o,
            None => upright(),
        }
    } else {
        upright()
    }
}

/// Reads a still image's display orientation, choosing the reader by what the
/// file actually is (JPEG by its SOI marker, ISOBMFF by its `ftyp` box) rather
/// than by its extension. Anything unrecognised is treated as already upright.
/// It is handed the start of the file (the caller reads up to 1 MiB of it).
/// @param head - the start of the image file
pub fn read(head: &[u8]) -> (o: Orientation)
    ensures
        o == head_orientation_spec(head@),
{
    let n = head.len();
    if n >= 3 && head[0] == 0xff && head[1] == 0xd8 && head[2] == 0xff {
        return match read_jpeg_exif(head) {
            Some(o) => o,
            None => Orientation::default(),
        };
    }
    if n > 8 && head[4] == 0x66 && head[5] == 0x74 && head[6] == 0x79 && head[7] == 0x70 {
        assert(head@.subrange(4, 8) =~= ftyp());
        return match crate::heif::parse_orientation(head) {
            Some(o) => o,
            None => Orientation::default(),
        };
    }
    proof {
        if n > 8 && head@.subrange(4, 8) == ftyp() {
            assert(head@.subrange(4, 8)[0] == head@[4]);
            assert(head@.subrange(4, 8)[1] == head@[5]);
            assert(head@.subrange(4, 8)[2] == head@[6]);
            assert(head@.subrange(4, 8)[3] == head@[7]);
        }
    }
    Orientation::default()
}

/// An orientation gets a filter chain exactly when it is not upright, for
/// any quarter-turn rotation.
pub proof fn lemma_filters_exactly_when_not_upright(o: Orientation)
    requires
        crate::heif::is_quarter_turn(o.rotation_ccw),
    ensures
        filters_spec(o) is None <==> o == upright(),
{
}

/// Whatever a file's first bytes hold, the orientation read from them is a
/// quarter turn, so it is displayable by the filter chains above.
pub proof fn lemma_read_orientation_is_a_quarter_turn(head: Seq<u8>)
    ensures
        crate::heif::is_quarter_turn(head_orientation_spec(head).rotation_ccw),
{
    crate::heif::lemma_heif_orientation_is_quarter_turn(head);
}

} // verus!
