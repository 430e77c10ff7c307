//! Minimal ISOBMFF reader for the one thing an iPhone photo needs and no tool
//! will tell us: which way up it is.
//!
//! A HEIC records its display orientation as an `irot` (rotate) / `imir`
//! (mirror) *item property* on the primary item. Only the boxes on the path to
//! that answer are parsed: `meta` -> `pitm` (primary item id) and `iprp` ->
//! { `ipco` (property array), `ipma` (item -> property associations) }.
//! Every read is bounds-checked and malformed input yields `None`.

use vstd::prelude::*;

use crate::bytes::{be16, be32, be64, in_bounds, read_be16, read_be32, read_be64};
use crate::orientation::{upright, Mirror, Orientation};

verus! {

/// A box as the specification sees it: its four-character type and the span
/// `[start, end)` of its payload.
pub type BoxSpan = (Seq<u8>, int, int);

/// Four-character box types.
pub open spec fn fourcc(a: u8, b: u8, c: u8, d: u8) -> Seq<u8> {
    seq![a, b, c, d]
}

/// `meta`
pub open spec fn kind_meta() -> Seq<u8> { fourcc(0x6d, 0x65, 0x74, 0x61) }
/// `pitm`
pub open spec fn kind_pitm() -> Seq<u8> { fourcc(0x70, 0x69, 0x74, 0x6d) }
/// `iprp`
pub open spec fn kind_iprp() -> Seq<u8> { fourcc(0x69, 0x70, 0x72, 0x70) }
/// `ipco`
pub open spec fn kind_ipco() -> Seq<u8> { fourcc(0x69, 0x70, 0x63, 0x6f) }
/// `ipma`
pub open spec fn kind_ipma() -> Seq<u8> { fourcc(0x69, 0x70, 0x6d, 0x61) }
/// `irot`
pub open spec fn kind_irot() -> Seq<u8> { fourcc(0x69, 0x72, 0x6f, 0x74) }
/// `imir`
pub open spec fn kind_imir() -> Seq<u8> { fourcc(0x69, 0x6d, 0x69, 0x72) }

/// A box of `size` bytes (header included) starting at `pos`, when it fits.
pub open spec fn sized_box(kind: Seq<u8>, pos: int, size: int, header: int, limit: int) -> Option<BoxSpan> {
    if size < header || pos + size > limit {
        None
    } else {
        Some((kind, pos + header, pos + size))
    }
}

/// The box whose header is at `pos`, within `[pos, limit)`. The 32-bit size
/// counts the header; size 1 means a 64-bit `largesize` follows the type, and
/// size 0 means the box runs to `limit`.
pub open spec fn read_box_spec(b: Seq<u8>, pos: int, limit: int) -> Option<BoxSpan> {
    if pos < 0 || pos + 8 > limit || !in_bounds(b, pos, 8) {
        None
    } else if be32(b, pos) == 1 {
        if pos + 16 > limit || !in_bounds(b, pos + 8, 8) {
            None
        } else {
            sized_box(b.subrange(pos + 4, pos + 8), pos, be64(b, pos + 8), 16, limit)
        }
    } else if be32(b, pos) == 0 {
        sized_box(b.subrange(pos + 4, pos + 8), pos, limit - pos, 8, limit)
    } else {
        sized_box(b.subrange(pos + 4, pos + 8), pos, be32(b, pos), 8, limit)
    }
}

/// The first direct child of type `kind` among the boxes from `pos` to `end`.
pub open spec fn find_box_spec(b: Seq<u8>, pos: int, end: int, kind: Seq<u8>) -> Option<BoxSpan>
    decreases (if pos < end { end - pos } else { 0 }),
{
    if pos >= end {
        None
    } else {
        match read_box_spec(b, pos, end) {
            None => None,
            Some(bx) => if bx.0 == kind {
                Some(bx)
            } else {
                find_box_spec(b, bx.2, end, kind)
            },
        }
    }
}

/// Every direct child box from `pos` to `end`, in file order, up to the first
/// that cannot be read.
pub open spec fn list_boxes_spec(b: Seq<u8>, pos: int, end: int) -> Seq<BoxSpan>
    decreases (if pos < end { end - pos } else { 0 }),
{
    if pos >= end {
        Seq::empty()
    } else {
        match read_box_spec(b, pos, end) {
            None => Seq::empty(),
            Some(bx) => seq![bx] + list_boxes_spec(b, bx.2, end),
        }
    }
}

/// A parsed box header: its four-character type and the span of its payload.
pub struct BoxRef {
    pub kind: [u8; 4],
    pub start: usize,
    pub end: usize,
}

impl BoxRef {
    /// The box as the specification sees it.
    pub open spec fn span(&self) -> BoxSpan {
        (self.kind@, self.start as int, self.end as int)
    }

    /// True if this box has the given four-character type.
    pub fn is(&self, kind: &[u8; 4]) -> (res: bool)
        ensures
            res == (self.kind@ == kind@),
    {
        let r = self.kind[0] == kind[0] && self.kind[1] == kind[1] && self.kind[2] == kind[2]
            && self.kind[3] == kind[3];
        proof {
            if r {
                assert(self.kind@ =~= kind@);
            } else {
                assert(self.kind@.len() == 4 && kind@.len() == 4);
                if self.kind@ == kind@ {
                    assert(self.kind@[0] == kind@[0] && self.kind@[1] == kind@[1]);
                    assert(self.kind@[2] == kind@[2] && self.kind@[3] == kind@[3]);
                }
            }
        }
        r
    }
}

/// Reads the box header at `pos`, returning it and the offset of the next
/// sibling. Handles both 32-bit sizes and the 64-bit `largesize` escape.
pub fn read_box(buf: &[u8], pos: usize, limit: usize) -> (res: Option<(BoxRef, usize)>)
    ensures
        res is None <==> read_box_spec(buf@, pos as int, limit as int) is None,
        res matches Some((bx, next)) ==> read_box_spec(buf@, pos as int, limit as int) == Some(
            bx.span(),
        ) && next == bx.end,
{
    if pos > limit || limit - pos < 8 || pos > buf.len() || buf.len() - pos < 8 {
        return None;
    }
    let size32 = read_be32(buf, pos).unwrap();
    let kind: [u8; 4] = [buf[pos + 4], buf[pos + 5], buf[pos + 6], buf[pos + 7]];
    assert(kind@ =~= buf@.subrange(pos + 4, pos + 8));
    let size: u64;
    let header: usize;
    if size32 == 1 {
        if limit - pos < 16 || buf.len() - pos < 16 {
            return None;
        }
        size = read_be64(buf, pos + 8).unwrap();
        header = 16;
    } else if size32 == 0 {
        size = (limit - pos) as u64;
        header = 8;
    } else {
        size = size32 as u64;
        header = 8;
    }
    if size < header as u64 || size > (limit - pos) as u64 {
        return None;
    }
    let end = pos + size as usize;
    Some((BoxRef { kind, start: pos + header, end }, end))
}

/// Finds a direct child box of the given type within `[start, end)`.
pub fn find_box(buf: &[u8], start: usize, end: usize, kind: &[u8; 4]) -> (res: Option<BoxRef>)
    ensures
        res is None <==> find_box_spec(buf@, start as int, end as int, kind@) is None,
        res matches Some(bx) ==> find_box_spec(buf@, start as int, end as int, kind@) == Some(
            bx.span(),
        ),
{
    let mut pos = start;
    while pos < end
        invariant
            find_box_spec(buf@, start as int, end as int, kind@) == find_box_spec(
                buf@,
                pos as int,
                end as int,
                kind@,
            ),
        decreases (if pos < end { end - pos } else { 0 }),
    {
        let (found, next) = match read_box(buf, pos, end) {
            Some(pair) => pair,
            None => return None,
        };
        if found.is(kind) {
            return Some(found);
        }
        pos = next;
    }
    None
}

/// Collects every direct child box within `[start, end)`, in file order — the
/// order `ipma` indexes into.
pub fn list_boxes(buf: &[u8], start: usize, end: usize) -> (res: Vec<BoxRef>)
    ensures
        res@.map_values(|bx: BoxRef| bx.span()) == list_boxes_spec(buf@, start as int, end as int),
{
    let mut out: Vec<BoxRef> = Vec::new();
    let mut pos = start;
    while pos < end
        invariant
            out@.map_values(|bx: BoxRef| bx.span()) + list_boxes_spec(buf@, pos as int, end as int)
                == list_boxes_spec(buf@, start as int, end as int),
        decreases (if pos < end { end - pos } else { 0 }),
    {
        match read_box(buf, pos, end) {
            Some((found, next)) => {
                let ghost before = out@.map_values(|bx: BoxRef| bx.span());
                let ghost sp = found.span();
                out.push(found);
                assert(out@.map_values(|bx: BoxRef| bx.span()) =~= before.push(sp));
                assert(before.push(sp) + list_boxes_spec(buf@, next as int, end as int) =~= before
                    + (seq![sp] + list_boxes_spec(buf@, next as int, end as int)));
                pos = next;
            },
            None => {
                assert(out@.map_values(|bx: BoxRef| bx.span()) =~= out@.map_values(
                    |bx: BoxRef| bx.span(),
                ) + list_boxes_spec(buf@, pos as int, end as int));
                return out;
            },
        }
    }
    assert(out@.map_values(|bx: BoxRef| bx.span()) =~= out@.map_values(|bx: BoxRef| bx.span())
        + list_boxes_spec(buf@, pos as int, end as int));
    out
}


/// The primary item id recorded in the `pitm` box among the children of
/// `[start, end)`: 16 bits wide at version 0, 32 bits otherwise, after the
/// four bytes of version and flags.
pub open spec fn primary_item_spec(b: Seq<u8>, start: int, end: int) -> Option<u32> {
    match find_box_spec(b, start, end, kind_pitm()) {
        None => None,
        Some(p) => if !in_bounds(b, p.1, 1) || p.1 + 4 > usize::MAX {
            None
        } else if b[p.1] == 0 {
            if in_bounds(b, p.1 + 4, 2) {
                Some(be16(b, p.1 + 4) as u32)
            } else {
                None
            }
        } else {
            if in_bounds(b, p.1 + 4, 4) {
                Some(be32(b, p.1 + 4) as u32)
            } else {
                None
            }
        },
    }
}

/// Reads the primary item id from the `pitm` box.
pub fn read_primary_item_id(buf: &[u8], start: usize, end: usize) -> (res: Option<u32>)
    ensures
        res == primary_item_spec(buf@, start as int, end as int),
{
    let pitm = match find_box(buf, start, end, &[0x70u8, 0x69u8, 0x74u8, 0x6du8]) {
        Some(bx) => bx,
        None => {
            assert([0x70u8, 0x69u8, 0x74u8, 0x6du8]@ =~= kind_pitm());
            return None;
        },
    };
    assert([0x70u8, 0x69u8, 0x74u8, 0x6du8]@ =~= kind_pitm());
    if pitm.start >= buf.len() {
        return None;
    }
    let version = buf[pitm.start];
    if pitm.start > usize::MAX - 4 {
        return None;
    }
    let id_at = pitm.start + 4;
    if version == 0 {
        match read_be16(buf, id_at) {
            Some(v) => Some(v as u32),
            None => None,
        }
    } else {
        read_be32(buf, id_at)
    }
}

/// The `count` property indices starting at `pos`: 15-bit big-endian values
/// when `wide`, otherwise 7-bit single bytes (the top bit is the
/// "essential" flag). Also yields the offset just past them.
pub open spec fn ipma_indices_spec(b: Seq<u8>, pos: int, count: nat, wide: bool) -> Option<(Seq<u16>, int)>
    decreases count,
{
    if count == 0 {
        Some((Seq::empty(), pos))
    } else if wide {
        if !in_bounds(b, pos, 2) {
            None
        } else {
            match ipma_indices_spec(b, pos + 2, (count - 1) as nat, wide) {
                None => None,
                Some((rest, p)) => Some((seq![(be16(b, pos) % 0x8000) as u16] + rest, p)),
            }
        }
    } else {
        if !in_bounds(b, pos, 1) {
            None
        } else {
            match ipma_indices_spec(b, pos + 1, (count - 1) as nat, wide) {
                None => None,
                Some((rest, p)) => Some((seq![(b[pos] % 0x80) as u16] + rest, p)),
            }
        }
    }
}

/// Scans the remaining `k` `ipma` entries from `pos` for `item`: each is an
/// item id (16 bits, or 32 at version 1 and up), a one-byte count and that
/// many property indices. A file with no association for the item yields the
/// empty list.
pub open spec fn ipma_entries_spec(b: Seq<u8>, pos: int, k: nat, wide_ids: bool, wide: bool, item: u32) -> Option<Seq<u16>>
    decreases k,
{
    if k == 0 {
        Some(Seq::empty())
    } else {
        let id_width: int = if wide_ids { 4 } else { 2 };
        if !in_bounds(b, pos, id_width) || !in_bounds(b, pos + id_width, 1) {
            None
        } else {
            let id = if wide_ids { be32(b, pos) } else { be16(b, pos) };
            match ipma_indices_spec(b, pos + id_width + 1, b[pos + id_width] as nat, wide) {
                None => None,
                Some((indices, next)) => if id == item {
                    Some(indices)
                } else {
                    ipma_entries_spec(b, next, (k - 1) as nat, wide_ids, wide, item)
                },
            }
        }
    }
}

/// The property indices the `ipma` box whose payload starts at `start`
/// associates with `item`. The FullBox header's version widens item ids at 1
/// and up; flag bit 0 widens the indices.
pub open spec fn property_indices_spec(b: Seq<u8>, start: int, item: u32) -> Option<Seq<u16>> {
    if !in_bounds(b, start, 8) {
        None
    } else {
        ipma_entries_spec(
            b,
            start + 8,
            be32(b, start + 4) as nat,
            be32(b, start) / 0x1000000 >= 1,
            be32(b, start) % 2 == 1,
            item,
        )
    }
}

fn ipma_indices(buf: &[u8], pos: usize, count: u8, wide: bool) -> (res: Option<(Vec<u16>, usize)>)
    ensures
        match res {
            Some((v, p)) => ipma_indices_spec(buf@, pos as int, count as nat, wide) == Some(
                (v@, p as int),
            ),
            None => ipma_indices_spec(buf@, pos as int, count as nat, wide) is None,
        },
{
    let n = buf.len();
    let mut indices: Vec<u16> = Vec::new();
    let mut p = pos;
    let mut i: u8 = 0;
    while i < count
        invariant
            i <= count,
            n == buf@.len(),
            p <= buf@.len() || i == 0,
            p == pos || p <= buf@.len(),
            match ipma_indices_spec(buf@, p as int, (count - i) as nat, wide) {
                Some((rest, q)) => ipma_indices_spec(buf@, pos as int, count as nat, wide) == Some(
                    (indices@ + rest, q),
                ),
                None => ipma_indices_spec(buf@, pos as int, count as nat, wide) is None,
            },
        decreases count - i,
    {
        let ghost before = indices@;
        if wide {
            let v = match read_be16(buf, p) {
                Some(v) => v,
                None => return None,
            };
            indices.push(v % 0x8000);
            p = p + 2;
            proof {
                let r = ipma_indices_spec(buf@, p as int, (count - i - 1) as nat, wide);
                if let Some((rest, q)) = r {
                    assert(before + (seq![(v % 0x8000) as u16] + rest) =~= indices@ + rest);
                }
            }
        } else {
            if p >= buf.len() {
                return None;
            }
            indices.push((buf[p] % 0x80) as u16);
            p = p + 1;
            proof {
                let r = ipma_indices_spec(buf@, p as int, (count - i - 1) as nat, wide);
                if let Some((rest, q)) = r {
                    assert(before + (seq![(buf@[p - 1] % 0x80) as u16] + rest) =~= indices@ + rest);
                }
            }
        }
        i += 1;
    }
    assert(indices@ + Seq::<u16>::empty() =~= indices@);
    Some((indices, p))
}

/// Returns the property indices `ipma` associates with `item_id`.
///
/// Entry layout is version/flags-dependent: item ids widen to 32 bits at
/// version 1, and property indices widen to 15 bits when flag bit 0 is set.
pub fn property_indices_for(buf: &[u8], ipma: &BoxRef, item_id: u32) -> (res: Option<Vec<u16>>)
    ensures
        match res {
            Some(v) => property_indices_spec(buf@, ipma.start as int, item_id) == Some(v@),
            None => property_indices_spec(buf@, ipma.start as int, item_id) is None,
        },
{
    let n = buf.len();
    let header = match read_be32(buf, ipma.start) {
        Some(h) => h,
        None => return None,
    };
    let wide_ids = header / 0x1000000 >= 1;
    let wide = header % 2 == 1;
    if ipma.start > usize::MAX - 4 {
        return None;
    }
    let entry_count = match read_be32(buf, ipma.start + 4) {
        Some(c) => c,
        None => return None,
    };
    let mut pos = ipma.start + 8;
    let mut k: u32 = entry_count;
    while k > 0
        invariant
            in_bounds(buf@, ipma.start as int, 8),
            n == buf@.len(),
            pos <= buf@.len(),
            property_indices_spec(buf@, ipma.start as int, item_id) == ipma_entries_spec(
                buf@,
                pos as int,
                k as nat,
                wide_ids,
                wide,
                item_id,
            ),
        decreases k,
    {
        let id: u32;
        let id_width: usize;
        if wide_ids {
            id = match read_be32(buf, pos) {
                Some(v) => v,
                None => return None,
            };
            id_width = 4;
        } else {
            id = match read_be16(buf, pos) {
                Some(v) => v as u32,
                None => return None,
            };
            id_width = 2;
        }
        if pos + id_width >= buf.len() {
            return None;
        }
        let count = buf[pos + id_width];
        let (indices, next) = match ipma_indices(buf, pos + id_width + 1, count, wide) {
            Some(pair) => pair,
            None => return None,
        };
        if id == item_id {
            return Some(indices);
        }
        proof {
            lemma_ipma_indices_end(buf@, (pos + id_width + 1) as int, count as nat, wide);
        }
        pos = next;
        k -= 1;
    }
    Some(Vec::new())
}

proof fn lemma_ipma_indices_end(b: Seq<u8>, pos: int, count: nat, wide: bool)
    requires
        ipma_indices_spec(b, pos, count, wide) is Some,
        pos <= b.len(),
    ensures
        ipma_indices_spec(b, pos, count, wide).unwrap().1 <= b.len(),
    decreases count,
{
    if count > 0 {
        if wide {
            lemma_ipma_indices_end(b, pos + 2, (count - 1) as nat, wide);
        } else {
            lemma_ipma_indices_end(b, pos + 1, (count - 1) as nat, wide);
        }
    }
}


/// Whether the `ipma` box whose payload starts at `start` writes 32-bit item
/// ids (FullBox version 1 and up).
pub open spec fn ipma_wide_ids(b: Seq<u8>, start: int) -> bool {
    b[start] >= 1
}

/// Whether the `ipma` box whose payload starts at `start` writes 15-bit
/// property indices (flag bit 0).
pub open spec fn ipma_wide_indices(b: Seq<u8>, start: int) -> bool {
    b[start + 3] % 2 == 1
}

/// The `ipma` entry at `pos`: its item id, its property indices and where
/// the entry after it starts.
pub open spec fn ipma_entry_at(b: Seq<u8>, pos: int, wide_ids: bool, wide: bool) -> Option<(int, Seq<u16>, int)> {
    let id_width: int = if wide_ids { 4 } else { 2 };
    if !in_bounds(b, pos, id_width) || !in_bounds(b, pos + id_width, 1) {
        None
    } else {
        match ipma_indices_spec(b, pos + id_width + 1, b[pos + id_width] as nat, wide) {
            None => None,
            Some((indices, next)) => Some(
                (if wide_ids { b[pos] * 0x1000000 + b[pos + 1] * 0x10000 + b[pos + 2] * 0x100 + b[pos + 3] } else {
                    b[pos] * 0x100 + b[pos + 1]
                }, indices, next),
            ),
        }
    }
}

/// Where entry `j` of the `ipma` box whose payload starts at `start` begins:
/// the entries follow the version/flags word and the entry count, one after
/// another.
pub open spec fn ipma_entry_pos(b: Seq<u8>, start: int, j: nat) -> Option<int>
    decreases j,
{
    if j == 0 {
        Some(start + 8)
    } else {
        match ipma_entry_pos(b, start, (j - 1) as nat) {
            None => None,
            Some(p) => match ipma_entry_at(b, p, ipma_wide_ids(b, start), ipma_wide_indices(b, start)) {
                None => None,
                Some(e) => Some(e.2),
            },
        }
    }
}

/// Entry `j` of the `ipma` box whose payload starts at `start`.
pub open spec fn ipma_entry(b: Seq<u8>, start: int, j: nat) -> Option<(int, Seq<u16>, int)> {
    match ipma_entry_pos(b, start, j) {
        None => None,
        Some(p) => ipma_entry_at(b, p, ipma_wide_ids(b, start), ipma_wide_indices(b, start)),
    }
}

/// How many entries the `ipma` box whose payload starts at `start` declares.
pub open spec fn ipma_entry_count(b: Seq<u8>, start: int) -> nat {
    (b[start + 4] * 0x1000000 + b[start + 5] * 0x10000 + b[start + 6] * 0x100 + b[start + 7]) as nat
}

/// Entries `0..j` all read, and none is for `item`.
pub open spec fn ipma_entries_before_miss(b: Seq<u8>, start: int, j: nat, item: u32) -> bool {
    forall|i: nat| i < j ==> (#[trigger] ipma_entry(b, start, i)) is Some && ipma_entry(b, start, i).unwrap().0 != item
}

proof fn lemma_ipma_header(b: Seq<u8>, start: int)
    requires
        in_bounds(b, start, 8),
    ensures
        (be32(b, start) / 0x1000000 >= 1) == ipma_wide_ids(b, start),
        (be32(b, start) % 2 == 1) == ipma_wide_indices(b, start),
        be32(b, start + 4) as nat == ipma_entry_count(b, start),
{
    let v = be32(b, start);
    let r = b[start + 1] * 0x10000 + b[start + 2] * 0x100 + b[start + 3];
    assert(0 <= r < 0x1000000);
    assert(v == b[start] * 0x1000000 + r);
    vstd::arithmetic::div_mod::lemma_fundamental_div_mod_converse(v, 0x1000000, b[start] as int, r);
    let q = b[start] * 0x800000 + b[start + 1] * 0x8000 + b[start + 2] * 0x80 + b[start + 3] / 2;
    assert(v == q * 2 + b[start + 3] % 2);
    vstd::arithmetic::div_mod::lemma_fundamental_div_mod_converse(v, 2, q, (b[start + 3] % 2) as int);
}

proof fn lemma_ipma_walk(b: Seq<u8>, start: int, item: u32, j: nat, p: int)
    requires
        in_bounds(b, start, 8),
        j <= ipma_entry_count(b, start),
        ipma_entry_pos(b, start, j) == Some(p),
        ipma_entries_before_miss(b, start, j, item),
    ensures
        ipma_entries_spec(
            b,
            p,
            (ipma_entry_count(b, start) - j) as nat,
            ipma_wide_ids(b, start),
            ipma_wide_indices(b, start),
            item,
        ) matches Some(l) ==> (exists|k: nat|
            k < ipma_entry_count(b, start) && (#[trigger] ipma_entry(b, start, k)) is Some && ipma_entry(
                b,
                start,
                k,
            ).unwrap().0 == item && ipma_entry(b, start, k).unwrap().1 == l && ipma_entries_before_miss(b, start, k, item))
            || (l.len() == 0 && ipma_entries_before_miss(b, start, ipma_entry_count(b, start), item)),
    decreases ipma_entry_count(b, start) - j,
{
    let n = ipma_entry_count(b, start);
    let wi = ipma_wide_ids(b, start);
    let w = ipma_wide_indices(b, start);
    if j < n {
        let e = ipma_entry_at(b, p, wi, w);
        assert(ipma_entry(b, start, j) == e);
        let k = (n - j) as nat;
        let id_width: int = if wi { 4 } else { 2 };
        if let Some(en) = e {
            if en.0 == item {
            } else {
                assert(ipma_entry_pos(b, start, j + 1) == Some(en.2));
                assert forall|i: nat| i < j + 1 implies (#[trigger] ipma_entry(b, start, i)) is Some && ipma_entry(
                    b,
                    start,
                    i,
                ).unwrap().0 != item by {
                    if i < j {
                        assert(ipma_entries_before_miss(b, start, j, item));
                    }
                }
                lemma_ipma_walk(b, start, item, j + 1, en.2);
                assert((n - (j + 1)) as nat == (k - 1) as nat);
            }
        }
    }
}

/// The properties read for an item are that item's own: when the `ipma` box
/// gives an item any property indices, they are those of the first entry whose
/// item id is exactly that item, and every entry before it is for another
/// item; when it gives none, either that entry lists none or every entry is
/// for another item. An entry for a different item (such as a tile listed
/// before the primary grid item) never lends it its properties.
pub proof fn lemma_item_properties_are_its_own(b: Seq<u8>, start: int, item: u32)
    ensures
        property_indices_spec(b, start, item) matches Some(l) ==> (exists|k: nat|
            k < ipma_entry_count(b, start) && (#[trigger] ipma_entry(b, start, k)) is Some && ipma_entry(
                b,
                start,
                k,
            ).unwrap().0 == item && ipma_entry(b, start, k).unwrap().1 == l && ipma_entries_before_miss(b, start, k, item))
            || (l.len() == 0 && ipma_entries_before_miss(b, start, ipma_entry_count(b, start), item)),
{
    if in_bounds(b, start, 8) {
        lemma_ipma_header(b, start);
        lemma_ipma_walk(b, start, item, 0, start + 8);
    }
}

/// Applies the properties named by `indices` (1-based into `props`) to `o`
/// in order: an `irot` sets the anti-clockwise rotation to its low two bits
/// in quarter turns, an `imir` sets the mirror axis from its low bit.
/// Indices that name no property, or a property with no payload byte in the
/// buffer, are skipped.
pub open spec fn apply_properties_spec(b: Seq<u8>, props: Seq<BoxSpan>, indices: Seq<u16>, o: Orientation) -> Orientation
    decreases indices.len(),
{
    if indices.len() == 0 {
        o
    } else {
        let index = indices[0] as int;
        let next = if index == 0 || index - 1 >= props.len() {
            o
        } else if !in_bounds(b, props[index - 1].1, 1) {
            o
        } else if props[index - 1].0 == kind_irot() {
            Orientation { rotation_ccw: ((b[props[index - 1].1] % 4) * 90) as u16, ..o }
        } else if props[index - 1].0 == kind_imir() {
            Orientation {
                mirror: Some(
                    if b[props[index - 1].1] % 2 == 1 {
                        Mirror::Vertical
                    } else {
                        Mirror::Horizontal
                    },
                ),
                ..o
            }
        } else {
            o
        };
        apply_properties_spec(b, props, indices.drop_first(), next)
    }
}

/// The primary item's orientation in a HEIF head: `meta` (a FullBox, so its
/// children start four bytes in) -> `pitm` for the primary item id, and
/// `iprp` -> `ipco` (the property array) and `ipma` (its associations).
pub open spec fn heif_orientation_spec(b: Seq<u8>) -> Option<Orientation> {
    match find_box_spec(b, 0, b.len() as int, kind_meta()) {
        None => None,
        Some(meta) => if meta.1 + 4 > meta.2 {
            None
        } else {
            let children = meta.1 + 4;
            match primary_item_spec(b, children, meta.2) {
                None => None,
                Some(primary) => match find_box_spec(b, children, meta.2, kind_iprp()) {
                    None => None,
                    Some(iprp) => match find_box_spec(b, iprp.1, iprp.2, kind_ipco()) {
                        None => None,
                        Some(ipco) => match find_box_spec(b, iprp.1, iprp.2, kind_ipma()) {
                            None => None,
                            Some(ipma) => match property_indices_spec(b, ipma.1, primary) {
                                None => None,
                                Some(indices) => Some(
                                    apply_properties_spec(
                                        b,
                                        list_boxes_spec(b, ipco.1, ipco.2),
                                        indices,
                                        upright(),
                                    ),
                                ),
                            },
                        },
                    },
                },
            }
        },
    }
}

/// A rotation that an `irot` can express.
pub open spec fn is_quarter_turn(r: u16) -> bool {
    r == 0 || r == 90 || r == 180 || r == 270
}

proof fn lemma_apply_keeps_quarter_turns(b: Seq<u8>, props: Seq<BoxSpan>, indices: Seq<u16>, o: Orientation)
    requires
        is_quarter_turn(o.rotation_ccw),
    ensures
        is_quarter_turn(apply_properties_spec(b, props, indices, o).rotation_ccw),
    decreases indices.len(),
{
    if indices.len() > 0 {
        let index = indices[0] as int;
        if index != 0 && index - 1 < props.len() && in_bounds(b, props[index - 1].1, 1)
            && props[index - 1].0 == kind_irot() {
            let v = b[props[index - 1].1] % 4;
            assert(v == 0 || v == 1 || v == 2 || v == 3);
        }
        let next = if index == 0 || index - 1 >= props.len() {
            o
        } else if !in_bounds(b, props[index - 1].1, 1) {
            o
        } else if props[index - 1].0 == kind_irot() {
            Orientation { rotation_ccw: ((b[props[index - 1].1] % 4) * 90) as u16, ..o }
        } else if props[index - 1].0 == kind_imir() {
            Orientation {
                mirror: Some(
                    if b[props[index - 1].1] % 2 == 1 {
                        Mirror::Vertical
                    } else {
                        Mirror::Horizontal
                    },
                ),
                ..o
            }
        } else {
            o
        };
        lemma_apply_keeps_quarter_turns(b, props, indices.drop_first(), next);
    }
}

/// Whatever a HEIF head says, its orientation is a quarter turn.
pub proof fn lemma_heif_orientation_is_quarter_turn(b: Seq<u8>)
    ensures
        heif_orientation_spec(b) matches Some(o) ==> is_quarter_turn(o.rotation_ccw),
{
    if let Some(meta) = find_box_spec(b, 0, b.len() as int, kind_meta()) {
        if meta.1 + 4 <= meta.2 {
            let children = meta.1 + 4;
            if let Some(primary) = primary_item_spec(b, children, meta.2) {
                if let Some(iprp) = find_box_spec(b, children, meta.2, kind_iprp()) {
                    if let Some(ipco) = find_box_spec(b, iprp.1, iprp.2, kind_ipco()) {
                        if let Some(ipma) = find_box_spec(b, iprp.1, iprp.2, kind_ipma()) {
                            if let Some(indices) = property_indices_spec(b, ipma.1, primary) {
                                lemma_apply_keeps_quarter_turns(b, list_boxes_spec(b, ipco.1, ipco.2), indices, upright());
                            }
                        }
                    }
                }
            }
        }
    }
}

/// Walks `meta` -> `pitm`/`iprp` to resolve the primary item's orientation.
/// Returns None for anything that is not a parseable HEIF head, so callers can
/// fall back to treating the image as upright.
/// @param buf - the head of the file, covering at least the `meta` box
pub fn parse_orientation(buf: &[u8]) -> (res: Option<Orientation>)
    ensures
        res == heif_orientation_spec(buf@),
        res matches Some(o) ==> is_quarter_turn(o.rotation_ccw),
{
    let n = buf.len();
    let meta = match find_box(buf, 0, n, &[0x6du8, 0x65u8, 0x74u8, 0x61u8]) {
        Some(bx) => bx,
        None => {
            assert([0x6du8, 0x65u8, 0x74u8, 0x61u8]@ =~= kind_meta());
            return None;
        },
    };
    assert([0x6du8, 0x65u8, 0x74u8, 0x61u8]@ =~= kind_meta());
    if meta.start > meta.end || meta.end - meta.start < 4 {
        return None;
    }
    let children = meta.start + 4;
    let primary_id = match read_primary_item_id(buf, children, meta.end) {
        Some(id) => id,
        None => return None,
    };
    assert([0x69u8, 0x70u8, 0x72u8, 0x70u8]@ =~= kind_iprp());
    assert([0x69u8, 0x70u8, 0x63u8, 0x6fu8]@ =~= kind_ipco());
    assert([0x69u8, 0x70u8, 0x6du8, 0x61u8]@ =~= kind_ipma());
    let iprp = match find_box(buf, children, meta.end, &[0x69u8, 0x70u8, 0x72u8, 0x70u8]) {
        Some(bx) => bx,
        None => return None,
    };
    let ipco = match find_box(buf, iprp.start, iprp.end, &[0x69u8, 0x70u8, 0x63u8, 0x6fu8]) {
        Some(bx) => bx,
        None => return None,
    };
    let ipma = match find_box(buf, iprp.start, iprp.end, &[0x69u8, 0x70u8, 0x6du8, 0x61u8]) {
        Some(bx) => bx,
        None => return None,
    };
    let properties = list_boxes(buf, ipco.start, ipco.end);
    let indices = match property_indices_for(buf, &ipma, primary_id) {
        Some(v) => v,
        None => return None,
    };
    let ghost props = properties@.map_values(|bx: BoxRef| bx.span());
    let mut orientation = Orientation { rotation_ccw: 0, mirror: None };
    let irot: [u8; 4] = [0x69u8, 0x72u8, 0x6fu8, 0x74u8];
    let imir: [u8; 4] = [0x69u8, 0x6du8, 0x69u8, 0x72u8];
    assert(irot@ =~= kind_irot());
    assert(imir@ =~= kind_imir());
    let mut k: usize = 0;
    assert(indices@.skip(0) =~= indices@);
    while k < indices.len()
        invariant
            k <= indices@.len(),
            props == properties@.map_values(|bx: BoxRef| bx.span()),
            props.len() == properties@.len(),
            irot@ == kind_irot(),
            imir@ == kind_imir(),
            apply_properties_spec(buf@, props, indices@, upright()) == apply_properties_spec(
                buf@,
                props,
                indices@.skip(k as int),
                orientation,
            ),
        decreases indices.len() - k,
    {
        let index = indices[k];
        assert(indices@.skip(k as int)[0] == index);
        assert(indices@.skip(k as int).drop_first() =~= indices@.skip(k + 1));
        if index != 0 && ((index - 1) as usize) < properties.len() {
            let property = &properties[(index - 1) as usize];
            assert(props[index - 1] == property.span());
            if property.start < buf.len() {
                let payload = buf[property.start];
                if property.is(&irot) {
                    orientation.rotation_ccw = ((payload % 4) as u16) * 90;
                } else if property.is(&imir) {
                    orientation.mirror = Some(
                        if payload % 2 == 1 {
                            Mirror::Vertical
                        } else {
                            Mirror::Horizontal
                        },
                    );
                }
            }
        }
        k += 1;
    }
    proof {
        lemma_apply_keeps_quarter_turns(buf@, props, indices@, upright());
    }
    Some(orientation)
}

} // verus!
