//! Turning a phone's media into JPEGs a browser will actually display: the
//! ffmpeg filter graphs and stream choices behind the still renderer.
//!
//! An iPhone stores a photo as a **tile grid** alongside a grayscale HDR gain
//! map. ffmpeg's default stream pick lands on the gain map, so the primary
//! stream group's tiles are reassembled with `xstack` from the offsets
//! ffprobe reports; stitching bypasses ffmpeg's auto-rotation, so the
//! orientation is applied as a filter before scaling.

use vstd::prelude::*;

use crate::orientation::{filters_spec, Orientation};
use crate::text::{chars_starts_with, decimal, decimal_chars, push_chars, str_chars, str_eq, string_push};

verus! {

/// Paths to the external tools used to decode media.
#[derive(Debug)]
pub struct MediaTools {
    /// Path to the `ffmpeg` binary.
    pub ffmpeg: String,
    /// Path to the `ffprobe` binary.
    pub ffprobe: String,
}

/// The dispositions of a stream group; `default` marks the file's primary image.
#[derive(Debug)]
pub struct GroupDisposition {
    pub default: u8,
}

/// One tile: which stream carries it and where it sits in the grid.
#[derive(Debug)]
pub struct Subcomponent {
    pub stream_index: u32,
    pub tile_horizontal_offset: u32,
    pub tile_vertical_offset: u32,
}

/// The assembled geometry of a tile grid: the visible size plus where each
/// tile belongs within it.
#[derive(Debug)]
pub struct GroupComponent {
    pub width: u32,
    pub height: u32,
    pub subcomponents: Vec<Subcomponent>,
}

/// A stream group as `ffprobe -show_stream_groups` reports it: one derived
/// image (the photo, the gain map, the HDR rendition) assembled from tiles.
#[derive(Debug)]
pub struct StreamGroup {
    pub disposition: GroupDisposition,
    pub components: Vec<GroupComponent>,
}

/// A plain (non-grouped) stream, used by the fallback path.
#[derive(Debug)]
pub struct ProbeStream {
    pub index: u32,
    pub codec_type: String,
    pub width: u32,
    pub height: u32,
    pub pix_fmt: String,
}

/// What `ffprobe -show_stream_groups -show_streams` reports about a file.
#[derive(Debug)]
pub struct ProbeOutput {
    pub stream_groups: Vec<StreamGroup>,
    pub streams: Vec<ProbeStream>,
}

/// How the still renderer points ffmpeg at the right pixels.
#[derive(Debug)]
pub enum FilterPlan {
    /// A `-filter_complex` graph producing `[o]` (the stitched tile grid).
    Complex(String),
    /// A single input stream selected by index, plus a simple filter chain.
    Mapped { index: u32, chain: String },
    /// Let ffmpeg choose the stream (last resort), plus a simple filter chain.
    Default { chain: String },
}

/// `scale=<d>:<d>:force_original_aspect_ratio=decrease`, after the
/// orientation's own filters when it needs any.
pub open spec fn scale_chain_spec(o: Orientation, max_dim: u32) -> Seq<char> {
    let scale = "scale="@ + decimal(max_dim as nat) + seq![':'] + decimal(max_dim as nat)
        + ":force_original_aspect_ratio=decrease"@;
    match filters_spec(o) {
        Some(f) => f + seq![','] + scale,
        None => scale,
    }
}

/// Builds the `[rotation,]scale=...` chain bounding the output to `max_dim`.
/// `force_original_aspect_ratio=decrease` keeps the aspect and never upscales
/// past the bounding box.
/// @param orientation - transform to apply before scaling
/// @param max_dim - longest-edge bound for the output
pub fn scale_chain(orientation: &Orientation, max_dim: u32) -> (res: String)
    ensures
        res@ == scale_chain_spec(*orientation, max_dim),
{
    let d = decimal_chars(max_dim as u64);
    let mut out = match orientation.ffmpeg_filters() {
        Some(f) => {
            let mut f = f;
            string_push(&mut f, ',');
            f
        },
        None => String::new(),
    };
    let ghost prefix = out@;
    out.append("scale=");
    push_chars(&mut out, &d);
    string_push(&mut out, ':');
    push_chars(&mut out, &d);
    out.append(":force_original_aspect_ratio=decrease");
    assert(out@ =~= prefix + ("scale="@ + decimal(max_dim as nat) + seq![':'] + decimal(max_dim as nat)
        + ":force_original_aspect_ratio=decrease"@));
    out
}

/// `[0:<stream>]` for one tile.
pub open spec fn tile_input(t: Subcomponent) -> Seq<char> {
    "[0:"@ + decimal(t.stream_index as nat) + seq![']']
}

/// `<x>_<y>` for one tile.
pub open spec fn tile_position(t: Subcomponent) -> Seq<char> {
    decimal(t.tile_horizontal_offset as nat) + seq!['_'] + decimal(t.tile_vertical_offset as nat)
}

/// The stitch's input pads, one per tile in order.
pub open spec fn tile_inputs(ts: Seq<Subcomponent>) -> Seq<char>
    decreases ts.len(),
{
    if ts.len() == 0 {
        Seq::empty()
    } else {
        tile_inputs(ts.drop_last()) + tile_input(ts.last())
    }
}

/// The stitch's layout: each tile's position, joined by `|`.
pub open spec fn tile_layout(ts: Seq<Subcomponent>) -> Seq<char>
    decreases ts.len(),
{
    if ts.len() == 0 {
        Seq::empty()
    } else if ts.len() == 1 {
        tile_position(ts[0])
    } else {
        tile_layout(ts.drop_last()) + seq!['|'] + tile_position(ts.last())
    }
}

/// Index of the first stream group marked as the default (primary) image.
pub open spec fn first_default_group(gs: Seq<StreamGroup>) -> Option<int> {
    if exists|i: int| 0 <= i < gs.len() && gs[i].disposition.default == 1 {
        Some(choose|i: int| 0 <= i < gs.len() && gs[i].disposition.default == 1 && forall|k: int|
            0 <= k < i ==> gs[k].disposition.default != 1)
    } else {
        None
    }
}

/// The group holding the photo: the first default group, else the first group.
pub open spec fn primary_group(gs: Seq<StreamGroup>) -> Option<StreamGroup> {
    match first_default_group(gs) {
        Some(i) => Some(gs[i]),
        None => if gs.len() > 0 {
            Some(gs[0])
        } else {
            None
        },
    }
}

/// The `xstack` graph that reassembles the primary tile grid, crops the
/// padded canvas back to the visible size, applies the orientation and
/// scales; None when the file has no usable tile grid.
pub open spec fn tile_grid_spec(p: ProbeOutput, o: Orientation, max_dim: u32) -> Option<Seq<char>> {
    match primary_group(p.stream_groups@) {
        None => None,
        Some(g) => if g.components@.len() == 0 {
            None
        } else {
            let c = g.components@[0];
            let ts = c.subcomponents@;
            if ts.len() == 0 || c.width == 0 || c.height == 0 {
                None
            } else {
                Some(
                    tile_inputs(ts) + "xstack=inputs="@ + decimal(ts.len()) + ":layout="@ + tile_layout(ts)
                        + ":fill=black[stitched];[stitched]crop="@ + decimal(c.width as nat) + seq![':']
                        + decimal(c.height as nat) + ":0:0,"@ + scale_chain_spec(o, max_dim) + "[o]"@,
                )
            }
        },
    }
}

fn primary_group_index(gs: &Vec<StreamGroup>) -> (res: Option<usize>)
    ensures
        match res {
            Some(i) => i < gs@.len() && primary_group(gs@) == Some(gs@[i as int]),
            None => primary_group(gs@) is None,
        },
{
    let mut i: usize = 0;
    while i < gs.len()
        invariant
            i <= gs@.len(),
            forall|k: int| 0 <= k < i ==> gs@[k].disposition.default != 1,
        decreases gs.len() - i,
    {
        if gs[i].disposition.default == 1 {
            proof {
                let j = choose|j: int| 0 <= j < gs@.len() && gs@[j].disposition.default == 1 && forall|k: int|
                    0 <= k < j ==> gs@[k].disposition.default != 1;
                if j < i {
                } else if j > i {
                    assert(gs@[i as int].disposition.default == 1);
                }
            }
            return Some(i);
        }
        i += 1;
    }
    if gs.len() > 0 {
        Some(0)
    } else {
        None
    }
}

/// Builds the `xstack` graph that reassembles the primary tile grid, applies
/// the orientation and scales the result. Returns None when the file has no
/// primary tile grid (a plain single-item HEIC, a JPEG, a PNG).
/// @param probe - what ffprobe reported
/// @param orientation - transform to apply before scaling
/// @param max_dim - longest-edge bound for the output
pub fn tile_grid_filter(probe: &ProbeOutput, orientation: &Orientation, max_dim: u32) -> (res: Option<String>)
    ensures
        match res {
            Some(g) => tile_grid_spec(*probe, *orientation, max_dim) == Some(g@),
            None => tile_grid_spec(*probe, *orientation, max_dim) is None,
        },
{
    let gi = match primary_group_index(&probe.stream_groups) {
        Some(i) => i,
        None => return None,
    };
    let group = &probe.stream_groups[gi];
    if group.components.len() == 0 {
        return None;
    }
    let component = &group.components[0];
    let ts = &component.subcomponents;
    if ts.len() == 0 || component.width == 0 || component.height == 0 {
        return None;
    }
    let mut out = String::new();
    let mut i: usize = 0;
    while i < ts.len()
        invariant
            i <= ts@.len(),
            out@ == tile_inputs(ts@.take(i as int)),
        decreases ts.len() - i,
    {
        let ghost before = out@;
        out.append("[0:");
        push_chars(&mut out, &decimal_chars(ts[i].stream_index as u64));
        string_push(&mut out, ']');
        i += 1;
        proof {
            assert(ts@.take(i as int).drop_last() =~= ts@.take(i - 1));
            assert(out@ =~= before + tile_input(ts@[i - 1]));
        }
    }
    assert(ts@.take(ts@.len() as int) =~= ts@);
    out.append("xstack=inputs=");
    push_chars(&mut out, &decimal_chars(ts.len() as u64));
    out.append(":layout=");
    let mut j: usize = 0;
    let ghost head = out@;
    while j < ts.len()
        invariant
            j <= ts@.len(),
            out@ == head + tile_layout(ts@.take(j as int)),
        decreases ts.len() - j,
    {
        let ghost before = out@;
        if j > 0 {
            string_push(&mut out, '|');
        }
        push_chars(&mut out, &decimal_chars(ts[j].tile_horizontal_offset as u64));
        string_push(&mut out, '_');
        push_chars(&mut out, &decimal_chars(ts[j].tile_vertical_offset as u64));
        j += 1;
        proof {
            let t = ts@.take(j as int);
            assert(t.drop_last() =~= ts@.take(j - 1));
            assert(t.last() == ts@[j - 1]);
            if j == 1 {
                assert(tile_layout(t) == tile_position(t[0]));
                assert(ts@.take(0) =~= Seq::<Subcomponent>::empty());
            }
            assert(out@ =~= head + tile_layout(t));
        }
    }
    out.append(":fill=black[stitched];[stitched]crop=");
    push_chars(&mut out, &decimal_chars(component.width as u64));
    string_push(&mut out, ':');
    push_chars(&mut out, &decimal_chars(component.height as u64));
    out.append(":0:0,");
    let chain = scale_chain(orientation, max_dim);
    out.append(chain.as_str());
    out.append("[o]");
    assert(out@ =~= tile_grid_spec(*probe, *orientation, max_dim).unwrap());
    Some(out)
}

/// A stream the fallback render may use: video, with a width, and not a
/// grayscale (depth or HDR gain) map.
pub open spec fn is_photo_stream(s: ProbeStream) -> bool {
    s.codec_type@ == "video"@ && s.width > 0 && !(s.pix_fmt@.len() >= 4 && s.pix_fmt@.take(4) == "gray"@)
}

/// A stream's pixel count.
pub open spec fn stream_area(s: ProbeStream) -> int {
    s.width * s.height
}

/// Stream `i` is a genuine image stream at least as large as every image
/// stream before it and larger than every image stream after it: the largest,
/// the last among equals.
pub open spec fn is_largest_photo_stream(ss: Seq<ProbeStream>, i: int) -> bool {
    &&& 0 <= i < ss.len()
    &&& is_photo_stream(ss[i])
    &&& forall|j: int| 0 <= j < i && is_photo_stream(#[trigger] ss[j]) ==> stream_area(ss[j]) <= stream_area(ss[i])
    &&& forall|j: int| i < j < ss.len() && is_photo_stream(#[trigger] ss[j]) ==> stream_area(ss[j]) < stream_area(ss[i])
}

/// At most one stream is the largest image stream, so the fallback render's
/// stream is fixed by what ffprobe reported: no other stream (a smaller
/// embedded thumbnail, a gray gain map, an earlier stream of equal size) can
/// take its place.
pub proof fn lemma_largest_photo_stream_is_unique(ss: Seq<ProbeStream>, i: int, j: int)
    requires
        is_largest_photo_stream(ss, i),
        is_largest_photo_stream(ss, j),
    ensures
        i == j,
{
    if i < j {
        assert(stream_area(ss[j]) < stream_area(ss[i]));
        assert(stream_area(ss[i]) <= stream_area(ss[j]));
    } else if j < i {
        assert(stream_area(ss[i]) < stream_area(ss[j]));
        assert(stream_area(ss[j]) <= stream_area(ss[i]));
    }
}

/// Whenever the probe holds a genuine image stream, one of them is the
/// largest, so the fallback render always has a stream to map.
pub proof fn lemma_some_photo_stream_is_largest(ss: Seq<ProbeStream>)
    requires
        exists|k: int| 0 <= k < ss.len() && is_photo_stream(#[trigger] ss[k]),
    ensures
        exists|i: int| is_largest_photo_stream(ss, i),
    decreases ss.len(),
{
    let n = ss.len() - 1;
    let p = ss.drop_last();
    if exists|k: int| 0 <= k < p.len() && is_photo_stream(#[trigger] p[k]) {
        lemma_some_photo_stream_is_largest(p);
        let i = choose|i: int| is_largest_photo_stream(p, i);
        assert forall|j: int| 0 <= j < i && is_photo_stream(#[trigger] ss[j]) implies stream_area(ss[j])
            <= stream_area(ss[i]) by {
            assert(ss[j] == p[j]);
        }
        if is_photo_stream(ss[n]) && stream_area(ss[n]) >= stream_area(ss[i]) {
            assert forall|j: int| 0 <= j < n && is_photo_stream(#[trigger] ss[j]) implies stream_area(ss[j])
                <= stream_area(ss[n]) by {
                assert(ss[j] == p[j]);
                if j > i {
                    assert(stream_area(p[j]) < stream_area(p[i]));
                }
            }
            assert(is_largest_photo_stream(ss, n));
        } else {
            assert forall|j: int| i < j < ss.len() && is_photo_stream(#[trigger] ss[j]) implies stream_area(ss[j])
                < stream_area(ss[i]) by {
                if j < n {
                    assert(ss[j] == p[j]);
                }
            }
            assert(is_largest_photo_stream(ss, i));
        }
    } else {
        let k = choose|k: int| 0 <= k < ss.len() && is_photo_stream(#[trigger] ss[k]);
        if k < n {
            assert(p[k] == ss[k]);
        }
        assert forall|j: int| 0 <= j < n && is_photo_stream(#[trigger] ss[j]) implies stream_area(ss[j])
            <= stream_area(ss[n]) by {
            assert(p[j] == ss[j]);
        }
        assert(is_largest_photo_stream(ss, n));
    }
}

fn is_photo_stream_exec(s: &ProbeStream) -> (res: bool)
    ensures
        res == is_photo_stream(*s),
{
    let gray = str_chars("gray");
    proof {
        reveal_strlit("gray");
    }
    str_eq(s.codec_type.as_str(), "video") && s.width > 0 && !chars_starts_with(
        &str_chars(s.pix_fmt.as_str()),
        &gray,
    )
}

/// Picks the largest non-grayscale image stream (the last of equals, as
/// `max_by_key` does), so a fallback render lands on the photo rather than
/// on a depth map or an HDR gain map.
/// @param probe - what ffprobe reported
pub fn best_image_stream(probe: &ProbeOutput) -> (res: Option<u32>)
    ensures
        match res {
            None => forall|i: int| 0 <= i < probe.streams@.len() ==> !is_photo_stream(#[trigger] probe.streams@[i]),
            Some(idx) => exists|i: int|
                0 <= i < probe.streams@.len() && is_photo_stream(probe.streams@[i]) && probe.streams@[i].index == idx
                    && (forall|j: int| 0 <= j < i && is_photo_stream(#[trigger] probe.streams@[j]) ==> stream_area(
                    probe.streams@[j]) <= stream_area(probe.streams@[i])) && (forall|j: int|
                    i < j < probe.streams@.len() && is_photo_stream(#[trigger] probe.streams@[j]) ==> stream_area(
                    probe.streams@[j]) < stream_area(probe.streams@[i])),
        },
{
    let ss = &probe.streams;
    let mut best: Option<usize> = None;
    let mut best_area: u64 = 0;
    let mut i: usize = 0;
    while i < ss.len()
        invariant
            i <= ss@.len(),
            match best {
                None => forall|k: int| 0 <= k < i ==> !is_photo_stream(#[trigger] ss@[k]),
                Some(b) => b < i && is_photo_stream(ss@[b as int]) && best_area == stream_area(ss@[b as int])
                    && (forall|k: int| 0 <= k < b && is_photo_stream(#[trigger] ss@[k]) ==> stream_area(ss@[k])
                    <= best_area) && (forall|k: int| b < k < i && is_photo_stream(#[trigger] ss@[k])
                    ==> stream_area(ss@[k]) < best_area),
            },
        decreases ss.len() - i,
    {
        if is_photo_stream_exec(&ss[i]) {
            let w: u64 = ss[i].width as u64;
            let h: u64 = ss[i].height as u64;
            assert(w * h <= u64::MAX) by (nonlinear_arith)
                requires
                    w <= u32::MAX,
                    h <= u32::MAX,
            ;
            let area = w * h;
            match best {
                None => {
                    best = Some(i);
                    best_area = area;
                },
                Some(b) => {
                    if area >= best_area {
                        best = Some(i);
                        best_area = area;
                    }
                },
            }
        }
        i += 1;
    }
    match best {
        None => None,
        Some(b) => Some(ss[b].index),
    }
}

/// The renders `render_still` attempts, in order, until one yields a JPEG:
/// the stitched tile grid when there is one, then the best genuine image
/// stream (or ffmpeg's own pick when there is none), oriented and scaled.
/// @param probe - what ffprobe reported, if it ran
/// @param orientation - the image's display orientation
/// @param max_dim - longest-edge bound for the output
pub fn still_render_plans(probe: Option<&ProbeOutput>, orientation: &Orientation, max_dim: u32) -> (res: Vec<FilterPlan>)
    ensures
        ({
            let grid = match probe {
                Some(p) => tile_grid_spec(*p, *orientation, max_dim),
                None => None,
            };
            let n: int = if grid is Some { 2 } else { 1 };
            &&& res@.len() == n
            &&& grid is Some ==> (res@[0] matches FilterPlan::Complex(g) && g@ == grid.unwrap())
            &&& match res@[n - 1] {
                FilterPlan::Mapped { index, chain } => chain@ == scale_chain_spec(*orientation, max_dim)
                    && probe is Some && (exists|i: int|
                    0 <= i < probe.unwrap().streams@.len() && is_photo_stream(probe.unwrap().streams@[i])
                        && probe.unwrap().streams@[i].index == index) && exists|i: int|
                    is_largest_photo_stream(probe.unwrap().streams@, i) && probe.unwrap().streams@[i].index
                        == index,
                FilterPlan::Default { chain } => chain@ == scale_chain_spec(*orientation, max_dim) && match probe {
                    Some(p) => forall|i: int| 0 <= i < p.streams@.len() ==> !is_photo_stream(#[trigger] p.streams@[i]),
                    None => true,
                },
                FilterPlan::Complex(_) => false,
            }
        }),
{
    let mut plans: Vec<FilterPlan> = Vec::new();
    match probe {
        Some(p) => match tile_grid_filter(p, orientation, max_dim) {
            Some(g) => plans.push(FilterPlan::Complex(g)),
            None => {},
        },
        None => {},
    }
    let chain = scale_chain(orientation, max_dim);
    let fallback = match probe {
        Some(p) => match best_image_stream(p) {
            Some(index) => {
                proof {
                    let ss = p.streams@;
                    let i = choose|i: int|
                        0 <= i < ss.len() && is_photo_stream(ss[i]) && ss[i].index == index && (forall|j: int|
                            0 <= j < i && is_photo_stream(#[trigger] ss[j]) ==> stream_area(ss[j]) <= stream_area(
                            ss[i])) && (forall|j: int|
                            i < j < ss.len() && is_photo_stream(#[trigger] ss[j]) ==> stream_area(ss[j])
                                < stream_area(ss[i]));
                    assert(is_largest_photo_stream(ss, i));
                }
                FilterPlan::Mapped { index, chain }
            },
            None => FilterPlan::Default { chain },
        },
        None => FilterPlan::Default { chain },
    };
    plans.push(fallback);
    plans
}

} // verus!
