//! Turning a phone's video into something the public web will actually play.
//!
//! Every clip published to the media site is re-encoded to H.264 High + AAC,
//! which plays everywhere there is a browser. Two renditions are produced,
//! 1080p and 540p, so the player can pick by connection and viewport; a tiny
//! silent loop is produced for the grid tile.
//!
//! Encoding is libx264 on the CPU, never a GPU encoder: publishing a video
//! must never queue behind other GPU work or take memory from it.
//!
//! This module holds the decisions: which renditions exist, which are worth
//! producing for a source, what the encoder is told, and what a probe of the
//! source reduces to.

use vstd::prelude::*;

use crate::text::{decimal, decimal_chars, push_chars};

verus! {

/// A rendition of a video: the box it is fitted inside and how hard it is
/// squeezed.
#[derive(Debug, Clone, Copy)]
pub struct Rendition {
    /// File name written into the published item's directory.
    pub file_name: &'static str,
    /// Longest edge of the bounding box the video is fitted inside.
    pub max_width: u32,
    /// Shortest edge of that box. A portrait clip is bounded by this on its width.
    pub max_height: u32,
    /// x264 constant rate factor: lower is better quality and a bigger file.
    pub crf: u32,
    /// Ceiling on the bitrate, so one pathological clip cannot produce a huge file.
    pub max_rate_kbps: u32,
}

/// Height of the smallest rendition, the one every clip gets.
pub open spec fn smallest_rendition_height() -> u32 {
    540
}

/// The two renditions every published video gets, largest first:
/// `v1080.mp4` (1920x1080, crf 21, 6000 kbps) and `v540.mp4` (960x540,
/// crf 24, 1800 kbps).
pub fn renditions() -> (r: Vec<Rendition>)
    ensures
        r@.len() == 2,
        r@[0].file_name@ == "v1080.mp4"@,
        r@[0].max_width == 1920,
        r@[0].max_height == 1080,
        r@[0].crf == 21,
        r@[0].max_rate_kbps == 6000,
        r@[1].file_name@ == "v540.mp4"@,
        r@[1].max_width == 960,
        r@[1].max_height == smallest_rendition_height(),
        r@[1].crf == 24,
        r@[1].max_rate_kbps == 1800,
{
    let mut r: Vec<Rendition> = Vec::new();
    r.push(Rendition { file_name: "v1080.mp4", max_width: 1920, max_height: 1080, crf: 21, max_rate_kbps: 6000 });
    r.push(Rendition { file_name: "v540.mp4", max_width: 960, max_height: 540, crf: 24, max_rate_kbps: 1800 });
    r
}

/// What ffprobe reports about a clip, reduced to the parts the publish step
/// needs. The playing time is carried as the bit pattern of its `f64`
/// seconds value; nothing here computes with it.
#[derive(Debug, Clone, Copy)]
pub struct VideoInfo {
    /// Bits of the playing time in seconds (`f64::to_bits`), from the container.
    pub duration_bits: u64,
    /// True when the clip has at least one audio stream. Mapping an audio
    /// stream that is not there fails the whole ffmpeg command.
    pub has_audio: bool,
    /// Coded height of the source, used to skip a rendition larger than the source.
    pub height: u32,
}

impl Default for VideoInfo {
    /// No duration (zero seconds), no audio, unknown height.
    fn default() -> (r: Self)
        ensures
            r.duration_bits == 0,
            !r.has_audio,
            r.height == 0,
    {
        VideoInfo { duration_bits: 0, has_audio: false, height: 0 }
    }
}

/// One stream of `ffprobe -show_streams` output, as far as a video probe
/// reads it.
#[derive(Debug)]
pub struct VideoProbeStream {
    pub codec_type: String,
    pub height: u32,
}

/// Some stream is an audio stream.
pub open spec fn has_audio_stream(ss: Seq<VideoProbeStream>) -> bool {
    exists|i: int| 0 <= i < ss.len() && (#[trigger] ss[i]).codec_type@ == "audio"@
}

/// The tallest video stream's height, 0 when there is no video stream.
pub open spec fn tallest_video(ss: Seq<VideoProbeStream>) -> u32
    decreases ss.len(),
{
    if ss.len() == 0 {
        0
    } else {
        let rest = tallest_video(ss.drop_last());
        if ss.last().codec_type@ == "video"@ && ss.last().height > rest {
            ss.last().height
        } else {
            rest
        }
    }
}

proof fn lemma_tallest_video(ss: Seq<VideoProbeStream>)
    ensures
        forall|i: int| 0 <= i < ss.len() && (#[trigger] ss[i]).codec_type@ == "video"@ ==> ss[i].height
            <= tallest_video(ss),
        tallest_video(ss) == 0 || exists|i: int|
            0 <= i < ss.len() && (#[trigger] ss[i]).codec_type@ == "video"@ && ss[i].height == tallest_video(ss),
    decreases ss.len(),
{
    if ss.len() > 0 {
        let rest = ss.drop_last();
        lemma_tallest_video(rest);
        assert forall|i: int| 0 <= i < ss.len() && (#[trigger] ss[i]).codec_type@ == "video"@ implies ss[i].height
            <= tallest_video(ss) by {
            if i < ss.len() - 1 {
                assert(rest[i] == ss[i]);
            }
        }
        if tallest_video(ss) != 0 {
            if tallest_video(ss) == tallest_video(rest) {
                let j = choose|j: int|
                    0 <= j < rest.len() && (#[trigger] rest[j]).codec_type@ == "video"@ && rest[j].height
                        == tallest_video(rest);
                assert(ss[j] == rest[j]);
            } else {
                assert(ss[ss.len() - 1] == ss.last());
            }
        }
    }
}

/// Reduces a probe to what the publish step needs: whether any stream is
/// audio, and the tallest video stream's height (0 when there is none).
/// The duration is parsed by the caller and handed over as `f64` bits.
/// @param duration_bits - bits of the container's duration in seconds, or of 0.0
/// @param streams - the streams ffprobe listed
pub fn video_info_from_probe(duration_bits: u64, streams: &Vec<VideoProbeStream>) -> (info: VideoInfo)
    ensures
        info.duration_bits == duration_bits,
        info.has_audio == has_audio_stream(streams@),
        info.height == tallest_video(streams@),
        forall|i: int|
            0 <= i < streams@.len() && (#[trigger] streams@[i]).codec_type@ == "video"@ ==> streams@[i].height
                <= info.height,
{
    let mut has_audio = false;
    let mut height: u32 = 0;
    let mut i: usize = 0;
    proof {
        reveal_strlit("audio");
        reveal_strlit("video");
    }
    while i < streams.len()
        invariant
            i <= streams@.len(),
            has_audio == has_audio_stream(streams@.take(i as int)),
            height == tallest_video(streams@.take(i as int)),
        decreases streams.len() - i,
    {
        let ghost prev = streams@.take(i as int);
        let s = &streams[i];
        let is_audio = crate::text::str_eq(s.codec_type.as_str(), "audio");
        let is_video = crate::text::str_eq(s.codec_type.as_str(), "video");
        if is_audio {
            has_audio = true;
        }
        if is_video && s.height > height {
            height = s.height;
        }
        i += 1;
        proof {
            let cur = streams@.take(i as int);
            assert(cur.drop_last() =~= prev);
            assert(cur.last() == streams@[i - 1]);
            if has_audio_stream(cur) && !is_audio {
                let k = choose|k: int| 0 <= k < cur.len() && (#[trigger] cur[k]).codec_type@ == "audio"@;
                assert(k < cur.len() - 1);
                assert(prev[k] == cur[k]);
            }
            if is_audio {
                assert(cur[cur.len() - 1] == cur.last());
            }
            if has_audio_stream(prev) {
                let k = choose|k: int| 0 <= k < prev.len() && (#[trigger] prev[k]).codec_type@ == "audio"@;
                assert(cur[k] == prev[k]);
            }
        }
    }
    assert(streams@.take(streams@.len() as int) =~= streams@);
    proof {
        lemma_tallest_video(streams@);
    }
    VideoInfo { duration_bits, has_audio, height }
}

/// True when a rendition is worth producing for a source of this height.
///
/// Re-encoding a 540p clip up to a "1080p" rendition produces a bigger file
/// with no more detail in it, so a rendition taller than the smallest one is
/// skipped when the source is already at or below the smallest. The smallest
/// is always produced (it is the fallback for a slow connection), and a source
/// of unknown height (0) gets every rendition.
/// @param rendition - the candidate rendition
/// @param info - what the probe reported about the source
pub fn is_worth_producing(rendition: &Rendition, info: &VideoInfo) -> (res: bool)
    ensures
        res == (rendition.max_height <= smallest_rendition_height() || info.height == 0 || info.height
            > smallest_rendition_height()),
{
    let all = renditions();
    let smallest = all[all.len() - 1].max_height;
    if rendition.max_height <= smallest {
        return true;
    }
    info.height == 0 || info.height > smallest
}

/// The views of a list of strings.
pub open spec fn arg_views(v: Seq<String>) -> Seq<Seq<char>> {
    v.map_values(|s: String| s@)
}

/// `scale=w=<W>:h=<H>:force_original_aspect_ratio=decrease:force_divisible_by=2`:
/// fitted inside the box, never upscaled, even dimensions.
pub open spec fn rendition_scale(r: Rendition) -> Seq<char> {
    "scale=w="@ + decimal(r.max_width as nat) + ":h="@ + decimal(r.max_height as nat)
        + ":force_original_aspect_ratio=decrease:force_divisible_by=2"@
}

/// The audio mapping, present only when the source has audio.
pub open spec fn audio_map(info: VideoInfo) -> Seq<Seq<char>> {
    if info.has_audio {
        seq!["-map"@, "0:a:0"@]
    } else {
        Seq::empty()
    }
}

/// The audio encoding, present only when the source has audio.
pub open spec fn audio_codec(info: VideoInfo) -> Seq<Seq<char>> {
    if info.has_audio {
        seq!["-c:a"@, "aac"@, "-b:a"@, "160k"@, "-ac"@, "2"@]
    } else {
        Seq::empty()
    }
}

/// The x264 settings: High profile, level 4.1, the rendition's quality and
/// bitrate ceiling (with a buffer of twice the ceiling), 4:2:0, the fitted
/// scale, and a keyframe every 60 frames so seeking stays responsive.
pub open spec fn video_codec(r: Rendition) -> Seq<Seq<char>> {
    seq![
        "-c:v"@, "libx264"@,
        "-profile:v"@, "high"@,
        "-level"@, "4.1"@,
        "-preset"@, "veryfast"@,
        "-crf"@, decimal(r.crf as nat),
        "-maxrate"@, decimal(r.max_rate_kbps as nat) + "k"@,
        "-bufsize"@, decimal(2 * r.max_rate_kbps as nat) + "k"@,
        "-pix_fmt"@, "yuv420p"@,
        "-vf"@, rendition_scale(r),
        "-g"@, "60"@,
        "-keyint_min"@, "60"@,
        "-sc_threshold"@, "0"@
    ]
}

/// Everything ffmpeg is told between the input and the output file when
/// encoding one rendition: the first video stream, the first audio stream
/// when there is one, the video and audio codecs, and `+faststart` so that
/// playback can begin from the first bytes.
pub open spec fn rendition_options_spec(r: Rendition, info: VideoInfo) -> Seq<Seq<char>> {
    seq!["-map"@, "0:v:0"@] + audio_map(info) + video_codec(r) + audio_codec(info) + seq![
        "-movflags"@,
        "+faststart"@,
    ]
}

/// Every rendition is fitted inside its own box, whatever the source carries:
/// for any rendition and any source (with audio or without), the encoder
/// options hold `-vf` followed at once by
/// `scale=w=<max_width>:h=<max_height>:force_original_aspect_ratio=decrease:force_divisible_by=2`.
/// They also always pick the first video stream first and end with
/// `-movflags +faststart`, and a source with audio gets its first audio
/// stream mapped and encoded as AAC.
pub proof fn lemma_every_rendition_is_scaled_to_its_box(r: Rendition, info: VideoInfo)
    ensures
        ({
            let opts = rendition_options_spec(r, info);
            &&& exists|k: int|
                0 <= k && k + 1 < opts.len() && #[trigger] opts[k] == "-vf"@ && opts[k + 1] == "scale=w="@ + decimal(
                    r.max_width as nat,
                ) + ":h="@ + decimal(r.max_height as nat)
                    + ":force_original_aspect_ratio=decrease:force_divisible_by=2"@
            &&& opts.len() >= 4 && opts[0] == "-map"@ && opts[1] == "0:v:0"@
            &&& opts[opts.len() - 2] == "-movflags"@ && opts[opts.len() - 1] == "+faststart"@
            &&& info.has_audio ==> (exists|k: int|
                0 <= k && k + 1 < opts.len() && #[trigger] opts[k] == "-map"@ && opts[k + 1] == "0:a:0"@) && (exists|k: int|
                0 <= k && k + 1 < opts.len() && #[trigger] opts[k] == "-c:a"@ && opts[k + 1] == "aac"@)
        }),
{
    let opts = rendition_options_spec(r, info);
    let a = audio_map(info).len() as int;
    let k = 2 + a + 16;
    assert(opts[k] == "-vf"@);
    assert(opts[k + 1] == rendition_scale(r));
    if info.has_audio {
        assert(opts[2] == "-map"@ && opts[3] == "0:a:0"@);
        let c = 2 + a + 24;
        assert(opts[c] == "-c:a"@ && opts[c + 1] == "aac"@);
    }
}

fn push_str(args: &mut Vec<String>, a: &str)
    ensures
        arg_views(final(args)@) == arg_views(old(args)@).push(a@),
{
    let s = a.to_owned();
    args.push(s);
    assert(arg_views(args@) =~= arg_views(old(args)@).push(a@));
}

fn push_string(args: &mut Vec<String>, a: String)
    ensures
        arg_views(final(args)@) == arg_views(old(args)@).push(a@),
{
    let ghost v = a@;
    args.push(a);
    assert(arg_views(args@) =~= arg_views(old(args)@).push(v));
}

fn decimal_string(n: u64, suffix: &str) -> (res: String)
    ensures
        res@ == decimal(n as nat) + suffix@,
{
    let mut s = String::new();
    push_chars(&mut s, &decimal_chars(n));
    s.append(suffix);
    s
}

/// The encoder options for one rendition of a clip (see
/// `rendition_options_spec`); the caller puts the input before them and the
/// output file after them.
/// The buffer size is twice the bitrate ceiling in `u32` arithmetic, so the
/// ceiling must leave room for that doubling.
/// @param rendition - the target size and quality
/// @param info - what the probe reported about the source
pub fn rendition_options(rendition: &Rendition, info: &VideoInfo) -> (args: Vec<String>)
    requires
        2 * rendition.max_rate_kbps <= u32::MAX,
    ensures
        arg_views(args@) == rendition_options_spec(*rendition, *info),
{
    let mut args: Vec<String> = Vec::new();
    push_str(&mut args, "-map");
    push_str(&mut args, "0:v:0");
    if info.has_audio {
        push_str(&mut args, "-map");
        push_str(&mut args, "0:a:0");
    }
    push_str(&mut args, "-c:v");
    push_str(&mut args, "libx264");
    push_str(&mut args, "-profile:v");
    push_str(&mut args, "high");
    push_str(&mut args, "-level");
    push_str(&mut args, "4.1");
    push_str(&mut args, "-preset");
    push_str(&mut args, "veryfast");
    push_str(&mut args, "-crf");
    push_string(&mut args, decimal_string(rendition.crf as u64, ""));
    push_str(&mut args, "-maxrate");
    push_string(&mut args, decimal_string(rendition.max_rate_kbps as u64, "k"));
    push_str(&mut args, "-bufsize");
    push_string(&mut args, decimal_string(2 * (rendition.max_rate_kbps as u64), "k"));
    push_str(&mut args, "-pix_fmt");
    push_str(&mut args, "yuv420p");
    push_str(&mut args, "-vf");
    let mut scale = String::new();
    scale.append("scale=w=");
    push_chars(&mut scale, &decimal_chars(rendition.max_width as u64));
    scale.append(":h=");
    push_chars(&mut scale, &decimal_chars(rendition.max_height as u64));
    scale.append(":force_original_aspect_ratio=decrease:force_divisible_by=2");
    push_string(&mut args, scale);
    push_str(&mut args, "-g");
    push_str(&mut args, "60");
    push_str(&mut args, "-keyint_min");
    push_str(&mut args, "60");
    push_str(&mut args, "-sc_threshold");
    push_str(&mut args, "0");
    if info.has_audio {
        push_str(&mut args, "-c:a");
        push_str(&mut args, "aac");
        push_str(&mut args, "-b:a");
        push_str(&mut args, "160k");
        push_str(&mut args, "-ac");
        push_str(&mut args, "2");
    }
    push_str(&mut args, "-movflags");
    push_str(&mut args, "+faststart");
    proof {
        reveal_strlit("");
    }
    assert(arg_views(args@) =~= rendition_options_spec(*rendition, *info));
    args
}

} // verus!
