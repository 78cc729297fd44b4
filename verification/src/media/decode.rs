//! Decoded frames of a video, one at a time: single previews and continuous playback.
use crate::media::args::{Arg, Args};
use crate::media::probe::Video;
use crate::number::Real64;
use crate::text::{decimal_text, join, join3, owned};
use vstd::prelude::*;

verus! {

/// The filters a decode runs frames through, in order: its times from zero, the one frame
/// asked for, a constant rate, standard dynamic range, and the size the video shows at.
pub open spec fn filters(video: Video, fps: Option<Seq<char>>, frame: Option<u64>) -> Seq<char> {
    "setpts=PTS-STARTPTS"@ + (match frame {
        Some(frame) => ",select=eq(n\\,"@ + crate::text::decimal(frame as nat) + ")"@,
        None => Seq::empty(),
    }) + (match fps {
        Some(fps) => ",fps="@ + fps + ":start_time=0:round=near"@,
        None => Seq::empty(),
    }) + (if video.hdr {
        ",zscale=t=linear:npl=100,format=gbrpf32le,zscale=p=bt709,tonemap=tonemap=mobius:desat=0,zscale=t=bt709:m=bt709:r=full"@
    } else {
        Seq::empty()
    }) + ",scale="@ + crate::text::decimal(video.size.0 as nat) + ":"@ + crate::text::decimal(
        video.size.1 as nat,
    ) + ":flags=lanczos,setsar=1"@
}

fn filter_text(video: &Video, fps: Option<&str>, frame: Option<u64>) -> (r: String)
    ensures
        r@ == filters(
            *video,
            match fps {
                Some(fps) => Some(fps@),
                None => None,
            },
            frame,
        ),
{
    let mut r: String = owned("setpts=PTS-STARTPTS");
    match frame {
        // Select by decoded frame ordinal, including VFR sources. Decode from the start to
        // avoid timestamp rounding and keyframe seeks skipping or repeating frames.
        Some(frame) => {
            let text: String = join3(",select=eq(n\\,", decimal_text(frame).as_str(), ")");
            r.append(text.as_str());
        },
        None => {
            assert(r@ == "setpts=PTS-STARTPTS"@ + Seq::<char>::empty());
        },
    }
    let ghost before = r@;
    match fps {
        Some(fps) => {
            let text: String = join3(",fps=", fps, ":start_time=0:round=near");
            r.append(text.as_str());
        },
        None => {
            assert(r@ == before + Seq::<char>::empty());
        },
    }
    let ghost before = r@;
    if video.hdr {
        r.append(
            ",zscale=t=linear:npl=100,format=gbrpf32le,zscale=p=bt709,tonemap=tonemap=mobius:desat=0,zscale=t=bt709:m=bt709:r=full",
        );
    } else {
        assert(r@ == before + Seq::<char>::empty());
    }
    r.append(",scale=");
    r.append(decimal_text(video.size.0 as u64).as_str());
    r.append(":");
    r.append(decimal_text(video.size.1 as u64).as_str());
    r.append(":flags=lanczos,setsar=1");
    r
}

pub open spec fn decode_args(
    video: Video,
    fps: Option<Seq<char>>,
    time: Real64,
    frame: Option<u64>,
) -> Seq<crate::media::args::Said> {
    crate::media::args::ffmpeg_start() + (if Real64::of(0).below(time) {
        seq![
            crate::media::args::Said::Text("-ss"@),
            crate::media::args::Said::Number(time),
        ]
    } else {
        Seq::empty()
    }) + crate::media::args::texts(
        seq![
            "-i"@,
            video.path@,
            "-map"@,
            "0:"@ + crate::text::decimal(video.stream as nat),
            "-an"@,
            "-sn"@,
            "-dn"@,
            "-vf"@,
            filters(video, fps, frame),
        ],
    ) + (if fps is None {
        crate::media::args::texts(seq!["-frames:v"@, "1"@])
    } else {
        Seq::empty()
    }) + crate::media::args::texts(seq!["-pix_fmt"@, "rgba"@, "-f"@, "rawvideo"@, "pipe:1"@])
}

/// The decoder: packed RGBA frames of the video at the size it shows at, from `time` on. A
/// sequence at the constant rate `fps`, or else one frame, the first or number `frame`.
pub fn decode_command(video: &Video, fps: Option<&str>, time: Real64, frame: Option<u64>) -> (r:
    Args)
    ensures
        r@ == decode_args(
            *video,
            match fps {
                Some(fps) => Some(fps@),
                None => None,
            },
            time,
            frame,
        ),
{
    let mut cmd: Args = Args::ffmpeg();
    // Seeking is input-relative and preview-only; full exports always start at zero.
    if Real64::from_integer(0).less(time) {
        cmd.text("-ss");
        cmd.number(time);
    }
    let stream: String = join("0:", decimal_text(video.stream).as_str());
    let filter: String = filter_text(video, fps, frame);
    cmd.add(
        [
            "-i",
            video.path.as_str(),
            "-map",
            stream.as_str(),
            "-an",
            "-sn",
            "-dn",
            "-vf",
            filter.as_str(),
        ],
    );
    if fps.is_none() {
        cmd.add(["-frames:v", "1"]);
    }
    cmd.add(["-pix_fmt", "rgba", "-f", "rawvideo", "pipe:1"]);
    cmd
}

/// The arguments of a decode at a constant rate that stops after so many seconds, where it is
/// limited: the limit comes right before the output.
pub open spec fn span_args(
    video: Video,
    fps: Seq<char>,
    time: Real64,
    limit: Option<Real64>,
) -> Seq<crate::media::args::Said> {
    let whole = decode_args(video, Some(fps), time, None);
    match limit {
        Some(limit) => whole.drop_last() + seq![
            crate::media::args::Said::Text("-t"@),
            crate::media::args::Said::Number(limit),
            whole.last(),
        ],
        None => whole,
    }
}

/// The decoder of an export: the frames at the constant rate `fps` from `time` on, for `limit`
/// seconds at most.
pub fn decode_span(video: &Video, fps: &str, time: Real64, limit: Option<Real64>) -> (r: Args)
    ensures
        r@ == span_args(*video, fps@, time, limit),
{
    let mut cmd: Args = decode_command(video, Some(fps), time, None);
    let ghost whole = cmd@;
    if let Some(limit) = limit {
        let output: Option<Arg> = cmd.list.pop();
        assert(cmd@ == whole.drop_last());
        cmd.text("-t");
        cmd.number(limit);
        if let Some(output) = output {
            cmd.push(output);
        }
    }
    cmd
}

/// Decoded frames come out as red, green, blue and alpha, a byte each, the way pictures hold them,
/// from the stream that is the video's, and from no earlier than asked.
pub proof fn decoded_frames_are_rgba(
    video: Video,
    fps: Option<Seq<char>>,
    time: Real64,
    frame: Option<u64>,
)
    ensures
        crate::media::args::writes_frames(decode_args(video, fps, time, frame), "rgba"@),
        crate::media::args::told(
            decode_args(video, fps, time, frame),
            "-i"@,
            crate::media::args::Said::Text(video.path@),
        ),
        crate::media::args::told(
            decode_args(video, fps, time, frame),
            "-map"@,
            crate::media::args::Said::Text("0:"@ + crate::text::decimal(video.stream as nat)),
        ),
        crate::media::args::told(
            decode_args(video, fps, time, frame),
            "-vf"@,
            crate::media::args::Said::Text(filters(video, fps, frame)),
        ),
        Real64::of(0).below(time) ==> crate::media::args::told(
            decode_args(video, fps, time, frame),
            "-ss"@,
            crate::media::args::Said::Number(time),
        ),
        fps is None ==> crate::media::args::told(
            decode_args(video, fps, time, frame),
            "-frames:v"@,
            crate::media::args::Said::Text("1"@),
        ),
{
    let args = decode_args(video, fps, time, frame);
    let n = args.len() as int;
    assert(args[n - 5] == crate::media::args::Said::Text("-pix_fmt"@));
    assert(args[n - 4] == crate::media::args::Said::Text("rgba"@));
    assert(args[n - 3] == crate::media::args::Said::Text("-f"@));
    assert(args[n - 2] == crate::media::args::Said::Text("rawvideo"@));
    let s: int = if Real64::of(0).below(time) {
        assert(args[3] == crate::media::args::Said::Text("-ss"@));
        assert(args[4] == crate::media::args::Said::Number(time));
        5
    } else {
        3
    };
    assert(args[s] == crate::media::args::Said::Text("-i"@));
    assert(args[s + 1] == crate::media::args::Said::Text(video.path@));
    assert(args[s + 2] == crate::media::args::Said::Text("-map"@));
    assert(args[s + 3] == crate::media::args::Said::Text(
        "0:"@ + crate::text::decimal(video.stream as nat),
    ));
    assert(args[s + 7] == crate::media::args::Said::Text("-vf"@));
    assert(args[s + 8] == crate::media::args::Said::Text(filters(video, fps, frame)));
    if fps is None {
        assert(args[s + 9] == crate::media::args::Said::Text("-frames:v"@));
        assert(args[s + 10] == crate::media::args::Said::Text("1"@));
    }
}

/// A decode that is limited says so, and still hands over the same frames.
pub proof fn limited_decodes_are_rgba(
    video: Video,
    fps: Seq<char>,
    time: Real64,
    limit: Option<Real64>,
)
    ensures
        crate::media::args::writes_frames(span_args(video, fps, time, limit), "rgba"@),
        limit matches Some(limit) ==> crate::media::args::told(
            span_args(video, fps, time, Some(limit)),
            "-t"@,
            crate::media::args::Said::Number(limit),
        ),
{
    let whole = decode_args(video, Some(fps), time, None);
    decoded_frames_are_rgba(video, Some(fps), time, None);
    let n = whole.len() as int;
    let args = span_args(video, fps, time, limit);
    assert(args[n - 5] == crate::media::args::Said::Text("-pix_fmt"@));
    assert(args[n - 4] == crate::media::args::Said::Text("rgba"@));
    assert(args[n - 3] == crate::media::args::Said::Text("-f"@));
    assert(args[n - 2] == crate::media::args::Said::Text("rawvideo"@));
    if limit is Some {
        assert(args[n - 1] == crate::media::args::Said::Text("-t"@));
        assert(args[n] == crate::media::args::Said::Number(limit->0));
    }
}

/// A time outside a video.
#[derive(Clone, Copy, Debug, PartialEq, Eq, Structural)]
pub struct OutsideVideo;

/// The decoder of the frame shown at `time` seconds.
pub fn preview(video: &Video, time: Real64) -> (r: Result<Args, OutsideVideo>)
    ensures
        match r {
            Ok(args) => time.finite() && Real64::of(0).up_to(time) && time.below(video.duration)
                && args@ == decode_args(*video, None, time, None),
            Err(_) => !(time.finite() && Real64::of(0).up_to(time) && time.below(video.duration)),
        },
{
    if time.is_finite() && Real64::from_integer(0).at_most(time) && time.less(video.duration) {
        Ok(decode_command(video, None, time, None))
    } else {
        Err(OutsideVideo)
    }
}

/// The decoder of the frame numbered `frame`, counting from 0 in decoding order.
pub fn preview_frame(video: &Video, frame: u64) -> (r: Args)
    ensures
        r@ == decode_args(*video, None, Real64::of(0), Some(frame)),
{
    decode_command(video, None, Real64::from_integer(0), Some(frame))
}

// -------------------------------------------------------------------------------------------
// Playback
// -------------------------------------------------------------------------------------------

/// The bits of 0.2.
pub const HISTORY: u64 = 0x3FC9_9999_9999_999A;

/// The bits of 0.00001.
pub const SLACK: u64 = 0x3EE4_F8B5_88E3_68F1;

/// Where decoding for playback from `start` begins, in seconds: a fifth of a second before it,
/// so the phosphor's history is that of the frames before, or at the beginning.
pub open spec fn preroll_of(start: Real64) -> Real64 {
    let early = start.minus(Real64 { bits: HISTORY });
    if early.below(Real64::of(0)) || crate::float::Format::Double.nan(early.at()) {
        Real64::of(0)
    } else {
        early
    }
}

pub fn preroll(start: Real64) -> (r: Real64)
    ensures
        r == preroll_of(start),
{
    let early: Real64 = start.sub(Real64 { bits: HISTORY });
    proof {
        reveal(Real64::up_to);
    }
    if early.less(Real64::from_integer(0)) || !early.at_most(early) {
        Real64::from_integer(0)
    } else {
        early
    }
}

/// When frame `index` of a playback shows, and whether it does: those before `start` only
/// build up the history.
pub fn playback_frame(start: Real64, fps: Real64, index: u64) -> (r: (Real64, bool))
    ensures
        r.0 == preroll_of(start).plus(Real64::of(index as nat).over(fps)),
        r.1 == start.up_to(r.0.plus(Real64 { bits: SLACK })),
{
    let time: Real64 = preroll(start).add(Real64::from_integer(index).div(fps));
    (time, start.at_most(time.add(Real64 { bits: SLACK })))
}

/// Frames are decoded from the video's start, at the asked rate, and at the size that the video is
/// shown at; a video of high dynamic range, and no other, is brought down to the standard one
/// before it is scaled.
pub proof fn frames_are_decoded_as_they_are_shown(
    video: Video,
    fps: Option<Seq<char>>,
    frame: Option<u64>,
)
    ensures
        ({
            let picked = match frame {
                Some(frame) => ",select=eq(n\\,"@ + crate::text::decimal(frame as nat) + ")"@,
                None => Seq::empty(),
            };
            let timed = match fps {
                Some(fps) => ",fps="@ + fps + ":start_time=0:round=near"@,
                None => Seq::empty(),
            };
            let start = "setpts=PTS-STARTPTS"@ + picked + timed;
            let end = ",scale="@ + crate::text::decimal(video.size.0 as nat) + ":"@
                + crate::text::decimal(video.size.1 as nat) + ":flags=lanczos,setsar=1"@;
            let tone =
                ",zscale=t=linear:npl=100,format=gbrpf32le,zscale=p=bt709,tonemap=tonemap=mobius:desat=0,zscale=t=bt709:m=bt709:r=full"@;
            &&& !video.hdr ==> filters(video, fps, frame) == start + end
            &&& video.hdr ==> filters(video, fps, frame) == start + tone + end
        }),
{
    let empty: Seq<char> = Seq::empty();
    let picked = match frame {
        Some(frame) => ",select=eq(n\\,"@ + crate::text::decimal(frame as nat) + ")"@,
        None => Seq::empty(),
    };
    let timed = match fps {
        Some(fps) => ",fps="@ + fps + ":start_time=0:round=near"@,
        None => Seq::empty(),
    };
    let start = "setpts=PTS-STARTPTS"@ + picked + timed;
    let end = ",scale="@ + crate::text::decimal(video.size.0 as nat) + ":"@ + crate::text::decimal(
        video.size.1 as nat,
    ) + ":flags=lanczos,setsar=1"@;
    if !video.hdr {
        assert(filters(video, fps, frame) =~= start + end);
    } else {
        assert(filters(video, fps, frame) =~= start
            + ",zscale=t=linear:npl=100,format=gbrpf32le,zscale=p=bt709,tonemap=tonemap=mobius:desat=0,zscale=t=bt709:m=bt709:r=full"@
            + end);
    }
}

/// Seeking comes before the input, where it seeks by keyframes rather than by decoding all that is
/// passed over.
pub proof fn seeking_comes_before_the_input(
    video: Video,
    fps: Option<Seq<char>>,
    time: Real64,
    frame: Option<u64>,
)
    requires
        Real64::of(0).below(time),
    ensures
        ({
            let args = decode_args(video, fps, time, frame);
            exists|p: int|
                {
                    &&& 2 <= p
                    &&& p + 1 < args.len()
                    &&& #[trigger] args[p] == crate::media::args::Said::Text("-i"@)
                    &&& args[p + 1] == crate::media::args::Said::Text(video.path@)
                    &&& args[p - 2] == crate::media::args::Said::Text("-ss"@)
                    &&& args[p - 1] == crate::media::args::Said::Number(time)
                }
        }),
{
    let args = decode_args(video, fps, time, frame);
    assert(args[3] == crate::media::args::Said::Text("-ss"@));
    assert(args[4] == crate::media::args::Said::Number(time));
    assert(args[5] == crate::media::args::Said::Text("-i"@));
    assert(args[6] == crate::media::args::Said::Text(video.path@));
}

} // verus!
