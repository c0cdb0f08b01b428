//! VideoToolbox encoding on macOS.

use crate::text::{push_text, string_views};
use crate::transcoder::TuningMode;
use vstd::prelude::*;

verus! {

/// The settings for VideoToolbox encoding.
pub open spec fn spec_args_videotoolbox(mode: TuningMode) -> Seq<Seq<char>> {
    let a = Seq::<Seq<char>>::empty().push("-c:v"@).push("h264_videotoolbox"@).push("-b:v"@).push(
        "6M"@,
    ).push("-maxrate"@).push("8M"@).push("-bufsize"@).push("8M"@).push("-profile:v"@).push(
        "high"@,
    ).push("-allow_sw"@).push("1"@);
    match mode {
        TuningMode::LowLatency => a.push("-realtime"@).push("true"@).push("-bf"@).push("0"@),
        TuningMode::Smooth => a.push("-realtime"@).push("true"@).push("-prio_speed"@).push(
            "false"@,
        ),
    }
}

/// The acceleration picked on macOS: always `videotoolbox`.
pub fn detect_auto() -> (r: String)
    ensures
        r@ == "videotoolbox"@,
{
    "videotoolbox".to_owned()
}

/// The settings for VideoToolbox encoding.
pub fn get_args_videotoolbox(mode: TuningMode) -> (args: Vec<String>)
    ensures
        string_views(args@) == spec_args_videotoolbox(mode),
{
    let mut args: Vec<String> = Vec::new();
    assert(string_views(args@) =~= Seq::<Seq<char>>::empty());
    push_text(&mut args, "-c:v");
    push_text(&mut args, "h264_videotoolbox");
    push_text(&mut args, "-b:v");
    push_text(&mut args, "6M");
    push_text(&mut args, "-maxrate");
    push_text(&mut args, "8M");
    push_text(&mut args, "-bufsize");
    push_text(&mut args, "8M");
    push_text(&mut args, "-profile:v");
    push_text(&mut args, "high");
    push_text(&mut args, "-allow_sw");
    push_text(&mut args, "1");
    match mode {
        TuningMode::LowLatency => {
            push_text(&mut args, "-realtime");
            push_text(&mut args, "true");
            push_text(&mut args, "-bf");
            push_text(&mut args, "0");
        },
        TuningMode::Smooth => {
            push_text(&mut args, "-realtime");
            push_text(&mut args, "true");
            push_text(&mut args, "-prio_speed");
            push_text(&mut args, "false");
        },
    }
    args
}

} // verus!
