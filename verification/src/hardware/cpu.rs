//! Software encoding with libx264.

use crate::text::{decimal, push_decimal, push_text, string_of, string_views};
use crate::transcoder::TuningMode;
use vstd::prelude::*;

verus! {

/// The settings for software encoding.
pub open spec fn spec_args(mode: TuningMode, threads: u8) -> Seq<Seq<char>> {
    let a = Seq::<Seq<char>>::empty().push("-vf"@).push("yadif"@).push("-pix_fmt"@).push(
        "yuv420p"@,
    ).push("-c:v"@).push("libx264"@).push("-crf"@).push("18"@).push("-threads"@).push(
        decimal(threads as nat),
    ).push("-profile:v"@).push("baseline"@).push("-level"@).push("3.1"@);
    match mode {
        TuningMode::LowLatency => a.push("-preset"@).push("fast"@).push("-tune"@).push(
            "zerolatency"@,
        ),
        TuningMode::Smooth => a.push("-preset"@).push("medium"@),
    }
}

/// The settings for software encoding.
pub fn get_args(mode: TuningMode, threads: u8) -> (args: Vec<String>)
    ensures
        string_views(args@) == spec_args(mode, threads),
{
    let mut args: Vec<String> = Vec::new();
    assert(string_views(args@) =~= Seq::<Seq<char>>::empty());
    push_text(&mut args, "-vf");
    push_text(&mut args, "yadif");
    push_text(&mut args, "-pix_fmt");
    push_text(&mut args, "yuv420p");
    push_text(&mut args, "-c:v");
    push_text(&mut args, "libx264");
    push_text(&mut args, "-crf");
    push_text(&mut args, "18");
    push_text(&mut args, "-threads");
    let mut digits: Vec<char> = Vec::new();
    push_decimal(&mut digits, threads as u64);
    assert(digits@ =~= decimal(threads as nat));
    let count = string_of(&digits);
    push_text(&mut args, count.as_str());
    push_text(&mut args, "-profile:v");
    push_text(&mut args, "baseline");
    push_text(&mut args, "-level");
    push_text(&mut args, "3.1");
    match mode {
        TuningMode::LowLatency => {
            push_text(&mut args, "-preset");
            push_text(&mut args, "fast");
            push_text(&mut args, "-tune");
            push_text(&mut args, "zerolatency");
        },
        TuningMode::Smooth => {
            push_text(&mut args, "-preset");
            push_text(&mut args, "medium");
        },
    }
    args
}

} // verus!
