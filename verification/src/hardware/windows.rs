//! AMF, NVENC and Quick Sync encoding on Windows.

use crate::text::{push_text, string_views};
use crate::transcoder::TuningMode;
use vstd::prelude::*;

verus! {

/// The settings for AMF encoding.
pub open spec fn spec_args_amf(mode: TuningMode) -> Seq<Seq<char>> {
    let a = Seq::<Seq<char>>::empty().push("-c:v"@).push("h264_amf"@).push("-rc"@).push(
        "cbr"@,
    ).push("-b:v"@).push("6M"@).push("-maxrate"@).push("6M"@).push("-bufsize"@).push("6M"@);
    match mode {
        TuningMode::LowLatency => a.push("-usage"@).push("lowlatency"@).push("-quality"@).push(
            "speed"@,
        ),
        TuningMode::Smooth => a.push("-usage"@).push("transcoding"@).push("-quality"@).push(
            "balanced"@,
        ),
    }
}

/// The settings for NVENC encoding.
pub open spec fn spec_args_nvenc(mode: TuningMode) -> Seq<Seq<char>> {
    let a = Seq::<Seq<char>>::empty().push("-c:v"@).push("h264_nvenc"@).push("-rc"@).push(
        "cbr"@,
    ).push("-b:v"@).push("6M"@).push("-maxrate"@).push("6M"@).push("-bufsize"@).push("6M"@);
    match mode {
        TuningMode::LowLatency => a.push("-preset"@).push("p2"@).push("-tune"@).push("ull"@).push(
            "-zerolatency"@,
        ).push("1"@).push("-delay"@).push("0"@),
        TuningMode::Smooth => a.push("-preset"@).push("p4"@),
    }
}

/// The settings for Quick Sync encoding.
pub open spec fn spec_args_qsv(mode: TuningMode) -> Seq<Seq<char>> {
    let a = Seq::<Seq<char>>::empty().push("-c:v"@).push("h264_qsv"@).push("-b:v"@).push(
        "6M"@,
    ).push("-maxrate"@).push("6M"@).push("-bufsize"@).push("12M"@);
    match mode {
        TuningMode::LowLatency => a.push("-look_ahead"@).push("0"@).push("-async_depth"@).push(
            "1"@,
        ),
        TuningMode::Smooth => a,
    }
}

/// The acceleration picked on Windows: always `cpu`.
pub fn detect_auto() -> (r: String)
    ensures
        r@ == "cpu"@,
{
    "cpu".to_owned()
}

/// The settings for AMF encoding.
pub fn get_args_amf(mode: TuningMode) -> (args: Vec<String>)
    ensures
        string_views(args@) == spec_args_amf(mode),
{
    let mut args: Vec<String> = Vec::new();
    assert(string_views(args@) =~= Seq::<Seq<char>>::empty());
    push_text(&mut args, "-c:v");
    push_text(&mut args, "h264_amf");
    push_text(&mut args, "-rc");
    push_text(&mut args, "cbr");
    push_text(&mut args, "-b:v");
    push_text(&mut args, "6M");
    push_text(&mut args, "-maxrate");
    push_text(&mut args, "6M");
    push_text(&mut args, "-bufsize");
    push_text(&mut args, "6M");
    match mode {
        TuningMode::LowLatency => {
            push_text(&mut args, "-usage");
            push_text(&mut args, "lowlatency");
            push_text(&mut args, "-quality");
            push_text(&mut args, "speed");
        },
        TuningMode::Smooth => {
            push_text(&mut args, "-usage");
            push_text(&mut args, "transcoding");
            push_text(&mut args, "-quality");
            push_text(&mut args, "balanced");
        },
    }
    args
}

/// The settings for NVENC encoding.
pub fn get_args_nvenc(mode: TuningMode) -> (args: Vec<String>)
    ensures
        string_views(args@) == spec_args_nvenc(mode),
{
    let mut args: Vec<String> = Vec::new();
    assert(string_views(args@) =~= Seq::<Seq<char>>::empty());
    push_text(&mut args, "-c:v");
    push_text(&mut args, "h264_nvenc");
    push_text(&mut args, "-rc");
    push_text(&mut args, "cbr");
    push_text(&mut args, "-b:v");
    push_text(&mut args, "6M");
    push_text(&mut args, "-maxrate");
    push_text(&mut args, "6M");
    push_text(&mut args, "-bufsize");
    push_text(&mut args, "6M");
    match mode {
        TuningMode::LowLatency => {
            push_text(&mut args, "-preset");
            push_text(&mut args, "p2");
            push_text(&mut args, "-tune");
            push_text(&mut args, "ull");
            push_text(&mut args, "-zerolatency");
            push_text(&mut args, "1");
            push_text(&mut args, "-delay");
            push_text(&mut args, "0");
        },
        TuningMode::Smooth => {
            push_text(&mut args, "-preset");
            push_text(&mut args, "p4");
        },
    }
    args
}

/// The settings for Quick Sync encoding.
pub fn get_args_qsv(mode: TuningMode) -> (args: Vec<String>)
    ensures
        string_views(args@) == spec_args_qsv(mode),
{
    let mut args: Vec<String> = Vec::new();
    assert(string_views(args@) =~= Seq::<Seq<char>>::empty());
    push_text(&mut args, "-c:v");
    push_text(&mut args, "h264_qsv");
    push_text(&mut args, "-b:v");
    push_text(&mut args, "6M");
    push_text(&mut args, "-maxrate");
    push_text(&mut args, "6M");
    push_text(&mut args, "-bufsize");
    push_text(&mut args, "12M");
    match mode {
        TuningMode::LowLatency => {
            push_text(&mut args, "-look_ahead");
            push_text(&mut args, "0");
            push_text(&mut args, "-async_depth");
            push_text(&mut args, "1");
        },
        TuningMode::Smooth => {},
    }
    args
}

} // verus!
