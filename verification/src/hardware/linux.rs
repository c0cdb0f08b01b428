//! VAAPI encoding on Linux.

use super::DeviceProbe;
use crate::text::{push_text, string_views};
use crate::transcoder::TuningMode;
use vstd::prelude::*;

verus! {

/// The acceleration picked on Linux: `vaapi` when the render device can be
/// opened, else `cpu`.
pub open spec fn spec_detect_auto(probe: DeviceProbe) -> Seq<char> {
    match probe {
        DeviceProbe::Usable => "vaapi"@,
        DeviceProbe::Unopenable => "cpu"@,
        DeviceProbe::Missing => "cpu"@,
    }
}

/// The settings that name the VAAPI device.
pub open spec fn spec_global_args_vaapi() -> Seq<Seq<char>> {
    Seq::<Seq<char>>::empty().push("-init_hw_device"@).push("vaapi=va:/dev/dri/renderD128"@).push(
        "-filter_hw_device"@,
    ).push("va"@)
}

/// The settings for VAAPI encoding.
pub open spec fn spec_args_vaapi(mode: TuningMode) -> Seq<Seq<char>> {
    let a = Seq::<Seq<char>>::empty().push("-vf"@).push(
        "format=nv12,hwupload,deinterlace_vaapi"@,
    ).push("-c:v"@).push("h264_vaapi"@).push("-b:v"@).push("6M"@).push("-maxrate"@).push(
        "8M"@,
    ).push("-bufsize"@).push("8M"@);
    match mode {
        TuningMode::LowLatency => a.push("-bf"@).push("0"@),
        TuningMode::Smooth => a,
    }
}

/// The acceleration picked on Linux, from what a look at the render device
/// `/dev/dri/renderD128` found.
pub fn detect_auto(probe: DeviceProbe) -> (r: String)
    ensures
        r@ == spec_detect_auto(probe),
{
    match probe {
        DeviceProbe::Usable => "vaapi".to_owned(),
        DeviceProbe::Unopenable => "cpu".to_owned(),
        DeviceProbe::Missing => "cpu".to_owned(),
    }
}

/// The settings that name the VAAPI device.
pub fn get_global_args_vaapi() -> (args: Vec<String>)
    ensures
        string_views(args@) == spec_global_args_vaapi(),
{
    let mut args: Vec<String> = Vec::new();
    assert(string_views(args@) =~= Seq::<Seq<char>>::empty());
    push_text(&mut args, "-init_hw_device");
    push_text(&mut args, "vaapi=va:/dev/dri/renderD128");
    push_text(&mut args, "-filter_hw_device");
    push_text(&mut args, "va");
    args
}

/// The settings for VAAPI encoding.
pub fn get_args_vaapi(mode: TuningMode) -> (args: Vec<String>)
    ensures
        string_views(args@) == spec_args_vaapi(mode),
{
    let mut args: Vec<String> = Vec::new();
    assert(string_views(args@) =~= Seq::<Seq<char>>::empty());
    push_text(&mut args, "-vf");
    push_text(&mut args, "format=nv12,hwupload,deinterlace_vaapi");
    push_text(&mut args, "-c:v");
    push_text(&mut args, "h264_vaapi");
    push_text(&mut args, "-b:v");
    push_text(&mut args, "6M");
    push_text(&mut args, "-maxrate");
    push_text(&mut args, "8M");
    push_text(&mut args, "-bufsize");
    push_text(&mut args, "8M");
    match mode {
        TuningMode::LowLatency => {
            push_text(&mut args, "-bf");
            push_text(&mut args, "0");
        },
        TuningMode::Smooth => {},
    }
    args
}

} // verus!
