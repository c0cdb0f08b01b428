//! The video encoder settings for each kind of hardware acceleration.

pub mod cpu;
pub mod linux;
pub mod macos;
pub mod windows;

use crate::text::{same_str, string_views};
use crate::transcoder::TuningMode;
use vstd::prelude::*;

verus! {

/// The operating system the server runs on.
#[derive(Clone, Copy, Debug, PartialEq, Eq, Structural)]
pub enum Platform {
    Linux,
    MacOs,
    Windows,
    Other,
}

/// What a look at the render device found.
#[derive(Clone, Copy, Debug, PartialEq, Eq, Structural)]
pub enum DeviceProbe {
    /// There is no such device.
    Missing,
    /// The device is there but cannot be opened.
    Unopenable,
    /// The device can be opened.
    Usable,
}

/// The acceleration that is picked when none is configured.
pub open spec fn spec_detect_auto(platform: Platform, probe: DeviceProbe) -> Seq<char> {
    match platform {
        Platform::Linux => linux::spec_detect_auto(probe),
        Platform::MacOs => "videotoolbox"@,
        Platform::Windows => "cpu"@,
        Platform::Other => "cpu"@,
    }
}

/// The acceleration to use: the configured one, unless none or `auto` is
/// configured; then the one picked for the platform.
pub open spec fn spec_detect(
    configured_mode: Option<Seq<char>>,
    platform: Platform,
    probe: DeviceProbe,
) -> Seq<char> {
    match configured_mode {
        Some(mode) => if mode != "auto"@ {
            mode
        } else {
            spec_detect_auto(platform, probe)
        },
        None => spec_detect_auto(platform, probe),
    }
}

/// The encoder settings for an acceleration on a platform. An acceleration the
/// platform does not have falls back to the CPU settings.
pub open spec fn spec_ffmpeg_args(
    hw_accel: Seq<char>,
    mode: TuningMode,
    threads: u8,
    platform: Platform,
) -> Seq<Seq<char>> {
    if hw_accel == "cpu"@ {
        cpu::spec_args(mode, threads)
    } else if platform == Platform::Linux && hw_accel == "vaapi"@ {
        linux::spec_args_vaapi(mode)
    } else if platform == Platform::MacOs && hw_accel == "videotoolbox"@ {
        macos::spec_args_videotoolbox(mode)
    } else if platform == Platform::Windows && hw_accel == "amf"@ {
        windows::spec_args_amf(mode)
    } else if platform == Platform::Windows && hw_accel == "nvenc"@ {
        windows::spec_args_nvenc(mode)
    } else if platform == Platform::Windows && hw_accel == "qsv"@ {
        windows::spec_args_qsv(mode)
    } else {
        cpu::spec_args(mode, threads)
    }
}

/// The settings that go before the input for an acceleration on a platform.
pub open spec fn spec_global_args(hw_accel: Seq<char>, platform: Platform) -> Seq<Seq<char>> {
    if platform == Platform::Linux && hw_accel == "vaapi"@ {
        linux::spec_global_args_vaapi()
    } else {
        Seq::empty()
    }
}

/// The acceleration to use; see [`spec_detect`].
pub fn detect(configured_mode: Option<String>, platform: Platform, probe: DeviceProbe) -> (r:
    String)
    ensures
        r@ == spec_detect(
            match configured_mode {
                Some(m) => Some(m@),
                None => None,
            },
            platform,
            probe,
        ),
{
    match configured_mode {
        Some(mode) => {
            if !same_str(mode.as_str(), "auto") {
                return mode;
            }
        },
        None => {},
    }
    match platform {
        Platform::Linux => linux::detect_auto(probe),
        Platform::MacOs => macos::detect_auto(),
        Platform::Windows => windows::detect_auto(),
        Platform::Other => "cpu".to_owned(),
    }
}

/// The encoder settings for an acceleration; see [`spec_ffmpeg_args`].
pub fn get_ffmpeg_args(hw_accel: &str, mode: TuningMode, threads: u8, platform: Platform) -> (r:
    Vec<String>)
    ensures
        string_views(r@) == spec_ffmpeg_args(hw_accel@, mode, threads, platform),
{
    if same_str(hw_accel, "cpu") {
        return cpu::get_args(mode, threads);
    }
    match platform {
        Platform::Linux => {
            if same_str(hw_accel, "vaapi") {
                return linux::get_args_vaapi(mode);
            }
        },
        Platform::MacOs => {
            if same_str(hw_accel, "videotoolbox") {
                return macos::get_args_videotoolbox(mode);
            }
        },
        Platform::Windows => {
            if same_str(hw_accel, "amf") {
                return windows::get_args_amf(mode);
            }
            if same_str(hw_accel, "nvenc") {
                return windows::get_args_nvenc(mode);
            }
            if same_str(hw_accel, "qsv") {
                return windows::get_args_qsv(mode);
            }
        },
        Platform::Other => {},
    }
    cpu::get_args(mode, threads)
}

/// The settings that go before the input; see [`spec_global_args`].
pub fn get_global_args(hw_accel: &str, platform: Platform) -> (r: Vec<String>)
    ensures
        string_views(r@) == spec_global_args(hw_accel@, platform),
{
    if platform == Platform::Linux && same_str(hw_accel, "vaapi") {
        return linux::get_global_args_vaapi();
    }
    let r: Vec<String> = Vec::new();
    assert(string_views(r@) =~= Seq::<Seq<char>>::empty());
    r
}

} // verus!
