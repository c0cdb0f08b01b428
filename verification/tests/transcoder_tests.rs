use fritztv::hardware::cpu::get_args;
use fritztv::hardware::linux::{get_args_vaapi, get_global_args_vaapi};
use fritztv::hardware::macos::get_args_videotoolbox;
use fritztv::hardware::windows::{get_args_amf, get_args_nvenc, get_args_qsv};
use fritztv::hardware::{detect, get_ffmpeg_args, get_global_args, DeviceProbe, Platform};
use fritztv::metrics::{default_console_log_bandwidth, default_monitoring_enabled, MonitoringConfig};
use fritztv::transcoder::{
    ffmpeg_args, hls_target, ExitKind, HlsTarget, ReadEvent, ReadStep, Transcoder, TuningMode,
    STDERR_RING_LINES,
};

fn strs(v: &[&str]) -> Vec<String> {
    v.iter().map(|s| s.to_string()).collect()
}

fn av(mode: TuningMode, threads: &str) -> Vec<String> {
    let mut v = strs(&[
        "-map", "0:v:0", "-map", "0:a:0?", "-sn", "-dn", "-af", "aresample=async=1", "-vsync", "1",
        "-max_muxing_queue_size", "1024", "-vf", "yadif", "-pix_fmt", "yuv420p", "-c:v", "libx264",
        "-threads", threads, "-profile:v", "baseline", "-level", "3.1", "-flags", "+cgop", "-g", "50",
        "-keyint_min", "50", "-sc_threshold", "0", "-force_key_frames", "expr:gte(t,n_forced*2)",
        "-crf", "18", "-maxrate", "12M", "-bufsize", "24M", "-c:a", "aac", "-ac", "2", "-b:a", "128k",
    ]);
    match mode {
        TuningMode::LowLatency => v.extend(strs(&["-preset", "fast", "-tune", "zerolatency"])),
        TuningMode::Smooth => v.extend(strs(&["-preset", "medium"])),
    }
    v
}

#[test]
fn args_for_udp_low_latency_without_hls() {
    let got = ffmpeg_args("rtsp://h/?avm=1", TuningMode::LowLatency, "udp", None, 2);
    let mut want = strs(&[
        "-rtbufsize", "10M", "-fflags", "+genpts+discardcorrupt", "-avoid_negative_ts", "make_zero",
        "-analyzeduration", "2000000", "-probesize", "2000000", "-y", "-i", "rtsp://h/?avm=1",
    ]);
    want.extend(av(TuningMode::LowLatency, "2"));
    want.extend(strs(&[
        "-f", "mp4", "-movflags", "frag_keyframe+empty_moov+default_base_moof", "pipe:1",
    ]));
    assert_eq!(got, want);
}

#[test]
fn args_for_tcp_smooth_with_hls() {
    let target = HlsTarget {
        segment_pattern: "/d/seg_%05d.ts".to_string(),
        playlist: "/d/index.m3u8".to_string(),
    };
    let got = ffmpeg_args("rtsp://h/", TuningMode::Smooth, "tcp", Some(&target), 255);
    let mut want = strs(&[
        "-rtsp_transport", "tcp", "-rtbufsize", "10M", "-fflags", "+genpts+discardcorrupt",
        "-avoid_negative_ts", "make_zero", "-analyzeduration", "10000000", "-probesize", "10000000",
        "-y", "-i", "rtsp://h/",
    ]);
    want.extend(av(TuningMode::Smooth, "255"));
    want.extend(strs(&[
        "-f", "mp4", "-movflags", "frag_keyframe+empty_moov+default_base_moof", "pipe:1",
    ]));
    want.extend(av(TuningMode::Smooth, "255"));
    want.extend(strs(&[
        "-mpegts_flags", "+resend_headers", "-f", "hls", "-hls_time", "2", "-hls_list_size", "10",
        "-hls_playlist_type", "event", "-hls_flags",
        "delete_segments+independent_segments+omit_endlist", "-hls_segment_filename",
        "/d/seg_%05d.ts", "/d/index.m3u8",
    ]));
    assert_eq!(got, want);
}

#[test]
fn hls_target_joins_names_to_the_directory() {
    let t = hls_target("/tmp/fritztv-hls/abc");
    assert_eq!(
        std::path::Path::new(&t.segment_pattern),
        std::path::Path::new("/tmp/fritztv-hls/abc").join("seg_%05d.ts")
    );
    assert_eq!(
        std::path::Path::new(&t.playlist),
        std::path::Path::new("/tmp/fritztv-hls/abc").join("index.m3u8")
    );
    assert!(t.playlist.ends_with("index.m3u8"));
    assert!(t.playlist.len() > "/tmp/fritztv-hls/abc".len());
}

#[test]
fn transcoder_builds_its_arguments() {
    let t = Transcoder::new(
        "7".to_string(),
        "rtsp://h/?avm=1".to_string(),
        TuningMode::LowLatency,
        "udp".to_string(),
        Some("/d".to_string()),
        4,
    );
    let target = hls_target("/d");
    let want = ffmpeg_args("rtsp://h/?avm=1", TuningMode::LowLatency, "udp", Some(&target), 4);
    assert_eq!(t.args(), &want);
    assert_eq!(t.channel_id(), "7");
    assert_eq!(t.url(), "rtsp://h/?avm=1");
    let plain = Transcoder::new(
        "7".to_string(),
        "rtsp://h/?avm=1".to_string(),
        TuningMode::LowLatency,
        "udp".to_string(),
        None,
        4,
    );
    assert_eq!(
        plain.args(),
        &ffmpeg_args("rtsp://h/?avm=1", TuningMode::LowLatency, "udp", None, 4)
    );
}

fn supervisor() -> Transcoder {
    Transcoder::new(
        "1".to_string(),
        "rtsp://h/".to_string(),
        TuningMode::Smooth,
        "udp".to_string(),
        None,
        1,
    )
}

fn atom(kind: &[u8; 4], payload: &[u8]) -> Vec<u8> {
    let mut v = ((8 + payload.len()) as u32).to_be_bytes().to_vec();
    v.extend_from_slice(kind);
    v.extend_from_slice(payload);
    v
}

#[test]
fn data_goes_through_the_framer() {
    let mut t = supervisor();
    let mut bytes = atom(b"ftyp", b"1234");
    bytes.extend(atom(b"moov", b"56"));
    let header = bytes.clone();
    bytes.extend(atom(b"moof", b"a"));
    bytes.extend(atom(b"mdat", b"bcd"));
    assert!(t.has_room_for(bytes.len()));
    match t.on_read(ReadEvent::Data(&bytes)) {
        ReadStep::Continue(out) => {
            assert_eq!(out.header.unwrap().to_vec(), header);
            assert_eq!(out.fragments.len(), 1);
            assert_eq!(out.fragments[0].to_vec(), bytes[header.len()..].to_vec());
        }
        _ => panic!("data must not end the reading"),
    }
}

#[test]
fn requested_stop_is_reported_as_requested() {
    let mut t = supervisor();
    assert!(matches!(t.on_read(ReadEvent::StopRequested), ReadStep::KillAndWait));
    let report = t.on_exit(Some(false));
    assert_eq!(report.kind, ExitKind::Requested);
    assert!(!report.saw_stdout_eof);
    assert_eq!(report.stderr_tail, None);
}

#[test]
fn clean_exit_without_request_is_unexpected() {
    let mut t = supervisor();
    assert!(matches!(t.on_read(ReadEvent::Eof), ReadStep::Wait));
    let report = t.on_exit(Some(true));
    assert_eq!(report.kind, ExitKind::UnexpectedSuccess);
    assert!(report.saw_stdout_eof);
    assert_eq!(report.stderr_tail, None);
}

#[test]
fn failure_carries_the_stderr_tail() {
    let mut t = supervisor();
    assert_eq!(t.on_stderr_line("  first line \n"), "first line");
    assert_eq!(t.on_stderr_line("second\r\n"), "second");
    assert!(matches!(t.on_read(ReadEvent::Failed), ReadStep::Wait));
    let report = t.on_exit(Some(false));
    assert_eq!(report.kind, ExitKind::Failed);
    assert_eq!(report.stderr_tail, Some("first line\nsecond".to_string()));
}

#[test]
fn failure_without_stderr_has_no_tail() {
    let t = supervisor();
    let report = t.on_exit(Some(false));
    assert_eq!(report.kind, ExitKind::Failed);
    assert_eq!(report.stderr_tail, None);
}

#[test]
fn failed_wait_is_reported() {
    let t = supervisor();
    assert_eq!(t.on_exit(None).kind, ExitKind::WaitFailed);
}

#[test]
fn stderr_ring_keeps_the_last_fifty_lines() {
    let mut t = supervisor();
    for i in 0..120 {
        t.on_stderr_line(&format!("line {}\n", i));
    }
    let tail = t.on_exit(Some(false)).stderr_tail.unwrap();
    let lines: Vec<&str> = tail.split('\n').collect();
    assert_eq!(lines.len(), STDERR_RING_LINES);
    assert_eq!(lines[0], "line 70");
    assert_eq!(lines[49], "line 119");
}

#[test]
fn cpu_args() {
    assert_eq!(
        get_args(TuningMode::LowLatency, 3),
        strs(&[
            "-vf", "yadif", "-pix_fmt", "yuv420p", "-c:v", "libx264", "-crf", "18", "-threads", "3",
            "-profile:v", "baseline", "-level", "3.1", "-preset", "fast", "-tune", "zerolatency",
        ])
    );
    assert_eq!(
        get_args(TuningMode::Smooth, 0),
        strs(&[
            "-vf", "yadif", "-pix_fmt", "yuv420p", "-c:v", "libx264", "-crf", "18", "-threads", "0",
            "-profile:v", "baseline", "-level", "3.1", "-preset", "medium",
        ])
    );
}

#[test]
fn vaapi_args() {
    assert_eq!(
        get_global_args_vaapi(),
        strs(&["-init_hw_device", "vaapi=va:/dev/dri/renderD128", "-filter_hw_device", "va"])
    );
    let base = strs(&[
        "-vf", "format=nv12,hwupload,deinterlace_vaapi", "-c:v", "h264_vaapi", "-b:v", "6M",
        "-maxrate", "8M", "-bufsize", "8M",
    ]);
    assert_eq!(get_args_vaapi(TuningMode::Smooth), base);
    let mut low = base.clone();
    low.extend(strs(&["-bf", "0"]));
    assert_eq!(get_args_vaapi(TuningMode::LowLatency), low);
}

#[test]
fn videotoolbox_args() {
    let base = strs(&[
        "-c:v", "h264_videotoolbox", "-b:v", "6M", "-maxrate", "8M", "-bufsize", "8M", "-profile:v",
        "high", "-allow_sw", "1",
    ]);
    let mut low = base.clone();
    low.extend(strs(&["-realtime", "true", "-bf", "0"]));
    let mut smooth = base.clone();
    smooth.extend(strs(&["-realtime", "true", "-prio_speed", "false"]));
    assert_eq!(get_args_videotoolbox(TuningMode::LowLatency), low);
    assert_eq!(get_args_videotoolbox(TuningMode::Smooth), smooth);
}

#[test]
fn windows_args() {
    let amf = strs(&[
        "-c:v", "h264_amf", "-rc", "cbr", "-b:v", "6M", "-maxrate", "6M", "-bufsize", "6M",
    ]);
    let mut amf_low = amf.clone();
    amf_low.extend(strs(&["-usage", "lowlatency", "-quality", "speed"]));
    let mut amf_smooth = amf.clone();
    amf_smooth.extend(strs(&["-usage", "transcoding", "-quality", "balanced"]));
    assert_eq!(get_args_amf(TuningMode::LowLatency), amf_low);
    assert_eq!(get_args_amf(TuningMode::Smooth), amf_smooth);
    let nv = strs(&[
        "-c:v", "h264_nvenc", "-rc", "cbr", "-b:v", "6M", "-maxrate", "6M", "-bufsize", "6M",
    ]);
    let mut nv_low = nv.clone();
    nv_low.extend(strs(&["-preset", "p2", "-tune", "ull", "-zerolatency", "1", "-delay", "0"]));
    let mut nv_smooth = nv.clone();
    nv_smooth.extend(strs(&["-preset", "p4"]));
    assert_eq!(get_args_nvenc(TuningMode::LowLatency), nv_low);
    assert_eq!(get_args_nvenc(TuningMode::Smooth), nv_smooth);
    let qsv = strs(&["-c:v", "h264_qsv", "-b:v", "6M", "-maxrate", "6M", "-bufsize", "12M"]);
    let mut qsv_low = qsv.clone();
    qsv_low.extend(strs(&["-look_ahead", "0", "-async_depth", "1"]));
    assert_eq!(get_args_qsv(TuningMode::LowLatency), qsv_low);
    assert_eq!(get_args_qsv(TuningMode::Smooth), qsv);
}

#[test]
fn detection_follows_configuration_and_platform() {
    assert_eq!(detect(Some("cpu".to_string()), Platform::Linux, DeviceProbe::Usable), "cpu");
    assert_eq!(detect(Some("nvenc".to_string()), Platform::Linux, DeviceProbe::Usable), "nvenc");
    assert_eq!(detect(Some("auto".to_string()), Platform::Linux, DeviceProbe::Usable), "vaapi");
    assert_eq!(detect(None, Platform::Linux, DeviceProbe::Usable), "vaapi");
    assert_eq!(detect(None, Platform::Linux, DeviceProbe::Unopenable), "cpu");
    assert_eq!(detect(None, Platform::Linux, DeviceProbe::Missing), "cpu");
    assert_eq!(detect(None, Platform::MacOs, DeviceProbe::Missing), "videotoolbox");
    assert_eq!(detect(None, Platform::Windows, DeviceProbe::Usable), "cpu");
    assert_eq!(detect(None, Platform::Other, DeviceProbe::Usable), "cpu");
    assert_eq!(fritztv::hardware::linux::detect_auto(DeviceProbe::Usable), "vaapi");
    assert_eq!(fritztv::hardware::macos::detect_auto(), "videotoolbox");
    assert_eq!(fritztv::hardware::windows::detect_auto(), "cpu");
}

#[test]
fn args_follow_acceleration_and_platform() {
    let m = TuningMode::LowLatency;
    assert_eq!(get_ffmpeg_args("cpu", m, 2, Platform::Linux), get_args(m, 2));
    assert_eq!(get_ffmpeg_args("vaapi", m, 2, Platform::Linux), get_args_vaapi(m));
    assert_eq!(get_ffmpeg_args("vaapi", m, 2, Platform::Windows), get_args(m, 2));
    assert_eq!(get_ffmpeg_args("videotoolbox", m, 2, Platform::MacOs), get_args_videotoolbox(m));
    assert_eq!(get_ffmpeg_args("amf", m, 2, Platform::Windows), get_args_amf(m));
    assert_eq!(get_ffmpeg_args("nvenc", m, 2, Platform::Windows), get_args_nvenc(m));
    assert_eq!(get_ffmpeg_args("qsv", m, 2, Platform::Windows), get_args_qsv(m));
    assert_eq!(get_ffmpeg_args("qsv", m, 2, Platform::Other), get_args(m, 2));
    assert_eq!(get_ffmpeg_args("unknown", m, 9, Platform::Linux), get_args(m, 9));
    assert_eq!(get_global_args("vaapi", Platform::Linux), get_global_args_vaapi());
    assert!(get_global_args("vaapi", Platform::MacOs).is_empty());
    assert!(get_global_args("cpu", Platform::Linux).is_empty());
}

#[test]
fn monitoring_defaults() {
    assert!(default_monitoring_enabled());
    assert!(!default_console_log_bandwidth());
    let c = MonitoringConfig::default();
    assert!(c.enabled);
    assert!(!c.console_log_bandwidth);
}
