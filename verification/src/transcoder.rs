//! The encoder process of one stream.
//!
//! This module holds what the supervisor of an encoder decides: the argument
//! list the encoder is started with, what becomes of each read from its output,
//! which of its diagnostic lines are kept, and how its end is classified.
//! Starting the process and reading from it is left to the caller.

use crate::buffers::buffer_limit;
use crate::framer::{
    fault_of, scan_atom, spec_feed, Framer, FramerOutput, FramerState,
};
use crate::paths::{join_path, joined_path};
use crate::text::{
    chars_of, decimal, join, join_with, push_decimal, push_text, same_str, string_of,
    string_views, trim, trimmed,
};
use std::collections::VecDeque;
use vstd::prelude::*;

verus! {

/// How the encoder trades start-up latency against stability.
#[derive(Clone, Copy, Debug, PartialEq, Eq, Structural)]
pub enum TuningMode {
    LowLatency,
    Smooth,
}

/// Number of diagnostic lines kept for the report of a failed encoder.
pub const STDERR_RING_LINES: usize = 50;

/// File name pattern of the HLS segments.
pub open spec fn segment_pattern_name() -> Seq<char> {
    "seg_%05d.ts"@
}

/// File name of the HLS playlist.
pub open spec fn playlist_name() -> Seq<char> {
    "index.m3u8"@
}

/// Where the HLS output of an encoder goes.
pub struct HlsTarget {
    /// Path pattern of the segment files.
    pub segment_pattern: String,
    /// Path of the playlist.
    pub playlist: String,
}

/// `args` followed by the input side of the invocation: transport selection
/// when the transport is `tcp`, the input buffer, timestamp hygiene, the probe
/// sizes of the mode, and the input URL.
pub open spec fn with_input_args(
    args: Seq<Seq<char>>,
    url: Seq<char>,
    mode: TuningMode,
    transport: Seq<char>,
) -> Seq<Seq<char>> {
    let a = if transport == "tcp"@ {
        args.push("-rtsp_transport"@).push("tcp"@)
    } else {
        args
    };
    let b = a.push("-rtbufsize"@).push("10M"@).push("-fflags"@).push(
        "+genpts+discardcorrupt"@,
    ).push("-avoid_negative_ts"@).push("make_zero"@);
    let c = match mode {
        TuningMode::LowLatency => b.push("-analyzeduration"@).push("2000000"@).push(
            "-probesize"@,
        ).push("2000000"@),
        TuningMode::Smooth => b.push("-analyzeduration"@).push("10000000"@).push(
            "-probesize"@,
        ).push("10000000"@),
    };
    c.push("-y"@).push("-i"@).push(url)
}

/// `args` followed by the stream mapping and codec settings of one output.
/// The encoder applies them to the next output only, so every output gets them.
pub open spec fn with_output_args(args: Seq<Seq<char>>, mode: TuningMode, threads: u8) -> Seq<
    Seq<char>,
> {
    let a = args.push("-map"@).push("0:v:0"@).push("-map"@).push("0:a:0?"@).push("-sn"@).push(
        "-dn"@,
    ).push("-af"@).push("aresample=async=1"@).push("-vsync"@).push("1"@).push(
        "-max_muxing_queue_size"@,
    ).push("1024"@);
    let b = a.push("-vf"@).push("yadif"@).push("-pix_fmt"@).push("yuv420p"@).push("-c:v"@).push(
        "libx264"@,
    ).push("-threads"@).push(decimal(threads as nat)).push("-profile:v"@).push("baseline"@).push(
        "-level"@,
    ).push("3.1"@).push("-flags"@).push("+cgop"@).push("-g"@).push("50"@).push(
        "-keyint_min"@,
    ).push("50"@).push("-sc_threshold"@).push("0"@).push("-force_key_frames"@).push(
        "expr:gte(t,n_forced*2)"@,
    ).push("-crf"@).push("18"@).push("-maxrate"@).push("12M"@).push("-bufsize"@).push(
        "24M"@,
    ).push("-c:a"@).push("aac"@).push("-ac"@).push("2"@).push("-b:a"@).push("128k"@);
    match mode {
        TuningMode::LowLatency => b.push("-preset"@).push("fast"@).push("-tune"@).push(
            "zerolatency"@,
        ),
        TuningMode::Smooth => b.push("-preset"@).push("medium"@),
    }
}

/// `args` followed by the fragmented-MP4 output on standard output.
pub open spec fn with_fmp4_output(args: Seq<Seq<char>>) -> Seq<Seq<char>> {
    args.push("-f"@).push("mp4"@).push("-movflags"@).push(
        "frag_keyframe+empty_moov+default_base_moof"@,
    ).push("pipe:1"@)
}

/// `args` followed by the HLS output to the given files.
pub open spec fn with_hls_output(
    args: Seq<Seq<char>>,
    segment_pattern: Seq<char>,
    playlist: Seq<char>,
) -> Seq<Seq<char>> {
    args.push("-mpegts_flags"@).push("+resend_headers"@).push("-f"@).push("hls"@).push(
        "-hls_time"@,
    ).push("2"@).push("-hls_list_size"@).push("10"@).push("-hls_playlist_type"@).push(
        "event"@,
    ).push("-hls_flags"@).push("delete_segments+independent_segments+omit_endlist"@).push(
        "-hls_segment_filename"@,
    ).push(segment_pattern).push(playlist)
}

/// The argument list of the encoder: the input side, then the fragmented-MP4
/// output with its settings, then, when there is an HLS target, the HLS output
/// with the same settings again.
pub open spec fn spec_ffmpeg_args(
    url: Seq<char>,
    mode: TuningMode,
    transport: Seq<char>,
    hls: Option<(Seq<char>, Seq<char>)>,
    threads: u8,
) -> Seq<Seq<char>> {
    let first = with_fmp4_output(
        with_output_args(with_input_args(Seq::empty(), url, mode, transport), mode, threads),
    );
    match hls {
        Some((segment_pattern, playlist)) => with_hls_output(
            with_output_args(first, mode, threads),
            segment_pattern,
            playlist,
        ),
        None => first,
    }
}

fn push_input_args(args: &mut Vec<String>, url: &str, mode: TuningMode, transport: &str)
    ensures
        string_views(final(args)@) == with_input_args(
            string_views(old(args)@),
            url@,
            mode,
            transport@,
        ),
{
    if same_str(transport, "tcp") {
        push_text(args, "-rtsp_transport");
        push_text(args, "tcp");
    }
    push_text(args, "-rtbufsize");
    push_text(args, "10M");
    push_text(args, "-fflags");
    push_text(args, "+genpts+discardcorrupt");
    push_text(args, "-avoid_negative_ts");
    push_text(args, "make_zero");
    match mode {
        TuningMode::LowLatency => {
            push_text(args, "-analyzeduration");
            push_text(args, "2000000");
            push_text(args, "-probesize");
            push_text(args, "2000000");
        },
        TuningMode::Smooth => {
            push_text(args, "-analyzeduration");
            push_text(args, "10000000");
            push_text(args, "-probesize");
            push_text(args, "10000000");
        },
    }
    push_text(args, "-y");
    push_text(args, "-i");
    push_text(args, url);
}

fn push_output_args(args: &mut Vec<String>, mode: TuningMode, threads: u8)
    ensures
        string_views(final(args)@) == with_output_args(string_views(old(args)@), mode, threads),
{
    push_text(args, "-map");
    push_text(args, "0:v:0");
    push_text(args, "-map");
    push_text(args, "0:a:0?");
    push_text(args, "-sn");
    push_text(args, "-dn");
    push_text(args, "-af");
    push_text(args, "aresample=async=1");
    push_text(args, "-vsync");
    push_text(args, "1");
    push_text(args, "-max_muxing_queue_size");
    push_text(args, "1024");
    push_text(args, "-vf");
    push_text(args, "yadif");
    push_text(args, "-pix_fmt");
    push_text(args, "yuv420p");
    push_text(args, "-c:v");
    push_text(args, "libx264");
    push_text(args, "-threads");
    let mut digits: Vec<char> = Vec::new();
    push_decimal(&mut digits, threads as u64);
    assert(digits@ =~= decimal(threads as nat));
    let count = string_of(&digits);
    push_text(args, count.as_str());
    push_text(args, "-profile:v");
    push_text(args, "baseline");
    push_text(args, "-level");
    push_text(args, "3.1");
    push_text(args, "-flags");
    push_text(args, "+cgop");
    push_text(args, "-g");
    push_text(args, "50");
    push_text(args, "-keyint_min");
    push_text(args, "50");
    push_text(args, "-sc_threshold");
    push_text(args, "0");
    push_text(args, "-force_key_frames");
    push_text(args, "expr:gte(t,n_forced*2)");
    push_text(args, "-crf");
    push_text(args, "18");
    push_text(args, "-maxrate");
    push_text(args, "12M");
    push_text(args, "-bufsize");
    push_text(args, "24M");
    push_text(args, "-c:a");
    push_text(args, "aac");
    push_text(args, "-ac");
    push_text(args, "2");
    push_text(args, "-b:a");
    push_text(args, "128k");
    match mode {
        TuningMode::LowLatency => {
            push_text(args, "-preset");
            push_text(args, "fast");
            push_text(args, "-tune");
            push_text(args, "zerolatency");
        },
        TuningMode::Smooth => {
            push_text(args, "-preset");
            push_text(args, "medium");
        },
    }
}

fn push_fmp4_output(args: &mut Vec<String>)
    ensures
        string_views(final(args)@) == with_fmp4_output(string_views(old(args)@)),
{
    push_text(args, "-f");
    push_text(args, "mp4");
    push_text(args, "-movflags");
    push_text(args, "frag_keyframe+empty_moov+default_base_moof");
    push_text(args, "pipe:1");
}

fn push_hls_output(args: &mut Vec<String>, target: &HlsTarget)
    ensures
        string_views(final(args)@) == with_hls_output(
            string_views(old(args)@),
            target.segment_pattern@,
            target.playlist@,
        ),
{
    push_text(args, "-mpegts_flags");
    push_text(args, "+resend_headers");
    push_text(args, "-f");
    push_text(args, "hls");
    push_text(args, "-hls_time");
    push_text(args, "2");
    push_text(args, "-hls_list_size");
    push_text(args, "10");
    push_text(args, "-hls_playlist_type");
    push_text(args, "event");
    push_text(args, "-hls_flags");
    push_text(args, "delete_segments+independent_segments+omit_endlist");
    push_text(args, "-hls_segment_filename");
    push_text(args, target.segment_pattern.as_str());
    push_text(args, target.playlist.as_str());
}

/// The argument list the encoder is started with; see [`spec_ffmpeg_args`].
pub fn ffmpeg_args(
    url: &str,
    mode: TuningMode,
    transport: &str,
    hls: Option<&HlsTarget>,
    threads: u8,
) -> (args: Vec<String>)
    ensures
        string_views(args@) == spec_ffmpeg_args(
            url@,
            mode,
            transport@,
            match hls {
                Some(t) => Some((t.segment_pattern@, t.playlist@)),
                None => None,
            },
            threads,
        ),
{
    let mut args: Vec<String> = Vec::new();
    assert(string_views(args@) =~= Seq::<Seq<char>>::empty());
    push_input_args(&mut args, url, mode, transport);
    push_output_args(&mut args, mode, threads);
    push_fmp4_output(&mut args);
    match hls {
        Some(target) => {
            push_output_args(&mut args, mode, threads);
            push_hls_output(&mut args, target);
        },
        None => {},
    }
    args
}

/// The files of the HLS output in directory `dir`.
pub fn hls_target(dir: &str) -> (t: HlsTarget)
    ensures
        t.segment_pattern@ == joined_path(dir@, segment_pattern_name()),
        t.playlist@ == joined_path(dir@, playlist_name()),
{
    HlsTarget {
        segment_pattern: join_path(dir, "seg_%05d.ts"),
        playlist: join_path(dir, "index.m3u8"),
    }
}

/// The lines after one more line arrived: the oldest line leaves when the ring
/// is full, and the new line joins without the white space at its ends.
pub open spec fn ring_after(lines: Seq<Seq<char>>, raw: Seq<char>) -> Seq<Seq<char>> {
    if lines.len() >= STDERR_RING_LINES {
        lines.drop_first().push(trim(raw))
    } else {
        lines.push(trim(raw))
    }
}

/// How the encoder came to its end.
#[derive(Clone, Copy, Debug, PartialEq, Eq, Structural)]
pub enum ExitKind {
    /// The supervisor had asked the encoder to stop.
    Requested,
    /// The encoder ended with success although nobody asked it to.
    UnexpectedSuccess,
    /// The encoder ended with an error status.
    Failed,
    /// Waiting for the encoder failed.
    WaitFailed,
}

/// What the supervisor reports when the encoder has ended.
pub struct ExitReport {
    pub kind: ExitKind,
    /// Whether the encoder had closed its output before it ended.
    pub saw_stdout_eof: bool,
    /// For a failed encoder: the kept diagnostic lines, one per line; `None`
    /// when none was kept.
    pub stderr_tail: Option<String>,
}

/// How an exit is classified. `waited` is `None` when waiting for the process
/// failed, and else tells whether the process ended with success.
pub open spec fn exit_kind(stop_requested: bool, waited: Option<bool>) -> ExitKind {
    match waited {
        None => ExitKind::WaitFailed,
        Some(success) => if stop_requested {
            ExitKind::Requested
        } else if success {
            ExitKind::UnexpectedSuccess
        } else {
            ExitKind::Failed
        },
    }
}

/// The diagnostic lines reported with an exit of the given kind.
pub open spec fn exit_tail(kind: ExitKind, lines: Seq<Seq<char>>) -> Option<Seq<char>> {
    if kind == ExitKind::Failed && lines.len() > 0 {
        Some(join(lines, seq!['\n']))
    } else {
        None
    }
}

/// What happened at the encoder's output.
pub enum ReadEvent<'a> {
    /// The owner of the stream asked for the encoder to stop.
    StopRequested,
    /// The encoder closed its output.
    Eof,
    /// The encoder wrote these bytes.
    Data(&'a [u8]),
    /// Reading failed.
    Failed,
}

/// What the supervisor does after an event.
pub enum ReadStep {
    /// Go on reading; this is what the read completed.
    Continue(FramerOutput),
    /// Kill the encoder, then wait for its end.
    KillAndWait,
    /// Wait for the encoder's end.
    Wait,
}

/// The supervisor as a mathematical value.
pub struct TranscoderState {
    pub channel_id: Seq<char>,
    pub url: Seq<char>,
    pub args: Seq<Seq<char>>,
    pub framer: FramerState,
    pub stderr: Seq<Seq<char>>,
    pub stop_requested: bool,
    pub saw_stdout_eof: bool,
}

/// The supervisor of one encoder.
pub struct Transcoder {
    channel_id: String,
    url: String,
    args: Vec<String>,
    framer: Framer,
    stderr_ring: VecDeque<String>,
    stop_requested: bool,
    saw_stdout_eof: bool,
}

impl Transcoder {
    /// The supervisor as a mathematical value.
    pub closed spec fn view(&self) -> TranscoderState {
        TranscoderState {
            channel_id: self.channel_id@,
            url: self.url@,
            args: string_views(self.args@),
            framer: self.framer@,
            stderr: string_views(self.stderr_ring@),
            stop_requested: self.stop_requested,
            saw_stdout_eof: self.saw_stdout_eof,
        }
    }

    /// The framer is well formed and drained, and the ring is within its size.
    pub open spec fn wf(&self) -> bool {
        &&& self@.framer.wf()
        &&& self@.framer.drained()
        &&& self@.stderr.len() <= STDERR_RING_LINES
    }

    /// The supervisor of an encoder that is yet to be started. Its argument
    /// list is that of [`spec_ffmpeg_args`] for the two HLS files in `hls_dir`.
    pub fn new(
        channel_id: String,
        url: String,
        mode: TuningMode,
        transport: String,
        hls_dir: Option<String>,
        threads: u8,
    ) -> (t: Transcoder)
        ensures
            t.wf(),
            t@ == (TranscoderState {
                channel_id: channel_id@,
                url: url@,
                args: spec_ffmpeg_args(
                    url@,
                    mode,
                    transport@,
                    match hls_dir {
                        Some(dir) => Some(
                            (
                                joined_path(dir@, segment_pattern_name()),
                                joined_path(dir@, playlist_name()),
                            ),
                        ),
                        None => None,
                    },
                    threads,
                ),
                framer: FramerState::initial(),
                stderr: Seq::empty(),
                stop_requested: false,
                saw_stdout_eof: false,
            }),
    {
        let args = match &hls_dir {
            Some(dir) => {
                let target = hls_target(dir.as_str());
                ffmpeg_args(url.as_str(), mode, transport.as_str(), Some(&target), threads)
            },
            None => ffmpeg_args(url.as_str(), mode, transport.as_str(), None, threads),
        };
        let t = Transcoder {
            channel_id,
            url,
            args,
            framer: Framer::new(),
            stderr_ring: VecDeque::new(),
            stop_requested: false,
            saw_stdout_eof: false,
        };
        assert(string_views(t.stderr_ring@) =~= Seq::<Seq<char>>::empty());
        t
    }

    /// The channel the encoder serves.
    pub fn channel_id(&self) -> (r: &str)
        ensures
            r@ == self@.channel_id,
    {
        self.channel_id.as_str()
    }

    /// The URL the encoder reads.
    pub fn url(&self) -> (r: &str)
        ensures
            r@ == self@.url,
    {
        self.url.as_str()
    }

    /// The argument list to start the encoder with.
    pub fn args(&self) -> (r: &Vec<String>)
        ensures
            string_views(r@) == self@.args,
    {
        &self.args
    }

    /// Whether a read of `extra` bytes may be handed to [`Transcoder::on_read`].
    pub fn has_room_for(&self, extra: usize) -> (r: bool)
        ensures
            r == (self@.framer.held() + extra <= buffer_limit()),
    {
        self.framer.has_room_for(extra)
    }

    /// Takes one event at the encoder's output.
    ///
    /// Data goes through the framer and reading goes on. A stop request is
    /// remembered, and the encoder is to be killed. The end of the output is
    /// remembered. After anything but data the supervisor waits for the encoder.
    pub fn on_read(&mut self, event: ReadEvent<'_>) -> (step: ReadStep)
        requires
            old(self).wf(),
            event matches ReadEvent::Data(chunk) ==> old(self)@.framer.held() + chunk@.len()
                <= buffer_limit(),
        ensures
            final(self).wf(),
            match event {
                ReadEvent::Data(chunk) => {
                    &&& step matches ReadStep::Continue(out)
                    &&& final(self)@ == (TranscoderState {
                        framer: spec_feed(old(self)@.framer, chunk@).0,
                        ..old(self)@
                    })
                    &&& step->Continue_0@ == spec_feed(old(self)@.framer, chunk@).1
                    &&& step->Continue_0.fault == fault_of(scan_atom(final(self)@.framer.pending))
                },
                ReadEvent::StopRequested => {
                    &&& step is KillAndWait
                    &&& final(self)@ == (TranscoderState { stop_requested: true, ..old(self)@ })
                },
                ReadEvent::Eof => {
                    &&& step is Wait
                    &&& final(self)@ == (TranscoderState { saw_stdout_eof: true, ..old(self)@ })
                },
                ReadEvent::Failed => {
                    &&& step is Wait
                    &&& final(self)@ == old(self)@
                },
            },
    {
        match event {
            ReadEvent::Data(chunk) => {
                let out = self.framer.feed(chunk);
                ReadStep::Continue(out)
            },
            ReadEvent::StopRequested => {
                self.stop_requested = true;
                ReadStep::KillAndWait
            },
            ReadEvent::Eof => {
                self.saw_stdout_eof = true;
                ReadStep::Wait
            },
            ReadEvent::Failed => ReadStep::Wait,
        }
    }

    /// Keeps one diagnostic line of the encoder, without the white space at its
    /// ends, and returns it as kept. Of more than 50 lines the oldest leave.
    pub fn on_stderr_line(&mut self, raw: &str) -> (line: String)
        requires
            old(self).wf(),
        ensures
            final(self).wf(),
            final(self)@ == (TranscoderState {
                stderr: ring_after(old(self)@.stderr, raw@),
                ..old(self)@
            }),
            line@ == trim(raw@),
    {
        let kept = trimmed(&chars_of(raw));
        let line = string_of(&kept);
        let ghost before = self.stderr_ring@;
        if self.stderr_ring.len() >= STDERR_RING_LINES {
            let _oldest = self.stderr_ring.pop_front();
            assert(string_views(self.stderr_ring@) =~= string_views(before).drop_first());
        }
        let ghost middle = self.stderr_ring@;
        self.stderr_ring.push_back(line.clone());
        assert(string_views(self.stderr_ring@) =~= string_views(middle).push(line@));
        line
    }

    /// Classifies the end of the encoder. `waited` is `None` when waiting for
    /// the process failed, and else tells whether it ended with success.
    pub fn on_exit(&self, waited: Option<bool>) -> (report: ExitReport)
        ensures
            report.kind == exit_kind(self@.stop_requested, waited),
            report.saw_stdout_eof == self@.saw_stdout_eof,
            match report.stderr_tail {
                Some(t) => exit_tail(report.kind, self@.stderr) == Some(t@),
                None => exit_tail(report.kind, self@.stderr) is None,
            },
    {
        let kind = match waited {
            None => ExitKind::WaitFailed,
            Some(success) => if self.stop_requested {
                ExitKind::Requested
            } else if success {
                ExitKind::UnexpectedSuccess
            } else {
                ExitKind::Failed
            },
        };
        let mut stderr_tail: Option<String> = None;
        if kind == ExitKind::Failed && self.stderr_ring.len() > 0 {
            let mut lines: Vec<Vec<char>> = Vec::new();
            let mut i: usize = 0;
            assert(crate::text::views(lines@) =~= string_views(self.stderr_ring@).take(0));
            while i < self.stderr_ring.len()
                invariant
                    i <= self.stderr_ring@.len(),
                    crate::text::views(lines@) == string_views(self.stderr_ring@).take(i as int),
                decreases self.stderr_ring@.len() - i,
            {
                let ghost before = lines@;
                let l = chars_of(self.stderr_ring[i].as_str());
                lines.push(l);
                i = i + 1;
                assert(crate::text::views(lines@) =~= crate::text::views(before).push(l@));
                assert(string_views(self.stderr_ring@).take(i as int) =~= string_views(
                    self.stderr_ring@,
                ).take(i - 1).push(l@));
                assert(crate::text::views(lines@) =~= string_views(self.stderr_ring@).take(
                    i as int,
                ));
            }
            assert(string_views(self.stderr_ring@).take(self.stderr_ring@.len() as int)
                =~= string_views(self.stderr_ring@));
            let mut sep: Vec<char> = Vec::new();
            sep.push('\n');
            assert(sep@ =~= seq!['\n']);
            stderr_tail = Some(string_of(&join_with(&lines, &sep)));
        }
        ExitReport { kind, saw_stdout_eof: self.saw_stdout_eof, stderr_tail }
    }
}

} // verus!
