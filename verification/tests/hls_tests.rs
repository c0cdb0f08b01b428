use fritztv::hls::{
    dir_name, hex16, is_stale_artifact, is_valid_segment_name, stable_hash_u64, HlsManager, WaitStep,
    WAIT_SLICE_MILLIS,
};
use fritztv::http::{
    content_range, header_reply, parse_range, segment_reply, unsatisfied_range, RangeReply,
    HEADER_POLLS, HEADER_POLL_MILLIS,
};
use fritztv::playlist::{extinf_durations, first_segment_name, needed_target, rewrite_playlist};
use fritztv::transcoder::TuningMode;
use std::hash::{Hash, Hasher};

fn manager() -> HlsManager {
    HlsManager::new(TuningMode::Smooth, "udp".to_string())
}

#[test]
fn segment_path_accepts_segment_names() {
    let p = HlsManager::segment_path("/tmp/x", "seg_00001.ts").unwrap();
    assert_eq!(std::path::Path::new(&p), std::path::Path::new("/tmp/x").join("seg_00001.ts"));
    assert!(p.ends_with("seg_00001.ts"));
    assert!(p.starts_with("/tmp/x"));
    assert!(HlsManager::segment_path("/tmp/x", "seg_.ts").is_some());
    assert!(HlsManager::segment_path("/tmp/x", "seg_a.b.ts").is_some());
}

#[test]
fn segment_path_rejects_unsafe_names() {
    for name in [
        "", "index.m3u8", "seg_1.mp4", "xseg_1.ts", "seg_/1.ts", "seg_../1.ts", "seg_..ts",
        "seg_a..b.ts", "../seg_1.ts", "seg_1.ts/", "seg_1.tsx", "SEG_1.ts", "seg", ".ts", "seg_ts",
        "seg_.t", "seg.ts",
    ] {
        assert_eq!(HlsManager::segment_path("/tmp/x", name), None, "{}", name);
    }
}

#[test]
fn playlist_path_is_index_in_the_directory() {
    let p = HlsManager::playlist_path("/tmp/x");
    assert_eq!(std::path::Path::new(&p), std::path::Path::new("/tmp/x").join("index.m3u8"));
    assert!(p.ends_with("index.m3u8"));
}

#[test]
fn stale_artifacts_are_playlist_and_segments() {
    assert!(is_stale_artifact("index.m3u8"));
    assert!(is_stale_artifact("seg_00001.ts"));
    assert!(is_stale_artifact("seg_.ts"));
    assert!(is_stale_artifact("seg_a/b.ts"));
    assert!(!is_stale_artifact("index.m3u8.tmp"));
    assert!(!is_stale_artifact("notes.txt"));
    assert!(!is_stale_artifact("seg_1.mp4"));
    assert!(!is_stale_artifact("aseg_1.ts"));
    assert!(!is_stale_artifact(""));
}

#[test]
fn directory_name_is_the_hash_in_hex() {
    let url = "rtsp://192.168.178.1:554/?avm=1&freq=450";
    let mut hasher = std::collections::hash_map::DefaultHasher::new();
    url.hash(&mut hasher);
    let hash = hasher.finish();
    assert_eq!(stable_hash_u64(url), hash);
    assert_eq!(dir_name(url), format!("{:016x}", hash));
    assert_eq!(dir_name(url).len(), 16);
    assert_eq!(stable_hash_u64(url), stable_hash_u64(url));
    assert_ne!(stable_hash_u64(url), stable_hash_u64("rtsp://other"));
}

#[test]
fn session_is_created_once() {
    let mut m = manager();
    assert_eq!(m.base_dir(), "/tmp/fritztv-hls");
    let first = m.get_or_start("id".to_string(), "rtsp://a".to_string(), 10);
    assert!(first.created);
    assert_eq!(
        std::path::Path::new(&first.dir),
        std::path::Path::new("/tmp/fritztv-hls").join(dir_name("rtsp://a"))
    );
    let second = m.get_or_start("id".to_string(), "rtsp://b".to_string(), 11);
    assert!(!second.created);
    assert_eq!(second.dir, first.dir);
    let other = m.get_or_start("id2".to_string(), "rtsp://b".to_string(), 12);
    assert!(other.created);
    assert_ne!(other.dir, first.dir);
}

#[test]
fn forgotten_session_is_created_again() {
    let mut m = manager();
    m.get_or_start("id".to_string(), "rtsp://a".to_string(), 10);
    m.forget("id");
    m.forget("unknown");
    assert!(m.get_or_start("id".to_string(), "rtsp://a".to_string(), 11).created);
}

#[test]
fn playlist_event_raises_the_flag_once() {
    let mut m = manager();
    let s = m.get_or_start("id".to_string(), "rtsp://a".to_string(), 10);
    assert!(!m.playlist_ready("id"));
    assert_eq!(m.on_file_event(&format!("{}/seg_00001.ts", s.dir)), None);
    assert!(!m.playlist_ready("id"));
    assert_eq!(m.on_file_event("/elsewhere/index.m3u8"), None);
    assert!(!m.playlist_ready("id"));
    assert_eq!(m.on_file_event(&format!("{}/index.m3u8", s.dir)), Some("id".to_string()));
    assert!(m.playlist_ready("id"));
    assert_eq!(m.on_file_event(&format!("{}/index.m3u8", s.dir)), None);
    assert!(m.playlist_ready("id"));
}

#[test]
fn new_session_clears_the_flag() {
    let mut m = manager();
    let s = m.get_or_start("id".to_string(), "rtsp://a".to_string(), 10);
    m.on_file_event(&format!("{}/index.m3u8", s.dir));
    assert_eq!(m.prepare_new_session("id"), Some(s.dir.clone()));
    assert!(!m.playlist_ready("id"));
    assert_eq!(m.prepare_new_session("unknown"), None);
    m.touch("id", 20);
    m.touch("unknown", 20);
}

#[test]
fn waiting_for_the_playlist() {
    let mut m = manager();
    assert_eq!(m.wait_for_playlist("id"), WaitStep::Done(false));
    let s = m.get_or_start("id".to_string(), "rtsp://a".to_string(), 10);
    assert_eq!(m.wait_for_playlist("id"), WaitStep::Wait);
    assert_eq!(m.wait_again("id", false, false), WaitStep::Wait);
    assert_eq!(m.wait_again("id", true, false), WaitStep::Done(true));
    assert_eq!(m.wait_again("id", false, true), WaitStep::Done(false));
    assert_eq!(m.wait_again("gone", false, false), WaitStep::Wait);
    m.on_file_event(&format!("{}/index.m3u8", s.dir));
    assert_eq!(m.wait_for_playlist("id"), WaitStep::Done(true));
    assert_eq!(m.wait_again("id", false, true), WaitStep::Done(true));
    assert_eq!(WAIT_SLICE_MILLIS, 500);
}

#[test]
fn playlist_is_rewritten_for_strict_players() {
    let input = "#EXTM3U\n#EXT-X-VERSION:6\n#EXT-X-TARGETDURATION:2\n#EXT-X-INDEPENDENT-SEGMENTS\n#EXTINF:2.500,\nseg_00001.ts\n";
    let durations = extinf_durations(input);
    assert_eq!(durations, vec!["2.500".to_string()]);
    let out = rewrite_playlist(input, 3);
    assert_eq!(
        out,
        "#EXTM3U\n#EXT-X-VERSION:3\n#EXT-X-TARGETDURATION:3\n#EXTINF:2.500,\nseg_00001.ts\n"
    );
}

#[test]
fn declared_target_is_kept_when_large_enough() {
    let input = "#EXTM3U\r\n#EXT-X-VERSION:3\r\n#EXT-X-TARGETDURATION: 7 \r\n\r\n#EXTINF:2.0,\r\nseg_1.ts\r\n";
    assert_eq!(
        rewrite_playlist(input, 3),
        "#EXTM3U\n#EXT-X-VERSION:3\n#EXT-X-TARGETDURATION:7\n#EXTINF:2.0,\nseg_1.ts\n"
    );
}

#[test]
fn missing_target_follows_the_version() {
    let input = "#EXTM3U\n#EXT-X-VERSION:4\n#EXTINF:1.2,\nseg_1.ts";
    assert_eq!(
        rewrite_playlist(input, 2),
        "#EXTM3U\n#EXT-X-VERSION:3\n#EXT-X-TARGETDURATION:2\n#EXTINF:1.2,\nseg_1.ts\n"
    );
}

#[test]
fn missing_version_and_target_follow_the_header() {
    let input = "#EXTM3U\n#EXTINF:1.2,\nseg_1.ts\n";
    assert_eq!(
        rewrite_playlist(input, 2),
        "#EXTM3U\n#EXT-X-VERSION:3\n#EXT-X-TARGETDURATION:2\n#EXTINF:1.2,\nseg_1.ts\n"
    );
    assert_eq!(rewrite_playlist("", 0), "\n");
}

#[test]
fn unreadable_target_is_replaced_by_the_needed_one() {
    let input = "#EXT-X-TARGETDURATION:abc\n#EXT-X-TARGETDURATION:4\n#EXT-X-TARGETDURATION:x\n";
    assert_eq!(
        rewrite_playlist(input, 9),
        "#EXT-X-TARGETDURATION:9\n#EXT-X-TARGETDURATION:9\n#EXT-X-TARGETDURATION:9\n"
    );
    assert_eq!(
        rewrite_playlist(input, 1),
        "#EXT-X-TARGETDURATION:4\n#EXT-X-TARGETDURATION:4\n#EXT-X-TARGETDURATION:4\n"
    );
}

#[test]
fn durations_and_first_segment_are_found() {
    let input = "#EXTM3U\n#EXTINF: 2.500 ,title\nseg_00001.ts\n#EXTINF:4,\nseg_00002.ts\n#EXTINF:nocomma\nother.ts\n";
    assert_eq!(extinf_durations(input), vec!["2.500".to_string(), "4".to_string()]);
    assert_eq!(first_segment_name(input), Some("seg_00001.ts".to_string()));
    assert_eq!(first_segment_name("#EXTM3U\nother.ts\n"), None);
    assert_eq!(needed_target(&vec![3, 5, 4]), 5);
    assert_eq!(needed_target(&vec![]), 0);
}

#[test]
fn range_header_is_parsed() {
    assert_eq!(parse_range("bytes=0-1"), Some((0, 1)));
    assert_eq!(parse_range("  bytes=10-20 "), Some((10, 20)));
    assert_eq!(parse_range("bytes=5-3"), Some((5, 3)));
    assert_eq!(parse_range("bytes=+5-+7"), Some((5, 7)));
    assert_eq!(parse_range("bytes=0-"), None);
    assert_eq!(parse_range("bytes=-5"), None);
    assert_eq!(parse_range("bytes=0-1-2"), None);
    assert_eq!(parse_range("bytes=0 - 1"), None);
    assert_eq!(parse_range("items=0-1"), None);
    assert_eq!(parse_range("bytes=a-b"), None);
    assert_eq!(parse_range("bytes=0-99999999999999999999999999"), None);
    assert_eq!(parse_range(""), None);
}

#[test]
fn segment_range_is_served_or_ignored() {
    assert_eq!(segment_reply(None, 100), RangeReply::Full);
    assert_eq!(segment_reply(Some("bytes=0-1"), 100), RangeReply::Partial { start: 0, end: 1 });
    assert_eq!(segment_reply(Some("bytes=0-99"), 100), RangeReply::Partial { start: 0, end: 99 });
    assert_eq!(segment_reply(Some("bytes=0-100"), 100), RangeReply::Partial { start: 0, end: 99 });
    assert_eq!(segment_reply(Some("bytes=99-500"), 100), RangeReply::Partial { start: 99, end: 99 });
    assert_eq!(segment_reply(Some("bytes=100-100"), 100), RangeReply::Unsatisfiable);
    assert_eq!(segment_reply(Some("bytes=100-200"), 100), RangeReply::Unsatisfiable);
    assert_eq!(segment_reply(Some("bytes=200-300"), 100), RangeReply::Unsatisfiable);
    assert_eq!(segment_reply(Some("bytes=0-0"), 0), RangeReply::Unsatisfiable);
    assert_eq!(segment_reply(Some("bytes=5-3"), 100), RangeReply::Full);
    assert_eq!(segment_reply(Some("nonsense"), 100), RangeReply::Full);
}

#[test]
fn header_range_is_served_or_refused() {
    assert_eq!(header_reply(None, 100), RangeReply::Full);
    assert_eq!(header_reply(Some("bytes=0-1"), 100), RangeReply::Partial { start: 0, end: 1 });
    assert_eq!(header_reply(Some("bytes=0-100"), 100), RangeReply::Unsatisfiable);
    assert_eq!(header_reply(Some("bytes=200-300"), 100), RangeReply::Unsatisfiable);
    assert_eq!(header_reply(Some("bytes=5-3"), 100), RangeReply::Full);
    assert_eq!(header_reply(Some("bytes=0-"), 100), RangeReply::Full);
}

#[test]
fn content_range_values() {
    assert_eq!(content_range(0, 1, 1234), "bytes 0-1/1234");
    assert_eq!(content_range(10, 4095, 4096), "bytes 10-4095/4096");
    assert_eq!(unsatisfied_range(0), "bytes */0");
    assert_eq!(unsatisfied_range(987), "bytes */987");
    assert_eq!(HEADER_POLLS, 150);
    assert_eq!(HEADER_POLL_MILLIS, 100);
}

#[test]
fn hex16_pads_with_zeros() {
    assert_eq!(hex16(0), "0000000000000000");
    assert_eq!(hex16(0xabc), "0000000000000abc");
    assert_eq!(hex16(u64::MAX), "ffffffffffffffff");
    assert_eq!(hex16(0x0123_4567_89ab_cdef), "0123456789abcdef");
}

#[test]
fn segment_names_are_checked() {
    assert!(is_valid_segment_name("seg_00001.ts"));
    assert!(is_valid_segment_name("seg_.ts"));
    assert!(!is_valid_segment_name("seg_../x.ts"));
    assert!(!is_valid_segment_name("seg_a/b.ts"));
    assert!(!is_valid_segment_name("seg_a..ts"));
    assert!(!is_valid_segment_name("index.m3u8"));
}

#[test]
fn session_opens_in_the_given_directory() {
    let mut m = manager();
    let first = m.open_session("id".to_string(), "/data/one".to_string(), 5);
    assert!(first.created);
    assert_eq!(first.dir, "/data/one");
    let again = m.open_session("id".to_string(), "/data/two".to_string(), 6);
    assert!(!again.created);
    assert_eq!(again.dir, "/data/one");
}

#[test]
fn marking_a_playlist_wakes_once() {
    let mut m = manager();
    m.open_session("a".to_string(), "/data/a".to_string(), 5);
    m.open_session("b".to_string(), "/data/b".to_string(), 5);
    assert_eq!(m.mark_playlist(1), Some("b".to_string()));
    assert_eq!(m.mark_playlist(1), None);
    assert_eq!(m.mark_playlist(2), None);
    assert!(m.playlist_ready("b"));
    assert!(!m.playlist_ready("a"));
}
