use bytes::Bytes;
use fritztv::manager::{
    is_stream_active, AdmissionError, ReaperStep, StreamManager, Subscription, BROADCAST_QUEUE_DEPTH,
    IDLE_GRACE_SECONDS,
};
use fritztv::transcoder::TuningMode;

fn manager(max: usize) -> StreamManager {
    StreamManager::new(TuningMode::LowLatency, "udp".to_string(), max)
}

fn try_join(m: &mut StreamManager, id: &str, url: &str, now: u64) -> Result<Subscription, AdmissionError> {
    m.get_or_start_stream(id.to_string(), url.to_string(), None, now)
}

fn joined(m: &mut StreamManager, id: &str, url: &str, now: u64) -> Subscription {
    match try_join(m, id, url, now) {
        Ok(s) => s,
        Err(e) => panic!("admission failed: {:?}", e),
    }
}

#[test]
fn single_client_gets_slot_one() {
    let mut m = manager(4);
    let sub = joined(&mut m, "X", "rtsp://h/?freq=450&avm=2&pids=100", 1000);
    let order = sub.start.expect("a new stream orders an encoder");
    assert_eq!(order.url, "rtsp://h/?freq=450&avm=1&pids=100");
    assert_eq!(order.transport, "udp");
    assert_eq!(order.mode, TuningMode::LowLatency);
    assert_eq!(order.hls_dir, None);
    assert!(sub.snapshot.is_empty());
    assert!(sub.header.is_none());
    assert_eq!(sub.guard.id(), "X");
    let s = m.stream("X").unwrap();
    assert_eq!(s.avm, 1);
    assert_eq!(s.client_count, 1);
    assert_eq!(s.effective_url, "rtsp://h/?freq=450&avm=1&pids=100");
    assert_eq!(s.mux_key, "freq=450&bw=&msys=&mtype=&sr=&specinv=");
    assert_eq!(s.hls_last_access, 0);
    assert_eq!(m.len(), 1);
}

#[test]
fn stream_is_reaped_after_sixty_idle_seconds() {
    let mut m = manager(4);
    let sub = joined(&mut m, "X", "rtsp://h/?freq=450&avm=2&pids=100", 1000);
    assert_eq!(m.reaper_tick("X", 1001, 0), ReaperStep::Waiting(0));
    assert_eq!(m.release(sub.guard), 0);
    let mut idle = 0u32;
    for second in 1..60u64 {
        match m.reaper_tick("X", 1001 + second, idle) {
            ReaperStep::Waiting(n) => {
                assert_eq!(n, second as u32);
                idle = n;
            }
            ReaperStep::Reaped => panic!("reaped after {} s", second),
        }
        assert_eq!(m.len(), 1);
    }
    assert_eq!(m.reaper_tick("X", 1061, idle), ReaperStep::Reaped);
    assert_eq!(m.len(), 0);
    assert!(m.stream("X").is_none());
    assert_eq!(m.reaper_tick("X", 1062, 0), ReaperStep::Reaped);
}

#[test]
fn reconnect_resets_the_idle_count() {
    let mut m = manager(4);
    let sub = joined(&mut m, "X", "rtsp://h/?freq=450", 10);
    m.release(sub.guard);
    assert_eq!(m.reaper_tick("X", 11, 58), ReaperStep::Waiting(59));
    let again = joined(&mut m, "X", "rtsp://h/?freq=450", 12);
    assert!(again.start.is_none());
    assert_eq!(m.reaper_tick("X", 12, 59), ReaperStep::Waiting(0));
}

#[test]
fn two_programs_on_one_mux_share_the_slot() {
    let mut m = manager(4);
    let a = joined(&mut m, "A", "rtsp://h/?freq=450&pids=100", 5);
    let b = joined(&mut m, "B", "rtsp://h/?freq=450&pids=200", 6);
    assert_eq!(a.start.unwrap().url, "rtsp://h/?freq=450&pids=100&avm=1");
    assert_eq!(b.start.unwrap().url, "rtsp://h/?freq=450&pids=200&avm=1");
    assert_eq!(m.len(), 2);
    assert_eq!(m.stream("A").unwrap().avm, 1);
    assert_eq!(m.stream("B").unwrap().avm, 1);
}

#[test]
fn shared_mux_still_counts_against_the_limit() {
    let mut m = manager(1);
    joined(&mut m, "A", "rtsp://h/?freq=450&pids=100", 5);
    let second = try_join(&mut m, "B", "rtsp://h/?freq=450&pids=200", 6);
    assert_eq!(second.err(), Some(AdmissionError::Capacity(1)));
    assert_eq!(m.len(), 1);
}

#[test]
fn third_mux_is_refused_and_known_stream_is_joined() {
    let mut m = manager(2);
    joined(&mut m, "A", "rtsp://h/?freq=450&pids=1", 1);
    joined(&mut m, "B", "rtsp://h/?freq=500&pids=1", 1);
    assert_eq!(m.stream("A").unwrap().avm, 1);
    assert_eq!(m.stream("B").unwrap().avm, 2);
    let third = try_join(&mut m, "C", "rtsp://h/?freq=600&pids=1", 2);
    assert_eq!(third.err(), Some(AdmissionError::Capacity(2)));
    assert_eq!(m.len(), 2);
    let join = joined(&mut m, "A", "rtsp://h/?freq=450&pids=1", 3);
    assert!(join.start.is_none());
    assert_eq!(m.stream("A").unwrap().client_count, 2);
    assert_eq!(m.stream("A").unwrap().avm, 1);
}

#[test]
fn slot_of_same_mux_is_reused_when_there_is_room() {
    let mut m = manager(3);
    joined(&mut m, "A", "rtsp://h/?freq=450&pids=1", 1);
    joined(&mut m, "B", "rtsp://h/?freq=500&pids=1", 1);
    let c = joined(&mut m, "C", "rtsp://h/?freq=500&pids=2", 2);
    assert_eq!(c.start.unwrap().url, "rtsp://h/?freq=500&pids=2&avm=2");
    assert_eq!(m.stream("C").unwrap().avm, 2);
}

#[test]
fn smallest_free_slot_is_taken() {
    let mut m = manager(4);
    let a = joined(&mut m, "A", "rtsp://h/?freq=1", 100);
    joined(&mut m, "B", "rtsp://h/?freq=2", 100);
    joined(&mut m, "C", "rtsp://h/?freq=3", 100);
    assert_eq!(m.stream("C").unwrap().avm, 3);
    m.release(a.guard);
    joined(&mut m, "D", "rtsp://h/?freq=4", 100);
    assert_eq!(m.stream("D").unwrap().avm, 1);
}

#[test]
fn distinct_muxes_get_distinct_slots_within_the_limit() {
    let mut m = manager(4);
    let mut slots = Vec::new();
    for i in 0..6u64 {
        let id = format!("id{}", i);
        let url = format!("rtsp://h/?freq={}&pids=1", 400 + i);
        match try_join(&mut m, &id, &url, 50 + i) {
            Ok(_) => slots.push(m.stream(&id).unwrap().avm),
            Err(e) => assert_eq!(e, AdmissionError::Capacity(4)),
        }
    }
    assert_eq!(slots, vec![1, 2, 3, 4]);
    assert_eq!(m.len(), 4);
}

#[test]
fn limit_of_zero_counts_as_one() {
    let mut m = manager(0);
    assert_eq!(m.max_parallel_streams(), 1);
    joined(&mut m, "A", "rtsp://h/?freq=1", 1);
    assert!(try_join(&mut m, "B", "rtsp://h/?freq=2", 1).is_err());
}

#[test]
fn client_count_follows_guards() {
    let mut m = manager(2);
    let g1 = joined(&mut m, "A", "rtsp://h/?freq=1", 1).guard;
    let g2 = joined(&mut m, "A", "rtsp://h/?freq=1", 2).guard;
    let g3 = joined(&mut m, "A", "rtsp://h/?freq=1", 3).guard;
    assert_eq!(m.stream("A").unwrap().client_count, 3);
    assert_eq!(m.release(g2), 2);
    assert_eq!(m.stream("A").unwrap().client_count, 2);
    assert_eq!(m.release(g1), 1);
    let g4 = joined(&mut m, "A", "rtsp://h/?freq=1", 4).guard;
    assert_eq!(m.stream("A").unwrap().client_count, 2);
    assert_eq!(m.release(g3), 1);
    assert_eq!(m.release(g4), 0);
    assert_eq!(m.stream("A").unwrap().client_count, 0);
}

#[test]
fn client_count_never_goes_below_zero() {
    let mut m = manager(2);
    let g = joined(&mut m, "A", "rtsp://h/?freq=1", 1).guard;
    let copy = g.clone();
    assert_eq!(m.release(g), 0);
    assert_eq!(m.release(copy), 0);
    assert_eq!(m.stream("A").unwrap().client_count, 0);
}

#[test]
fn guard_of_a_gone_stream_changes_nothing() {
    let mut m = manager(2);
    let g = joined(&mut m, "A", "rtsp://h/?freq=1", 1).guard;
    let first = joined(&mut m, "B", "rtsp://h/?freq=2", 1).guard;
    let stale = first.clone();
    assert_eq!(m.release(first), 0);
    assert_eq!(m.reaper_tick("B", 2, 59), ReaperStep::Reaped);
    assert_eq!(m.release(stale.clone()), 0);
    let second = joined(&mut m, "B", "rtsp://h/?freq=2", 3).guard;
    assert_ne!(second.instance(), stale.instance());
    assert_eq!(m.stream("B").unwrap().instance, second.instance());
    assert_eq!(m.release(stale), 0);
    assert_eq!(m.stream("B").unwrap().client_count, 1);
    assert_eq!(m.stream("A").unwrap().client_count, 1);
    assert_eq!(m.release(second), 0);
    assert_eq!(m.stream("B").unwrap().client_count, 0);
    assert_eq!(m.release(g), 0);
}

#[test]
fn limit_is_capped_at_the_largest_slot() {
    if usize::MAX as u64 > u32::MAX as u64 {
        let m = manager(usize::MAX);
        assert_eq!(m.max_parallel_streams(), u32::MAX as usize);
    }
    assert_eq!(manager(7).max_parallel_streams(), 7);
}

#[test]
fn ensure_stream_attaches_no_viewer() {
    let mut m = manager(2);
    let order = m
        .ensure_stream("A".to_string(), "rtsp://h/?freq=1".to_string(), Some("/tmp/x".to_string()), 77)
        .unwrap()
        .expect("a new stream orders an encoder");
    assert_eq!(order.url, "rtsp://h/?freq=1&avm=1");
    assert_eq!(order.hls_dir, Some("/tmp/x".to_string()));
    let s = m.stream("A").unwrap();
    assert_eq!(s.client_count, 0);
    assert_eq!(s.hls_last_access, 77);
    let again = m
        .ensure_stream("A".to_string(), "rtsp://h/?freq=1".to_string(), Some("/tmp/x".to_string()), 78)
        .unwrap();
    assert!(again.is_none());
    assert_eq!(m.stream("A").unwrap().hls_last_access, 77);
    assert_eq!(m.len(), 1);
}

#[test]
fn ensure_stream_is_refused_when_full() {
    let mut m = manager(1);
    joined(&mut m, "A", "rtsp://h/?freq=1", 1);
    let r = m.ensure_stream("B".to_string(), "rtsp://h/?freq=2".to_string(), None, 2);
    assert_eq!(r.err(), Some(AdmissionError::Capacity(1)));
}

#[test]
fn hls_activity_keeps_the_stream_alive() {
    let mut m = manager(2);
    m.ensure_stream("A".to_string(), "rtsp://h/?freq=1".to_string(), Some("/d".to_string()), 1000)
        .unwrap();
    let mut idle = 0u32;
    let mut now = 1000u64;
    for _ in 0..300 {
        now += 1;
        if now % 10 == 0 {
            m.touch_hls("A", now);
        }
        match m.reaper_tick("A", now, idle) {
            ReaperStep::Waiting(n) => idle = n,
            ReaperStep::Reaped => panic!("reaped at {}", now),
        }
        assert_eq!(idle, 0);
    }
    let last_touch = 1300u64;
    let mut reaped_at = None;
    for _ in 0..200 {
        now += 1;
        match m.reaper_tick("A", now, idle) {
            ReaperStep::Waiting(n) => idle = n,
            ReaperStep::Reaped => {
                reaped_at = Some(now);
                break;
            }
        }
    }
    assert_eq!(reaped_at, Some(last_touch + 2 * IDLE_GRACE_SECONDS));
    assert_eq!(m.len(), 0);
}

#[test]
fn inactive_stream_frees_its_slot() {
    let mut m = manager(3);
    let a = joined(&mut m, "A", "rtsp://h/?freq=1", 1);
    m.release(a.guard);
    let b = joined(&mut m, "B", "rtsp://h/?freq=2", 2);
    assert_eq!(b.start.unwrap().url, "rtsp://h/?freq=2&avm=1");
    assert!(!is_stream_active(m.stream("A").unwrap(), 2));
    assert!(is_stream_active(m.stream("B").unwrap(), 2));
}

#[test]
fn hls_touch_makes_a_stream_active_for_the_grace_period() {
    let mut m = manager(3);
    m.ensure_stream("A".to_string(), "rtsp://h/?freq=1".to_string(), None, 10).unwrap();
    assert!(!is_stream_active(m.stream("A").unwrap(), 10));
    m.touch_hls("A", 100);
    assert!(is_stream_active(m.stream("A").unwrap(), 100));
    assert!(is_stream_active(m.stream("A").unwrap(), 160));
    assert!(!is_stream_active(m.stream("A").unwrap(), 161));
    assert!(is_stream_active(m.stream("A").unwrap(), 50));
    m.touch_hls("missing", 100);
    assert_eq!(m.len(), 1);
}

#[test]
fn slot_from_url_is_the_fallback() {
    let mut m = manager(1);
    joined(&mut m, "A", "rtsp://h/?freq=1", 1);
    let r = try_join(&mut m, "B", "rtsp://h/?freq=2&avm=9", 1);
    assert!(r.is_err());
}

fn fragment(tag: &[u8; 4], fill: u8, len: usize) -> Bytes {
    let mut v = vec![fill; len];
    v[4..8].copy_from_slice(tag);
    Bytes::from(v)
}

#[test]
fn late_joiner_gets_header_and_snapshot() {
    let mut m = manager(2);
    joined(&mut m, "A", "rtsp://h/?freq=1", 1);
    assert!(m.publish_header("A", Bytes::from_static(b"header")));
    assert!(!m.publish_header("A", Bytes::from_static(b"other")));
    assert!(!m.publish_header("B", Bytes::from_static(b"other")));
    m.cache_fragment("A", fragment(b"mdat", 1, 16));
    m.cache_fragment("A", fragment(b"moof", 2, 20));
    m.cache_fragment("A", fragment(b"moof", 3, 24));
    m.cache_fragment("B", fragment(b"moof", 4, 24));
    let sub = joined(&mut m, "A", "rtsp://h/?freq=1", 2);
    assert_eq!(sub.header.unwrap().to_vec(), b"header".to_vec());
    assert_eq!(sub.snapshot.len(), 2);
    assert_eq!(sub.snapshot[0][0], 2);
    assert_eq!(&sub.snapshot[0][4..8], b"moof");
    assert_eq!(sub.snapshot[1][0], 3);
    assert_eq!(m.stream("A").unwrap().cache.len(), 3);
}

#[test]
fn queue_depth_is_8192() {
    assert_eq!(BROADCAST_QUEUE_DEPTH, 8192);
    assert_eq!(IDLE_GRACE_SECONDS, 60);
}
