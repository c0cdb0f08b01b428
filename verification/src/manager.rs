//! The registry of live streams.
//!
//! The manager admits viewers, gives each new stream a tuner slot, counts the
//! viewers of each stream, and removes a stream that has been idle for a minute.
//! It is a state machine over plain values: the caller supplies the wall-clock
//! second and carries out what the manager orders (start an encoder, drop one).
//!
//! The registry is a list in admission order in which no stream-id occurs twice.

use crate::buffers::frozen;
use crate::cache::{contents, evict, spec_snapshot, FragmentCache, MAX_CACHE_BYTES};
use crate::framer::is_moof;
use crate::text::{decimal, push_decimal, same_str, string_of};
use crate::transcoder::TuningMode;
use crate::url::{
    avm_from_rtsp_url, mux_key_from_rtsp_url, set_query_param, spec_mux_key,
    spec_set_query_param, spec_tuner_slot,
};
use bytes::Bytes;
use vstd::prelude::*;

verus! {

/// Seconds a stream without viewers is kept alive.
pub const IDLE_GRACE_SECONDS: u64 = 60;

/// Number of fragments the broadcast queue of one subscriber holds.
pub const BROADCAST_QUEUE_DEPTH: usize = 8192;

/// One live stream as a mathematical value.
pub struct StreamState {
    pub id: Seq<char>,
    /// Tells this stream from an earlier or later one under the same id.
    pub instance: u64,
    pub mux_key: Seq<char>,
    pub slot: u32,
    pub effective_url: Seq<char>,
    pub clients: usize,
    pub hls_last_access: u64,
    pub header: Option<Seq<u8>>,
    pub cache: Seq<Seq<u8>>,
}

/// Whether an HLS request touched the stream within the grace window before
/// `now`. A stream never touched has the time 0.
pub open spec fn hls_active(last: u64, now: u64) -> bool {
    last != 0 && (if now >= last {
        now - last
    } else {
        0
    }) <= IDLE_GRACE_SECONDS
}

impl StreamState {
    /// A stream is active while it has a viewer or recent HLS activity.
    pub open spec fn active(self, now: u64) -> bool {
        self.clients > 0 || hls_active(self.hls_last_access, now)
    }

    /// The stream with one viewer more; the count saturates.
    pub open spec fn attached(self) -> StreamState {
        StreamState {
            clients: if self.clients < usize::MAX {
                (self.clients + 1) as usize
            } else {
                self.clients
            },
            ..self
        }
    }

    /// The stream with one viewer less; the count never goes below zero.
    pub open spec fn detached(self) -> StreamState {
        StreamState {
            clients: if self.clients > 0 {
                (self.clients - 1) as usize
            } else {
                0
            },
            ..self
        }
    }
}

/// Index of the stream with the given id, or the number of streams.
pub open spec fn position(streams: Seq<StreamState>, id: Seq<char>) -> int
    decreases streams.len(),
{
    if streams.len() == 0 {
        0
    } else if streams[0].id == id {
        0
    } else {
        1 + position(streams.drop_first(), id)
    }
}

/// Index of the first active stream on the given mux, or the number of streams.
pub open spec fn sharing(streams: Seq<StreamState>, mux: Seq<char>, now: u64) -> int
    decreases streams.len(),
{
    if streams.len() == 0 {
        0
    } else if streams[0].active(now) && streams[0].mux_key == mux {
        0
    } else {
        1 + sharing(streams.drop_first(), mux, now)
    }
}

/// Whether an active stream holds the slot.
pub open spec fn slot_taken(streams: Seq<StreamState>, slot: u32, now: u64) -> bool {
    exists|i: int| 0 <= i < streams.len() && streams[i].active(now) && streams[i].slot == slot
}

/// The smallest slot from `from` up to `limit` that no active stream holds.
pub open spec fn free_slot_from(streams: Seq<StreamState>, from: u32, limit: u32, now: u64)
    -> Option<u32>
    decreases limit + 1 - from,
{
    if from > limit {
        None
    } else if !slot_taken(streams, from, now) {
        Some(from)
    } else if from == limit {
        None
    } else {
        free_slot_from(streams, (from + 1) as u32, limit, now)
    }
}

/// The highest tuner slot for a limit on parallel streams: the limit, and at
/// most the largest slot number there is.
pub open spec fn slot_limit(max_parallel_streams: usize) -> u32 {
    if max_parallel_streams > u32::MAX {
        u32::MAX
    } else {
        max_parallel_streams as u32
    }
}

/// The instance number after `n`; the numbers saturate.
pub open spec fn next_number(n: u64) -> u64 {
    if n < u64::MAX {
        (n + 1) as u64
    } else {
        n
    }
}

/// The tuner slot for a new stream.
///
/// The slot of the first active stream on the same mux, if there is one; else
/// the smallest free slot from 1 up to the limit; else the slot named in the URL;
/// else 1.
pub open spec fn chosen_slot(streams: Seq<StreamState>, url: Seq<char>, max: usize, now: u64)
    -> u32 {
    if sharing(streams, spec_mux_key(url), now) < streams.len() {
        streams[sharing(streams, spec_mux_key(url), now)].slot
    } else {
        match free_slot_from(streams, 1, slot_limit(max), now) {
            Some(s) => s,
            None => match spec_tuner_slot(url) {
                Some(s) => s,
                None => 1,
            },
        }
    }
}

/// The record of a stream admitted now.
pub open spec fn fresh_stream(
    streams: Seq<StreamState>,
    id: Seq<char>,
    url: Seq<char>,
    has_hls: bool,
    clients: usize,
    max: usize,
    now: u64,
    instance: u64,
) -> StreamState {
    StreamState {
        id,
        instance,
        mux_key: spec_mux_key(url),
        slot: chosen_slot(streams, url, max, now),
        effective_url: spec_set_query_param(
            url,
            "avm"@,
            decimal(chosen_slot(streams, url, max, now) as nat),
        ),
        clients,
        hls_last_access: if has_hls {
            now
        } else {
            0
        },
        header: None,
        cache: Seq::empty(),
    }
}

/// A limit on parallel streams that every registry has: at least 1 and at most
/// the largest tuner slot number.
pub open spec fn valid_limit(max: usize) -> bool {
    1 <= max <= u32::MAX
}

/// Every stream has an instance number below `next`, unless the numbers have
/// run out. A guard given out earlier then names no stream registered later.
pub open spec fn numbered_below(streams: Seq<StreamState>, next: u64) -> bool {
    next == u64::MAX || forall|i: int|
        0 <= i < streams.len() ==> (#[trigger] streams[i]).instance < next
}

/// No stream-id occurs twice.
pub open spec fn distinct_ids(streams: Seq<StreamState>) -> bool {
    forall|i: int, j: int|
        0 <= i < streams.len() && 0 <= j < streams.len() && i != j ==> streams[i].id
            != streams[j].id
}

/// Changing a stream without changing its id keeps the ids distinct.
proof fn lemma_update_keeps_ids(before: Seq<StreamState>, after: Seq<StreamState>, at: int)
    requires
        distinct_ids(before),
        0 <= at < before.len(),
        after.len() == before.len(),
        forall|i: int| 0 <= i < before.len() ==> (#[trigger] after[i]).id == before[i].id,
    ensures
        distinct_ids(after),
{
    assert forall|i: int, j: int|
        0 <= i < after.len() && 0 <= j < after.len() && i != j implies after[i].id
        != after[j].id by {
        assert(before[i].id != before[j].id);
    }
}

/// Adding a stream under an id that no stream has keeps the ids distinct.
proof fn lemma_push_keeps_ids(before: Seq<StreamState>, added: StreamState)
    requires
        distinct_ids(before),
        position(before, added.id) >= before.len(),
    ensures
        distinct_ids(before.push(added)),
{
    lemma_position(before, added.id);
    let after = before.push(added);
    assert forall|i: int, j: int|
        0 <= i < after.len() && 0 <= j < after.len() && i != j implies after[i].id
        != after[j].id by {
        if i < before.len() && j < before.len() {
            assert(before[i].id != before[j].id);
        }
    }
}

/// `position` is within bounds, no stream before it has the id, and the stream
/// at it, if there is one, has.
pub proof fn lemma_position(streams: Seq<StreamState>, id: Seq<char>)
    ensures
        0 <= position(streams, id) <= streams.len(),
        forall|i: int| 0 <= i < position(streams, id) ==> streams[i].id != id,
        position(streams, id) < streams.len() ==> streams[position(streams, id)].id == id,
    decreases streams.len(),
{
    if streams.len() > 0 && streams[0].id != id {
        let t = streams.drop_first();
        lemma_position(t, id);
        assert forall|i: int| 0 <= i < position(streams, id) implies streams[i].id != id by {
            if i > 0 {
                assert(streams[i] == t[i - 1]);
            }
        }
    }
}

proof fn lemma_position_is(streams: Seq<StreamState>, id: Seq<char>, at: int)
    requires
        0 <= at <= streams.len(),
        forall|i: int| 0 <= i < at ==> streams[i].id != id,
        at < streams.len() ==> streams[at].id == id,
    ensures
        position(streams, id) == at,
{
    lemma_position(streams, id);
    let p = position(streams, id);
    if p < at {
        assert(streams[p].id != id);
    } else if at < p {
        assert(streams[at].id != id);
    }
}

/// `sharing` is within bounds, no stream before it is active on the mux, and the
/// stream at it, if there is one, is.
pub proof fn lemma_sharing(streams: Seq<StreamState>, mux: Seq<char>, now: u64)
    ensures
        0 <= sharing(streams, mux, now) <= streams.len(),
        forall|i: int|
            0 <= i < sharing(streams, mux, now) ==> !(streams[i].active(now) && streams[i].mux_key
                == mux),
        sharing(streams, mux, now) < streams.len() ==> streams[sharing(streams, mux, now)].active(
            now,
        ) && streams[sharing(streams, mux, now)].mux_key == mux,
    decreases streams.len(),
{
    if streams.len() > 0 && !(streams[0].active(now) && streams[0].mux_key == mux) {
        let t = streams.drop_first();
        lemma_sharing(t, mux, now);
        assert forall|i: int| 0 <= i < sharing(streams, mux, now) implies !(streams[i].active(now)
            && streams[i].mux_key == mux) by {
            if i > 0 {
                assert(streams[i] == t[i - 1]);
            }
        }
    }
}

proof fn lemma_sharing_is(streams: Seq<StreamState>, mux: Seq<char>, now: u64, at: int)
    requires
        0 <= at <= streams.len(),
        forall|i: int| 0 <= i < at ==> !(streams[i].active(now) && streams[i].mux_key == mux),
        at < streams.len() ==> streams[at].active(now) && streams[at].mux_key == mux,
    ensures
        sharing(streams, mux, now) == at,
{
    lemma_sharing(streams, mux, now);
    let p = sharing(streams, mux, now);
    if p < at {
        assert(!(streams[p].active(now) && streams[p].mux_key == mux));
    } else if at < p {
        assert(!(streams[at].active(now) && streams[at].mux_key == mux));
    }
}

/// One live stream.
pub struct ActiveStream {
    /// The stream-id under which the stream is registered.
    pub id: String,
    /// Tells this stream from an earlier or later one under the same id.
    pub instance: u64,
    /// The mux key of the URL the stream was admitted with.
    pub mux_key: String,
    /// The tuner slot.
    pub avm: u32,
    /// The URL handed to the encoder: the admitted URL with the tuner slot set.
    pub effective_url: String,
    /// Number of attached viewers of the fragment stream.
    pub client_count: usize,
    /// Second of the last HLS request, 0 if there was none.
    pub hls_last_access: u64,
    /// The initialization header, once the framer has published it.
    pub header: Option<Bytes>,
    /// The recent fragments.
    pub cache: FragmentCache,
}

impl ActiveStream {
    /// The stream as a mathematical value.
    pub open spec fn view(&self) -> StreamState {
        StreamState {
            id: self.id@,
            instance: self.instance,
            mux_key: self.mux_key@,
            slot: self.avm,
            effective_url: self.effective_url@,
            clients: self.client_count,
            hls_last_access: self.hls_last_access,
            header: match self.header {
                Some(h) => Some(frozen(h)),
                None => None,
            },
            cache: self.cache@,
        }
    }
}

/// The views of a list of streams.
pub open spec fn states(streams: Seq<ActiveStream>) -> Seq<StreamState> {
    streams.map_values(|s: ActiveStream| s@)
}

/// Whether the stream is active at `now`.
pub fn is_stream_active(stream: &ActiveStream, now: u64) -> (r: bool)
    ensures
        r == stream@.active(now),
{
    let hls_last: u64 = stream.hls_last_access;
    let hls_active = hls_last != 0 && now.saturating_sub(hls_last) <= IDLE_GRACE_SECONDS;
    stream.client_count > 0 || hls_active
}

/// Proof that a viewer is attached to a stream. Handing it back to
/// [`StreamManager::release`] detaches the viewer from that stream, and from no
/// later stream under the same id.
#[derive(Clone)]
pub struct ClientGuard {
    id: String,
    instance: u64,
}

impl ClientGuard {
    /// The id of the stream the viewer is attached to.
    pub closed spec fn stream_id(&self) -> Seq<char> {
        self.id@
    }

    /// The instance number of the stream the viewer is attached to.
    pub closed spec fn stream_instance(&self) -> u64 {
        self.instance
    }

    /// The instance number of the stream the viewer is attached to.
    pub fn instance(&self) -> (r: u64)
        ensures
            r == self.stream_instance(),
    {
        self.instance
    }

    /// The id of the stream the viewer is attached to.
    pub fn id(&self) -> (r: &str)
        ensures
            r@ == self.stream_id(),
    {
        self.id.as_str()
    }
}

/// Why an admission failed.
#[derive(Clone, Copy, Debug, PartialEq, Eq, Structural)]
pub enum AdmissionError {
    /// The registry already holds as many streams as may run in parallel.
    Capacity(usize),
}

/// What a new encoder is to be started with.
pub struct EncoderOrder {
    /// The URL with the tuner slot set.
    pub url: String,
    pub mode: TuningMode,
    pub transport: String,
    /// Directory of the HLS output, if there is one.
    pub hls_dir: Option<String>,
}

/// What a viewer gets on admission.
pub struct Subscription {
    /// The initialization header, if it has been published.
    pub header: Option<Bytes>,
    /// The cached fragments to replay, from a fragment boundary.
    pub snapshot: Vec<Bytes>,
    /// The token to hand back when the viewer leaves.
    pub guard: ClientGuard,
    /// Set when the stream is new: the encoder to start.
    pub start: Option<EncoderOrder>,
}

/// What the idle reaper of a stream does after a tick.
#[derive(Clone, Copy, Debug, PartialEq, Eq, Structural)]
pub enum ReaperStep {
    /// Keep ticking, with this count of idle seconds.
    Waiting(u32),
    /// The stream is gone from the registry; its encoder is to be dropped.
    Reaped,
}

/// The registry as a mathematical value.
pub struct ManagerState {
    pub streams: Seq<StreamState>,
    /// The instance number of the next new stream.
    pub next_instance: u64,
    pub mode: TuningMode,
    pub transport: Seq<char>,
    pub max_parallel_streams: usize,
}

/// The streams after a viewer asked for `id`: the stream with one viewer more
/// when it is live, the streams unchanged when the registry is full, and else
/// the streams with the fresh one at the end.
pub open spec fn admitted(
    streams: Seq<StreamState>,
    id: Seq<char>,
    url: Seq<char>,
    has_hls: bool,
    max: usize,
    now: u64,
    instance: u64,
) -> Seq<StreamState> {
    let at = position(streams, id);
    if at < streams.len() {
        streams.update(at, streams[at].attached())
    } else if streams.len() >= max {
        streams
    } else {
        streams.push(fresh_stream(streams, id, url, has_hls, 1, max, now, instance))
    }
}

/// The instance number of the next new stream after `id` was asked for: the
/// next number when a stream was registered, else the same.
pub open spec fn next_after(streams: Seq<StreamState>, id: Seq<char>, max: usize, next: u64) -> u64 {
    if position(streams, id) >= streams.len() && streams.len() < max {
        next_number(next)
    } else {
        next
    }
}

/// The streams after an HLS request asked for `id`: unchanged when the stream
/// is live or the registry is full, and else with the fresh stream, which has no
/// viewer, at the end.
pub open spec fn ensured(
    streams: Seq<StreamState>,
    id: Seq<char>,
    url: Seq<char>,
    has_hls: bool,
    max: usize,
    now: u64,
    instance: u64,
) -> Seq<StreamState> {
    if position(streams, id) < streams.len() || streams.len() >= max {
        streams
    } else {
        streams.push(fresh_stream(streams, id, url, has_hls, 0, max, now, instance))
    }
}

/// Whether asking for `id` is refused for lack of capacity.
pub open spec fn refused(streams: Seq<StreamState>, id: Seq<char>, max: usize) -> bool {
    position(streams, id) >= streams.len() && streams.len() >= max
}

/// The streams after a viewer left the stream `id` with the given instance
/// number. A stream under that id with another number is left alone.
pub open spec fn released(streams: Seq<StreamState>, id: Seq<char>, instance: u64) -> Seq<
    StreamState,
> {
    let at = position(streams, id);
    if at < streams.len() && streams[at].instance == instance {
        streams.update(at, streams[at].detached())
    } else {
        streams
    }
}

/// The streams after an HLS request touched `id` at `now`.
pub open spec fn touched(streams: Seq<StreamState>, id: Seq<char>, now: u64) -> Seq<StreamState> {
    let at = position(streams, id);
    if at < streams.len() {
        streams.update(at, StreamState { hls_last_access: now, ..streams[at] })
    } else {
        streams
    }
}

/// The streams after the framer of `id` published the header. The header is
/// written once: a later one is ignored.
pub open spec fn with_header(streams: Seq<StreamState>, id: Seq<char>, header: Seq<u8>) -> Seq<
    StreamState,
> {
    let at = position(streams, id);
    if at < streams.len() && streams[at].header is None {
        streams.update(at, StreamState { header: Some(header), ..streams[at] })
    } else {
        streams
    }
}

/// The streams after a fragment of `id` was broadcast.
pub open spec fn with_fragment(streams: Seq<StreamState>, id: Seq<char>, fragment: Seq<u8>) -> Seq<
    StreamState,
> {
    let at = position(streams, id);
    if at < streams.len() {
        streams.update(
            at,
            StreamState {
                cache: evict(streams[at].cache.push(fragment), MAX_CACHE_BYTES as nat),
                ..streams[at]
            },
        )
    } else {
        streams
    }
}

/// The idle count after one more idle second; it saturates.
pub open spec fn next_idle(idle_seconds: u32) -> u32 {
    if idle_seconds < u32::MAX {
        (idle_seconds + 1) as u32
    } else {
        idle_seconds
    }
}

/// What one tick of the idle reaper of `id` does.
///
/// A stream with a viewer or recent HLS activity resets the idle count. Each
/// tick without either adds a second, and the tick that brings the count to the
/// grace period removes the stream. A stream that is gone ends the reaper.
pub open spec fn reaper_step(streams: Seq<StreamState>, id: Seq<char>, now: u64, idle_seconds: u32)
    -> (Seq<StreamState>, ReaperStep) {
    let at = position(streams, id);
    if at >= streams.len() {
        (streams, ReaperStep::Reaped)
    } else if streams[at].active(now) {
        (streams, ReaperStep::Waiting(0))
    } else if next_idle(idle_seconds) >= IDLE_GRACE_SECONDS {
        (streams.remove(at), ReaperStep::Reaped)
    } else {
        (streams, ReaperStep::Waiting(next_idle(idle_seconds)))
    }
}

/// The registry of live streams.
pub struct StreamManager {
    streams: Vec<ActiveStream>,
    next_instance: u64,
    mode: TuningMode,
    transport: String,
    max_parallel_streams: usize,
}

impl StreamManager {
    /// The registry as a mathematical value.
    pub closed spec fn view(&self) -> ManagerState {
        ManagerState {
            streams: states(self.streams@),
            next_instance: self.next_instance,
            mode: self.mode,
            transport: self.transport@,
            max_parallel_streams: self.max_parallel_streams,
        }
    }

    /// No id occurs twice, every cache is within its bound, and the limit on
    /// parallel streams is a tuner slot number: at least 1 and at most `u32::MAX`.
    pub closed spec fn wf(&self) -> bool {
        &&& distinct_ids(states(self.streams@))
        &&& forall|i: int| 0 <= i < self.streams@.len() ==> (#[trigger] self.streams@[i]).cache.wf()
        &&& valid_limit(self.max_parallel_streams)
        &&& numbered_below(states(self.streams@), self.next_instance)
    }

    /// In a well-formed registry no id occurs twice, the limit is valid, and
    /// every stream has an instance number below the next one to be given, as
    /// long as the numbers have not run out.
    pub proof fn lemma_wf(&self)
        requires
            self.wf(),
        ensures
            distinct_ids(self@.streams),
            valid_limit(self@.max_parallel_streams),
            numbered_below(self@.streams, self@.next_instance),
    {
    }

    /// An empty registry. A limit of 0 parallel streams counts as 1, and a limit
    /// above `u32::MAX`, the largest tuner slot, counts as `u32::MAX`.
    pub fn new(mode: TuningMode, transport: String, max_parallel_streams: usize) -> (m:
        StreamManager)
        ensures
            m.wf(),
            m@ == (ManagerState {
                streams: Seq::empty(),
                mode,
                transport: transport@,
                next_instance: 0,
                max_parallel_streams: if max_parallel_streams < 1 {
                    1
                } else if max_parallel_streams > u32::MAX {
                    u32::MAX as usize
                } else {
                    max_parallel_streams
                },
            }),
    {
        let max: usize = if max_parallel_streams < 1 {
            1
        } else if max_parallel_streams > 0xffff_ffff {
            0xffff_ffff
        } else {
            max_parallel_streams
        };
        let m = StreamManager {
            streams: Vec::new(),
            next_instance: 0,
            mode,
            transport,
            max_parallel_streams: max,
        };
        assert(states(m.streams@) =~= Seq::<StreamState>::empty());
        m
    }

    /// Number of live streams.
    pub fn len(&self) -> (n: usize)
        ensures
            n == self@.streams.len(),
    {
        self.streams.len()
    }

    /// The limit on parallel streams.
    pub fn max_parallel_streams(&self) -> (n: usize)
        ensures
            n == self@.max_parallel_streams,
    {
        self.max_parallel_streams
    }

    fn find(&self, id: &str) -> (at: usize)
        ensures
            at == position(self@.streams, id@),
            at <= self.streams@.len(),
    {
        let mut i: usize = 0;
        while i < self.streams.len() && !same_str(self.streams[i].id.as_str(), id)
            invariant
                i <= self.streams@.len(),
                forall|k: int| 0 <= k < i ==> states(self.streams@)[k].id != id@,
            decreases self.streams@.len() - i,
        {
            i = i + 1;
        }
        proof {
            lemma_position_is(states(self.streams@), id@, i as int);
        }
        i
    }

    /// The stream registered under `id`, if it is live.
    pub fn stream(&self, id: &str) -> (r: Option<&ActiveStream>)
        ensures
            match r {
                Some(s) => position(self@.streams, id@) < self@.streams.len() && s@
                    == self@.streams[position(self@.streams, id@)],
                None => position(self@.streams, id@) >= self@.streams.len(),
            },
    {
        let at = self.find(id);
        if at < self.streams.len() {
            Some(&self.streams[at])
        } else {
            None
        }
    }

    fn choose_slot(&self, url: &str, mux: &str, now: u64) -> (slot: u32)
        requires
            mux@ == spec_mux_key(url@),
        ensures
            slot == chosen_slot(self@.streams, url@, self@.max_parallel_streams, now),
    {
        let ghost streams = states(self.streams@);
        let n: usize = self.streams.len();
        let mut i: usize = 0;
        while i < n
            invariant
                n == self.streams@.len(),
                i <= n,
                streams == states(self.streams@),
                streams == self@.streams,
                mux@ == spec_mux_key(url@),
                forall|k: int|
                    0 <= k < i ==> !(streams[k].active(now) && streams[k].mux_key == mux@),
            decreases n - i,
        {
            if is_stream_active(&self.streams[i], now) && same_str(
                self.streams[i].mux_key.as_str(),
                mux,
            ) {
                proof {
                    lemma_sharing_is(streams, mux@, now, i as int);
                }
                return self.streams[i].avm;
            }
            i = i + 1;
        }
        proof {
            lemma_sharing_is(streams, mux@, now, n as int);
        }
        let limit: u32 = if self.max_parallel_streams > 0xffff_ffff {
            0xffff_ffff
        } else {
            self.max_parallel_streams as u32
        };
        if limit >= 1 {
            let mut candidate: u32 = 1;
            loop
                invariant_except_break
                    free_slot_from(streams, 1, limit, now) == free_slot_from(
                        streams,
                        candidate,
                        limit,
                        now,
                    ),
                invariant
                    1 <= candidate <= limit,
                    n == self.streams@.len(),
                    streams == states(self.streams@),
                    streams == self@.streams,
                    mux@ == spec_mux_key(url@),
                    limit == slot_limit(self@.max_parallel_streams),
                    sharing(streams, mux@, now) >= streams.len(),
                ensures
                    free_slot_from(streams, 1, limit, now) is None,
                decreases limit - candidate,
            {
                let mut taken = false;
                let mut j: usize = 0;
                while j < n
                    invariant
                        n == self.streams@.len(),
                        j <= n,
                        streams == states(self.streams@),
                        taken ==> slot_taken(streams, candidate, now),
                        !taken ==> forall|k: int|
                            0 <= k < j ==> !(streams[k].active(now) && streams[k].slot
                                == candidate),
                    decreases n - j,
                {
                    if is_stream_active(&self.streams[j], now) && self.streams[j].avm
                        == candidate {
                        assert(streams[j as int].active(now) && streams[j as int].slot
                            == candidate);
                        taken = true;
                    }
                    j = j + 1;
                }
                if !taken {
                    return candidate;
                }
                if candidate == limit {
                    break;
                }
                candidate = candidate + 1;
            }
        }
        match avm_from_rtsp_url(url) {
            Some(s) => s,
            None => 1,
        }
    }

    fn start_stream(&mut self, id: String, url: String, hls_dir: Option<String>, clients: usize, now: u64) -> (order: EncoderOrder)
        requires
            old(self).wf(),
            position(old(self)@.streams, id@) >= old(self)@.streams.len(),
        ensures
            final(self).wf(),
            final(self)@ == (ManagerState {
                streams: old(self)@.streams.push(
                    fresh_stream(
                        old(self)@.streams,
                        id@,
                        url@,
                        hls_dir is Some,
                        clients,
                        old(self)@.max_parallel_streams,
                        now,
                        old(self)@.next_instance,
                    ),
                ),
                next_instance: next_number(old(self)@.next_instance),
                ..old(self)@
            }),
            order.url@ == final(self)@.streams.last().effective_url,
            order.mode == old(self)@.mode,
            order.transport@ == old(self)@.transport,
            order.hls_dir == hls_dir,
    {
        let mux = mux_key_from_rtsp_url(url.as_str());
        let slot = self.choose_slot(url.as_str(), mux.as_str(), now);
        let mut digits: Vec<char> = Vec::new();
        push_decimal(&mut digits, slot as u64);
        assert(digits@ =~= decimal(slot as nat));
        let text = string_of(&digits);
        let effective_url = set_query_param(url.as_str(), "avm", text.as_str());
        let order = EncoderOrder {
            url: effective_url.clone(),
            mode: self.mode,
            transport: self.transport.clone(),
            hls_dir,
        };
        let instance: u64 = self.next_instance;
        if instance < u64::MAX {
            self.next_instance = instance + 1;
        }
        let stream = ActiveStream {
            id,
            instance,
            mux_key: mux,
            avm: slot,
            effective_url,
            client_count: clients,
            hls_last_access: if order.hls_dir.is_some() {
                now
            } else {
                0
            },
            header: None,
            cache: FragmentCache::new(),
        };
        let ghost before = self.streams@;
        self.streams.push(stream);
        proof {
            assert(states(self.streams@) =~= states(before).push(stream@));
            lemma_push_keeps_ids(states(before), stream@);
        }
        order
    }

    /// Admits a viewer of the fragment stream `id`.
    ///
    /// When the stream is live the viewer joins it and gets the header, if
    /// published, and a snapshot of the cache. Otherwise, unless the registry is
    /// full, the stream is registered with a tuner slot and one viewer, and the
    /// encoder to start is ordered. The new streams are those of [`admitted`]; the
    /// call fails exactly when [`refused`] holds.
    pub fn get_or_start_stream(
        &mut self,
        id: String,
        url: String,
        hls_dir: Option<String>,
        now: u64,
    ) -> (r: Result<Subscription, AdmissionError>)
        requires
            old(self).wf(),
        ensures
            final(self).wf(),
            final(self)@ == (ManagerState {
                streams: admitted(
                    old(self)@.streams,
                    id@,
                    url@,
                    hls_dir is Some,
                    old(self)@.max_parallel_streams,
                    now,
                    old(self)@.next_instance,
                ),
                next_instance: next_after(
                    old(self)@.streams,
                    id@,
                    old(self)@.max_parallel_streams,
                    old(self)@.next_instance,
                ),
                ..old(self)@
            }),
            r is Err <==> refused(old(self)@.streams, id@, old(self)@.max_parallel_streams),
            r is Err ==> r == Err::<Subscription, AdmissionError>(
                AdmissionError::Capacity(old(self)@.max_parallel_streams),
            ),
            r is Ok ==> ({
                let sub = r->Ok_0;
                let at = position(old(self)@.streams, id@);
                let joined = at < old(self)@.streams.len();
                &&& sub.guard.stream_id() == id@
                &&& sub.guard.stream_instance() == (if joined {
                    old(self)@.streams[at].instance
                } else {
                    old(self)@.next_instance
                })
                &&& (sub.start is Some) == !joined
                &&& joined ==> contents(sub.snapshot@) == spec_snapshot(
                    old(self)@.streams[at].cache,
                ) && (match sub.header {
                    Some(h) => Some(frozen(h)),
                    None => None,
                }) == old(self)@.streams[at].header
                &&& !joined ==> sub.snapshot@.len() == 0 && sub.header is None
                    && sub.start->Some_0.url@ == final(self)@.streams.last().effective_url
                    && sub.start->Some_0.mode == old(self)@.mode && sub.start->Some_0.transport@
                    == old(self)@.transport && sub.start->Some_0.hls_dir == hls_dir
                &&& sub.snapshot@.len() == 0 || is_moof(contents(sub.snapshot@)[0])
            }),
    {
        let at = self.find(id.as_str());
        if at < self.streams.len() {
            let ghost before = self.streams@;
            let count: usize = self.streams[at].client_count;
            if count < usize::MAX {
                self.streams[at].client_count = count + 1;
            }
            let snapshot = self.streams[at].cache.snapshot();
            let header = match &self.streams[at].header {
                Some(h) => Some(h.clone()),
                None => None,
            };
            proof {
                assert(states(self.streams@) =~= states(before).update(
                    at as int,
                    states(before)[at as int].attached(),
                ));
                lemma_update_keeps_ids(states(before), states(self.streams@), at as int);
            }
            let guard = ClientGuard { id, instance: self.streams[at].instance };
            return Ok(Subscription { header, snapshot, guard, start: None });
        }
        if self.streams.len() >= self.max_parallel_streams {
            return Err(AdmissionError::Capacity(self.max_parallel_streams));
        }
        let guard = ClientGuard { id: id.clone(), instance: self.next_instance };
        let order = self.start_stream(id, url, hls_dir, 1, now);
        Ok(Subscription { header: None, snapshot: Vec::new(), guard, start: Some(order) })
    }

    /// Makes sure the stream `id` runs, without attaching a viewer.
    ///
    /// Nothing changes when the stream is live. Otherwise, unless the registry
    /// is full, the stream is registered with a tuner slot and no viewer, and the
    /// encoder to start is returned. The new streams are those of [`ensured`]; the
    /// call fails exactly when [`refused`] holds.
    pub fn ensure_stream(&mut self, id: String, url: String, hls_dir: Option<String>, now: u64) -> (r:
        Result<Option<EncoderOrder>, AdmissionError>)
        requires
            old(self).wf(),
        ensures
            final(self).wf(),
            final(self)@ == (ManagerState {
                streams: ensured(
                    old(self)@.streams,
                    id@,
                    url@,
                    hls_dir is Some,
                    old(self)@.max_parallel_streams,
                    now,
                    old(self)@.next_instance,
                ),
                next_instance: next_after(
                    old(self)@.streams,
                    id@,
                    old(self)@.max_parallel_streams,
                    old(self)@.next_instance,
                ),
                ..old(self)@
            }),
            r is Err <==> refused(old(self)@.streams, id@, old(self)@.max_parallel_streams),
            r is Err ==> r == Err::<Option<EncoderOrder>, AdmissionError>(
                AdmissionError::Capacity(old(self)@.max_parallel_streams),
            ),
            r is Ok ==> ({
                let joined = position(old(self)@.streams, id@) < old(self)@.streams.len();
                &&& (r->Ok_0 is Some) == !joined
                &&& !joined ==> r->Ok_0->Some_0.url@ == final(self)@.streams.last().effective_url
                    && r->Ok_0->Some_0.mode == old(self)@.mode && r->Ok_0->Some_0.transport@
                    == old(self)@.transport && r->Ok_0->Some_0.hls_dir == hls_dir
            }),
    {
        let at = self.find(id.as_str());
        if at < self.streams.len() {
            return Ok(None);
        }
        if self.streams.len() >= self.max_parallel_streams {
            return Err(AdmissionError::Capacity(self.max_parallel_streams));
        }
        let order = self.start_stream(id, url, hls_dir, 0, now);
        Ok(Some(order))
    }
    /// Detaches the viewer that holds `guard` and returns the number of viewers
    /// left. The count never goes below zero. A guard of a stream that is gone
    /// changes nothing, also where a later stream runs under the same id.
    pub fn release(&mut self, guard: ClientGuard) -> (left: usize)
        requires
            old(self).wf(),
        ensures
            final(self).wf(),
            final(self)@ == (ManagerState {
                streams: released(
                    old(self)@.streams,
                    guard.stream_id(),
                    guard.stream_instance(),
                ),
                ..old(self)@
            }),
            left == (if position(old(self)@.streams, guard.stream_id()) < old(self)@.streams.len()
                && old(self)@.streams[position(
                old(self)@.streams,
                guard.stream_id(),
            )].instance == guard.stream_instance() {
                final(self)@.streams[position(old(self)@.streams, guard.stream_id())].clients
            } else {
                0
            }),
    {
        let at = self.find(guard.id.as_str());
        if at >= self.streams.len() || self.streams[at].instance != guard.instance {
            return 0;
        }
        let ghost before = self.streams@;
        let left: usize = self.streams[at].client_count.saturating_sub(1);
        self.streams[at].client_count = left;
        proof {
            assert(states(self.streams@) =~= states(before).update(
                at as int,
                states(before)[at as int].detached(),
            ));
            lemma_update_keeps_ids(states(before), states(self.streams@), at as int);
        }
        left
    }

    /// Records an HLS request for `id` at `now`.
    pub fn touch_hls(&mut self, id: &str, now: u64)
        requires
            old(self).wf(),
        ensures
            final(self).wf(),
            final(self)@ == (ManagerState {
                streams: touched(old(self)@.streams, id@, now),
                ..old(self)@
            }),
    {
        let at = self.find(id);
        if at < self.streams.len() {
            let ghost before = self.streams@;
            self.streams[at].hls_last_access = now;
            proof {
                assert(states(self.streams@) =~= states(before).update(
                    at as int,
                    StreamState { hls_last_access: now, ..states(before)[at as int] },
                ));
                lemma_update_keeps_ids(states(before), states(self.streams@), at as int);
            }
        }
    }

    /// Stores the initialization header of `id`, unless one is stored already or
    /// the stream is gone. Returns whether it was stored.
    pub fn publish_header(&mut self, id: &str, header: Bytes) -> (stored: bool)
        requires
            old(self).wf(),
        ensures
            final(self).wf(),
            final(self)@ == (ManagerState {
                streams: with_header(old(self)@.streams, id@, frozen(header)),
                ..old(self)@
            }),
            stored == (position(old(self)@.streams, id@) < old(self)@.streams.len() && old(
                self,
            )@.streams[position(old(self)@.streams, id@)].header is None),
    {
        let at = self.find(id);
        if at >= self.streams.len() || self.streams[at].header.is_some() {
            return false;
        }
        let ghost before = self.streams@;
        self.streams[at].header = Some(header);
        proof {
            assert(states(self.streams@) =~= states(before).update(
                at as int,
                StreamState { header: Some(frozen(header)), ..states(before)[at as int] },
            ));
            lemma_update_keeps_ids(states(before), states(self.streams@), at as int);
        }
        true
    }

    /// Appends a broadcast fragment of `id` to the cache of the stream, which
    /// then drops its oldest fragments until it is within its bound.
    pub fn cache_fragment(&mut self, id: &str, fragment: Bytes)
        requires
            old(self).wf(),
        ensures
            final(self).wf(),
            final(self)@ == (ManagerState {
                streams: with_fragment(old(self)@.streams, id@, frozen(fragment)),
                ..old(self)@
            }),
    {
        let at = self.find(id);
        if at < self.streams.len() {
            let ghost before = self.streams@;
            self.streams[at].cache.push(fragment);
            proof {
                assert(states(self.streams@) =~= states(before).update(
                    at as int,
                    StreamState {
                        cache: evict(
                            states(before)[at as int].cache.push(frozen(fragment)),
                            MAX_CACHE_BYTES as nat,
                        ),
                        ..states(before)[at as int]
                    },
                ));
                lemma_update_keeps_ids(states(before), states(self.streams@), at as int);
            }
        }
    }

    /// One tick of the idle reaper of `id`, a second after the last one; see
    /// [`reaper_step`].
    pub fn reaper_tick(&mut self, id: &str, now: u64, idle_seconds: u32) -> (step: ReaperStep)
        requires
            old(self).wf(),
        ensures
            final(self).wf(),
            final(self)@ == (ManagerState {
                streams: reaper_step(old(self)@.streams, id@, now, idle_seconds).0,
                ..old(self)@
            }),
            step == reaper_step(old(self)@.streams, id@, now, idle_seconds).1,
    {
        let at = self.find(id);
        if at >= self.streams.len() {
            return ReaperStep::Reaped;
        }
        if is_stream_active(&self.streams[at], now) {
            return ReaperStep::Waiting(0);
        }
        let idle: u32 = idle_seconds.saturating_add(1);
        if idle as u64 >= IDLE_GRACE_SECONDS {
            let ghost before = self.streams@;
            let _gone = self.streams.remove(at);
            proof {
                assert(states(self.streams@) =~= states(before).remove(at as int));
                assert forall|i: int, j: int|
                    0 <= i < self.streams@.len() && 0 <= j < self.streams@.len() && i
                        != j implies states(self.streams@)[i].id != states(self.streams@)[j].id by {
                    let a = if i < at { i } else { i + 1 };
                    let b = if j < at { j } else { j + 1 };
                    assert(states(before)[a].id != states(before)[b].id);
                }
                assert forall|i: int| 0 <= i < self.streams@.len() implies (
                #[trigger] self.streams@[i]).cache.wf() by {
                    let a = if i < at { i } else { i + 1 };
                    assert(before[a].cache.wf());
                }
            }
            return ReaperStep::Reaped;
        }
        ReaperStep::Waiting(idle)
    }
}

/// What `free_slot_from` returns: a slot in range that no active stream holds,
/// below which every slot from `from` on is taken; or nothing, when every slot
/// from `from` to `limit` is taken.
pub proof fn lemma_free_slot(streams: Seq<StreamState>, from: u32, limit: u32, now: u64)
    ensures
        match free_slot_from(streams, from, limit, now) {
            Some(f) => from <= f <= limit && !slot_taken(streams, f, now) && forall|s: u32|
                from <= s < f ==> slot_taken(streams, s, now),
            None => forall|s: u32| from <= s <= limit ==> slot_taken(streams, s, now),
        },
    decreases limit + 1 - from,
{
    if from <= limit && slot_taken(streams, from, now) && from < limit {
        lemma_free_slot(streams, (from + 1) as u32, limit, now);
    }
}

/// When each of the slots 1 to `k` is held by an active stream, there are at
/// least `k` streams.
pub proof fn lemma_taken_slots_need_streams(streams: Seq<StreamState>, k: u32, now: u64)
    requires
        forall|s: u32| 1 <= s <= k ==> slot_taken(streams, s, now),
    ensures
        k <= streams.len(),
    decreases k,
{
    if k > 0 {
        assert(slot_taken(streams, k, now));
        let at = choose|i: int|
            0 <= i < streams.len() && streams[i].active(now) && streams[i].slot == k;
        let rest = streams.remove(at);
        assert forall|s: u32| 1 <= s <= k - 1 implies slot_taken(rest, s, now) by {
            assert(slot_taken(streams, s, now));
            let i = choose|i: int|
                0 <= i < streams.len() && streams[i].active(now) && streams[i].slot == s;
            let j = if i < at {
                i
            } else {
                i - 1
            };
            assert(rest[j] == streams[i]);
        }
        lemma_taken_slots_need_streams(rest, (k - 1) as u32, now);
    }
}

/// Every slot is between 1 and the limit, and two streams that are active at
/// `now` on different muxes hold different slots.
pub open spec fn slots_apart(streams: Seq<StreamState>, max: usize, now: u64) -> bool {
    &&& forall|i: int| 0 <= i < streams.len() ==> 1 <= (#[trigger] streams[i]).slot <= max
    &&& forall|i: int, j: int|
        0 <= i < streams.len() && 0 <= j < streams.len() && streams[i].active(now)
            && streams[j].active(now) && streams[i].mux_key != streams[j].mux_key
            ==> streams[i].slot != streams[j].slot
}

/// A stream admitted while the registry has room gets a slot between 1 and the
/// limit: the slot of an active stream on its mux, or one that no active stream
/// holds. Admission keeps the slots of active streams on different muxes apart.
pub proof fn lemma_admission_keeps_slots_apart(
    streams: Seq<StreamState>,
    id: Seq<char>,
    url: Seq<char>,
    has_hls: bool,
    clients: usize,
    max: usize,
    now: u64,
    instance: u64,
)
    requires
        slots_apart(streams, max, now),
        valid_limit(max),
        streams.len() < max,
    ensures
        slots_apart(
            streams.push(fresh_stream(streams, id, url, has_hls, clients, max, now, instance)),
            max,
            now,
        ),
        1 <= chosen_slot(streams, url, max, now) <= max,
        sharing(streams, spec_mux_key(url), now) >= streams.len() ==> !slot_taken(
            streams,
            chosen_slot(streams, url, max, now),
            now,
        ),
{
    let mux = spec_mux_key(url);
    let fresh = fresh_stream(streams, id, url, has_hls, clients, max, now, instance);
    let after = streams.push(fresh);
    let limit = slot_limit(max);
    assert(limit == max);
    lemma_sharing(streams, mux, now);
    let p = sharing(streams, mux, now);
    if p >= streams.len() {
        lemma_free_slot(streams, 1, limit, now);
        if free_slot_from(streams, 1, limit, now) is None {
            lemma_taken_slots_need_streams(streams, limit, now);
        }
    }
    assert forall|i: int, j: int|
        0 <= i < after.len() && 0 <= j < after.len() && after[i].active(now) && after[j].active(
            now,
        ) && after[i].mux_key != after[j].mux_key implies after[i].slot != after[j].slot by {
        let n = streams.len() as int;
        if i < n && j < n {
            assert(streams[i].slot != streams[j].slot);
        } else if i != j {
            let old_one = if i < n {
                i
            } else {
                j
            };
            if p < n {
                assert(streams[old_one].slot != streams[p].slot);
            } else {
                assert(!slot_taken(streams, fresh.slot, now));
            }
        }
    }
}

/// One call of `get_or_start_stream`.
pub struct Request {
    pub id: Seq<char>,
    pub url: Seq<char>,
    pub has_hls: bool,
    pub now: u64,
}

/// The streams after the requests were served, in order, by an empty registry.
pub open spec fn admitted_all(max: usize, requests: Seq<Request>) -> Seq<StreamState>
    decreases requests.len(),
{
    if requests.len() == 0 {
        Seq::empty()
    } else {
        admitted(
            admitted_all(max, requests.drop_last()),
            requests.last().id,
            requests.last().url,
            requests.last().has_hls,
            max,
            requests.last().now,
            instances_given(max, requests.drop_last()),
        )
    }
}

/// The instance number of the next new stream after the requests were served.
pub open spec fn instances_given(max: usize, requests: Seq<Request>) -> u64
    decreases requests.len(),
{
    if requests.len() == 0 {
        0
    } else {
        next_after(
            admitted_all(max, requests.drop_last()),
            requests.last().id,
            max,
            instances_given(max, requests.drop_last()),
        )
    }
}

spec fn served(streams: Seq<StreamState>, max: usize, requests: Seq<Request>) -> bool {
    &&& streams.len() <= max
    &&& streams.len() <= requests.len()
    &&& forall|i: int| 0 <= i < streams.len() ==> (#[trigger] streams[i]).clients >= 1
    &&& forall|i: int| 0 <= i < streams.len() ==> 1 <= (#[trigger] streams[i]).slot <= max
    &&& forall|i: int|
        0 <= i < streams.len() ==> exists|r: int|
            0 <= r < requests.len() && (#[trigger] streams[i]).mux_key == spec_mux_key(
                requests[r].url,
            )
    &&& forall|i: int, j: int|
        0 <= i < streams.len() && 0 <= j < streams.len() && i != j ==> streams[i].mux_key
            != streams[j].mux_key && streams[i].slot != streams[j].slot
}

proof fn lemma_served(max: usize, requests: Seq<Request>)
    requires
        valid_limit(max),
        forall|i: int, j: int|
            0 <= i < requests.len() && 0 <= j < requests.len() && i != j ==> spec_mux_key(
                requests[i].url,
            ) != spec_mux_key(requests[j].url),
    ensures
        served(admitted_all(max, requests), max, requests),
    decreases requests.len(),
{
    if requests.len() > 0 {
        let earlier = requests.drop_last();
        let last = requests.last();
        lemma_served(max, earlier);
        let streams = admitted_all(max, earlier);
        let after = admitted_all(max, requests);
        let at = position(streams, last.id);
        lemma_position(streams, last.id);
        assert forall|i: int| 0 <= i < after.len() implies exists|r: int|
            0 <= r < requests.len() && (#[trigger] after[i]).mux_key == spec_mux_key(
                requests[r].url,
            ) by {
            if i < streams.len() {
                let r = choose|r: int|
                    0 <= r < earlier.len() && streams[i].mux_key == spec_mux_key(earlier[r].url);
                assert(requests[r] == earlier[r]);
                assert(after[i].mux_key == streams[i].mux_key);
            } else {
                assert(after[i].mux_key == spec_mux_key(requests[requests.len() - 1].url));
            }
        }
        if at >= streams.len() && streams.len() < max {
            let mux = spec_mux_key(last.url);
            let now = last.now;
            assert forall|i: int| 0 <= i < streams.len() implies streams[i].mux_key != mux by {
                let r = choose|r: int|
                    0 <= r < earlier.len() && streams[i].mux_key == spec_mux_key(earlier[r].url);
                assert(requests[r] == earlier[r]);
            }
            lemma_sharing(streams, mux, now);
            assert(slots_apart(streams, max, now));
            let instance = instances_given(max, earlier);
            lemma_admission_keeps_slots_apart(
                streams,
                last.id,
                last.url,
                last.has_hls,
                1,
                max,
                now,
                instance,
            );
            let fresh = fresh_stream(
                streams,
                last.id,
                last.url,
                last.has_hls,
                1,
                max,
                now,
                instance,
            );
            assert forall|i: int| 0 <= i < streams.len() implies streams[i].slot != fresh.slot by {
                assert(streams[i].active(now));
            }
        }
    }
}

/// Viewers admitted one after the other by an empty registry with a valid
/// limit, for streams on pairwise different muxes: at most as many streams run as the limit allows,
/// every tuner slot is between 1 and the limit, no two streams share a slot, and
/// every stream has a viewer, so that it is active whatever the time.
pub proof fn lemma_distinct_muxes_get_distinct_slots(max: usize, requests: Seq<Request>)
    requires
        valid_limit(max),
        forall|i: int, j: int|
            0 <= i < requests.len() && 0 <= j < requests.len() && i != j ==> spec_mux_key(
                requests[i].url,
            ) != spec_mux_key(requests[j].url),
    ensures
        admitted_all(max, requests).len() <= max,
        forall|i: int|
            0 <= i < admitted_all(max, requests).len() ==> 1 <= (#[trigger] admitted_all(
                max,
                requests,
            )[i]).slot <= max,
        forall|i: int, j: int|
            0 <= i < admitted_all(max, requests).len() && 0 <= j < admitted_all(
                max,
                requests,
            ).len() && i != j ==> admitted_all(max, requests)[i].slot != admitted_all(
                max,
                requests,
            )[j].slot,
        forall|i: int, now: u64|
            0 <= i < admitted_all(max, requests).len() ==> #[trigger] admitted_all(
                max,
                requests,
            )[i].active(now),
{
    lemma_served(max, requests);
}

/// What happens to the viewers of one stream: one is admitted, or one leaves.
pub enum GuardEvent {
    Admitted,
    Dropped,
}

/// The stream after the events, in order.
pub open spec fn after_events(start: StreamState, events: Seq<GuardEvent>) -> StreamState
    decreases events.len(),
{
    if events.len() == 0 {
        start
    } else {
        match events.last() {
            GuardEvent::Admitted => after_events(start, events.drop_last()).attached(),
            GuardEvent::Dropped => after_events(start, events.drop_last()).detached(),
        }
    }
}

/// The number of guards that are out after the events, from `start` guards.
pub open spec fn guards_out(start: int, events: Seq<GuardEvent>) -> int
    decreases events.len(),
{
    if events.len() == 0 {
        start
    } else {
        match events.last() {
            GuardEvent::Admitted => guards_out(start, events.drop_last()) + 1,
            GuardEvent::Dropped => guards_out(start, events.drop_last()) - 1,
        }
    }
}

/// The viewer count of a stream is the number of guards that are out: after any
/// admissions and drops in which only guards that are out are dropped, and never
/// more are out than the counter can hold.
pub proof fn lemma_client_count_is_guards_out(start: StreamState, events: Seq<GuardEvent>)
    requires
        forall|k: int|
            0 <= k <= events.len() ==> 0 <= #[trigger] guards_out(
                start.clients as int,
                events.take(k),
            ) <= usize::MAX,
    ensures
        after_events(start, events).clients == guards_out(start.clients as int, events),
    decreases events.len(),
{
    if events.len() > 0 {
        let earlier = events.drop_last();
        assert forall|k: int| 0 <= k <= earlier.len() implies 0 <= #[trigger] guards_out(
            start.clients as int,
            earlier.take(k),
        ) <= usize::MAX by {
            assert(earlier.take(k) =~= events.take(k));
        }
        lemma_client_count_is_guards_out(start, earlier);
        assert(events.take(events.len() as int) =~= events);
        assert(events.take(events.len() - 1) =~= earlier);
        assert(0 <= guards_out(start.clients as int, events.take(events.len() as int)));
        assert(0 <= guards_out(start.clients as int, events.take(events.len() - 1)));
    } else {
        assert(events.take(0) =~= events);
    }
}

} // verus!
