//! The HLS sessions: one directory per stream, and whether its playlist is
//! there yet.
//!
//! The manager keeps, for each stream-id, the directory the encoder writes its
//! playlist and segments to, the second of the last request, and whether the
//! playlist has appeared. It decides which names in a directory are stale
//! output, which segment names may be served, and what a file event or a waiting
//! request leads to. Touching the file system is left to the caller.

use crate::paths::{file_name_of, is_under, join_path, joined_path, path_file_name, path_under};
use crate::text::{
    chars_of, contains_text, ends_with, find_char, has_char, has_prefix, has_suffix, has_text,
    lemma_no_char, same_str, starts_with, string_of,
};
use crate::transcoder::TuningMode;
use std::collections::hash_map::DefaultHasher;
use std::hash::Hash;
use std::hash::Hasher;
use vstd::prelude::*;
use vstd::std_specs::hash::DefaultHasherAdditionalSpecFns;

verus! {

/// What hashing a string writes to a hasher, write by write.
pub uninterp spec fn str_hash_writes(value: Seq<char>) -> Seq<Seq<u8>>;

/// Calls `Hash::hash` of `str`, which feeds the string to the hasher. The
/// contract names what is written: it is the same for the same string.
#[verifier::external_body]
fn hash_str(value: &str, state: &mut DefaultHasher)
    ensures
        final(state)@ == old(state)@ + str_hash_writes(value@),
{
    value.hash(state)
}

/// The hash of a string under the default hasher with its fixed keys.
pub open spec fn spec_stable_hash(value: Seq<char>) -> u64 {
    DefaultHasher::spec_finish(str_hash_writes(value))
}

/// The hash of a string under the default hasher with its fixed keys: the same
/// for the same string in every run.
pub fn stable_hash_u64(value: &str) -> (r: u64)
    ensures
        r == spec_stable_hash(value@),
{
    let mut hasher = DefaultHasher::new();
    hash_str(value, &mut hasher);
    assert(hasher@ =~= str_hash_writes(value@));
    hasher.finish()
}

/// The lowercase hexadecimal digit for a number below 16.
pub open spec fn hex_digit(d: nat) -> char {
    if d < 10 {
        ((d + 48) as u8) as char
    } else {
        ((d + 87) as u8) as char
    }
}

/// The last `count` hexadecimal digits of `n`, with leading zeros.
pub open spec fn hex_digits(n: nat, count: nat) -> Seq<char>
    decreases count,
{
    if count == 0 {
        Seq::empty()
    } else {
        hex_digits(n / 16, (count - 1) as nat).push(hex_digit(n % 16))
    }
}

fn push_hex(out: &mut Vec<char>, n: u64, count: u8)
    ensures
        final(out)@ == old(out)@ + hex_digits(n as nat, count as nat),
    decreases count,
{
    if count == 0 {
        assert(out@ =~= old(out)@ + hex_digits(n as nat, 0));
        return ;
    }
    push_hex(out, n / 16, count - 1);
    let d: u8 = (n % 16) as u8;
    let c: char = if d < 10 {
        (d + 48u8) as char
    } else {
        (d + 87u8) as char
    };
    out.push(c);
    assert(out@ =~= old(out)@ + hex_digits(n as nat, count as nat));
}

/// The name of the directory of a stream: the hash of its URL as 16 lowercase
/// hexadecimal digits.
pub open spec fn spec_dir_name(url: Seq<char>) -> Seq<char> {
    hex_digits(spec_stable_hash(url) as nat, 16)
}

/// A 64-bit number as 16 lowercase hexadecimal digits.
pub fn hex16(n: u64) -> (r: String)
    ensures
        r@ == hex_digits(n as nat, 16),
{
    let mut out: Vec<char> = Vec::new();
    push_hex(&mut out, n, 16);
    assert(out@ =~= hex_digits(n as nat, 16));
    string_of(&out)
}

/// The name of the directory of a stream; see [`spec_dir_name`].
pub fn dir_name(url: &str) -> (r: String)
    ensures
        r@ == spec_dir_name(url@),
{
    hex16(stable_hash_u64(url))
}

/// Whether a file name is encoder output of an earlier session: the playlist,
/// or a name that starts with `seg_` and ends with `.ts`.
pub open spec fn stale_artifact(name: Seq<char>) -> bool {
    name == "index.m3u8"@ || (starts_with(name, "seg_"@) && ends_with(name, ".ts"@))
}

/// Whether a file in a session directory is to be removed before a new session
/// starts; see [`stale_artifact`].
pub fn is_stale_artifact(name: &str) -> (r: bool)
    ensures
        r == stale_artifact(name@),
{
    if same_str(name, "index.m3u8") {
        return true;
    }
    let n = chars_of(name);
    has_prefix(&n, &chars_of("seg_")) && has_suffix(&n, &chars_of(".ts"))
}

/// Whether a segment name may be served: it starts with `seg_`, ends with
/// `.ts`, and holds neither `/` nor `..`.
pub open spec fn valid_segment_name(name: Seq<char>) -> bool {
    &&& starts_with(name, "seg_"@)
    &&& ends_with(name, ".ts"@)
    &&& !has_char(name, '/')
    &&& !contains_text(name, ".."@)
}

/// Whether a name is `seg_`, then any characters but `/`, then `.ts`.
pub open spec fn fits_segment_pattern(name: Seq<char>) -> bool {
    exists|middle: Seq<char>|
        name == "seg_"@ + #[trigger] as_middle(middle) + ".ts"@ && !has_char(middle, '/')
}

/// The middle part of a segment name; it is `middle` itself, named so that
/// the statement about it has a term to be found by.
pub open spec fn as_middle(middle: Seq<char>) -> Seq<char> {
    middle
}

/// The names that may be served are the names of the form `seg_`, any
/// characters but `/`, `.ts`, that do not hold `..`.
pub proof fn lemma_segment_names(name: Seq<char>)
    ensures
        valid_segment_name(name) <==> fits_segment_pattern(name) && !contains_text(name, ".."@),
{
    reveal_strlit("seg_");
    reveal_strlit(".ts");
    let head = "seg_"@;
    let tail = ".ts"@;
    assert(head.len() == 4 && tail.len() == 3);
    lemma_no_char(name, '/');
    if valid_segment_name(name) {
        let n = name.len() as int;
        assert(name.take(4) == head);
        assert(name.skip(n - 3) == tail);
        assert(name[1] == name.take(4)[1] && name[2] == name.take(4)[2] && name[3] == name.take(
            4,
        )[3]);
        assert(name[n - 3] == name.skip(n - 3)[0]);
        assert(name[1] == 'e' && name[2] == 'g' && name[3] == '_');
        assert(name[n - 3] == '.');
        assert(n >= 7);
        let middle = name.subrange(4, n - 3);
        lemma_no_char(middle, '/');
        assert forall|i: int| 0 <= i < middle.len() implies middle[i] != '/' by {
            assert(middle[i] == name[i + 4]);
        }
        assert(name =~= head + as_middle(middle) + tail);
    }
    if fits_segment_pattern(name) {
        let middle = choose|middle: Seq<char>|
            name == "seg_"@ + #[trigger] as_middle(middle) + ".ts"@ && !has_char(middle, '/');
        lemma_no_char(middle, '/');
        assert(name.take(4) =~= head);
        assert(name.skip(name.len() - 3) =~= tail);
        assert forall|i: int| 0 <= i < name.len() implies name[i] != '/' by {
            if 4 <= i < 4 + middle.len() {
                assert(name[i] == middle[i - 4]);
            } else if i < 4 {
                assert(name[i] == head[i]);
            } else {
                assert(name[i] == tail[i - 4 - middle.len()]);
            }
        }
    }
}

/// Whether a segment name may be served; see [`valid_segment_name`].
pub fn is_valid_segment_name(name: &str) -> (r: bool)
    ensures
        r == valid_segment_name(name@),
{
    let n = chars_of(name);
    let slash = find_char(&n, 0, '/');
    assert(n@.skip(0) =~= n@);
    has_prefix(&n, &chars_of("seg_")) && has_suffix(&n, &chars_of(".ts")) && slash >= n.len()
        && !has_text(&n, &chars_of(".."))
}

/// One HLS session as a mathematical value.
pub struct SessionState {
    pub id: Seq<char>,
    pub dir: Seq<char>,
    pub last_access: u64,
    pub playlist_ready: bool,
}

/// Index of the session of the given id, or the number of sessions.
pub open spec fn session_of(sessions: Seq<SessionState>, id: Seq<char>) -> int
    decreases sessions.len(),
{
    if sessions.len() == 0 {
        0
    } else if sessions[0].id == id {
        0
    } else {
        1 + session_of(sessions.drop_first(), id)
    }
}

/// Index of the first session whose directory the path lies under, or the
/// number of sessions.
pub open spec fn session_over(sessions: Seq<SessionState>, path: Seq<char>) -> int
    decreases sessions.len(),
{
    if sessions.len() == 0 {
        0
    } else if path_under(path, sessions[0].dir) {
        0
    } else {
        1 + session_over(sessions.drop_first(), path)
    }
}

/// No id has two sessions.
pub open spec fn distinct_sessions(sessions: Seq<SessionState>) -> bool {
    forall|i: int, j: int|
        0 <= i < sessions.len() && 0 <= j < sessions.len() && i != j ==> sessions[i].id
            != sessions[j].id
}

/// `session_of` is within bounds, and no session before it has the id.
pub proof fn lemma_session_of_bounds(sessions: Seq<SessionState>, id: Seq<char>)
    ensures
        0 <= session_of(sessions, id) <= sessions.len(),
        forall|i: int| 0 <= i < session_of(sessions, id) ==> sessions[i].id != id,
        session_of(sessions, id) < sessions.len() ==> sessions[session_of(sessions, id)].id == id,
    decreases sessions.len(),
{
    if sessions.len() > 0 && sessions[0].id != id {
        let t = sessions.drop_first();
        lemma_session_of_bounds(t, id);
        assert forall|i: int| 0 <= i < session_of(sessions, id) implies sessions[i].id != id by {
            if i > 0 {
                assert(sessions[i] == t[i - 1]);
            }
        }
    }
}

proof fn lemma_sessions_changed(before: Seq<SessionState>, after: Seq<SessionState>)
    requires
        distinct_sessions(before),
        after.len() == before.len(),
        forall|i: int| 0 <= i < before.len() ==> (#[trigger] after[i]).id == before[i].id,
    ensures
        distinct_sessions(after),
{
    assert forall|i: int, j: int|
        0 <= i < after.len() && 0 <= j < after.len() && i != j implies after[i].id
        != after[j].id by {
        assert(before[i].id != before[j].id);
    }
}

proof fn lemma_session_added(before: Seq<SessionState>, added: SessionState)
    requires
        distinct_sessions(before),
        session_of(before, added.id) >= before.len(),
    ensures
        distinct_sessions(before.push(added)),
{
    lemma_session_of_bounds(before, added.id);
    let after = before.push(added);
    assert forall|i: int, j: int|
        0 <= i < after.len() && 0 <= j < after.len() && i != j implies after[i].id
        != after[j].id by {
        if i < before.len() && j < before.len() {
            assert(before[i].id != before[j].id);
        }
    }
}

proof fn lemma_session_removed(before: Seq<SessionState>, at: int)
    requires
        distinct_sessions(before),
        0 <= at < before.len(),
    ensures
        distinct_sessions(before.remove(at)),
{
    let after = before.remove(at);
    assert forall|i: int, j: int|
        0 <= i < after.len() && 0 <= j < after.len() && i != j implies after[i].id
        != after[j].id by {
        let a = if i < at {
            i
        } else {
            i + 1
        };
        let b = if j < at {
            j
        } else {
            j + 1
        };
        assert(before[a].id != before[b].id);
    }
}

proof fn lemma_session_of(sessions: Seq<SessionState>, id: Seq<char>, at: int)
    requires
        0 <= at <= sessions.len(),
        forall|i: int| 0 <= i < at ==> sessions[i].id != id,
        at < sessions.len() ==> sessions[at].id == id,
    ensures
        session_of(sessions, id) == at,
    decreases sessions.len(),
{
    if sessions.len() > 0 && at > 0 {
        let t = sessions.drop_first();
        assert forall|i: int| 0 <= i < at - 1 implies t[i].id != id by {
            assert(t[i] == sessions[i + 1]);
        }
        lemma_session_of(t, id, at - 1);
    }
}

proof fn lemma_session_over(sessions: Seq<SessionState>, path: Seq<char>, at: int)
    requires
        0 <= at <= sessions.len(),
        forall|i: int| 0 <= i < at ==> !path_under(path, sessions[i].dir),
        at < sessions.len() ==> path_under(path, sessions[at].dir),
    ensures
        session_over(sessions, path) == at,
    decreases sessions.len(),
{
    if sessions.len() > 0 && at > 0 {
        let t = sessions.drop_first();
        assert forall|i: int| 0 <= i < at - 1 implies !path_under(path, t[i].dir) by {
            assert(t[i] == sessions[i + 1]);
        }
        lemma_session_over(t, path, at - 1);
    }
}

/// The sessions after a request for `id`, whose directory would be `dir`: the
/// session touched when there is one, else a new session in `dir` added at the
/// end.
pub open spec fn session_opened(
    sessions: Seq<SessionState>,
    id: Seq<char>,
    dir: Seq<char>,
    now: u64,
) -> Seq<SessionState> {
    let at = session_of(sessions, id);
    if at < sessions.len() {
        sessions.update(at, SessionState { last_access: now, ..sessions[at] })
    } else {
        sessions.push(SessionState { id, dir, last_access: now, playlist_ready: false })
    }
}

/// The directory of the session of a URL: the directory named after the URL's
/// hash, under the base directory.
pub open spec fn session_dir(base_dir: Seq<char>, url: Seq<char>) -> Seq<char> {
    joined_path(base_dir, spec_dir_name(url))
}

/// The sessions after a request touched `id`.
pub open spec fn session_touched(sessions: Seq<SessionState>, id: Seq<char>, now: u64) -> Seq<
    SessionState,
> {
    let at = session_of(sessions, id);
    if at < sessions.len() {
        sessions.update(at, SessionState { last_access: now, ..sessions[at] })
    } else {
        sessions
    }
}

/// The sessions with the playlist of `id` marked as not there.
pub open spec fn session_reset(sessions: Seq<SessionState>, id: Seq<char>) -> Seq<SessionState> {
    let at = session_of(sessions, id);
    if at < sessions.len() {
        sessions.update(at, SessionState { playlist_ready: false, ..sessions[at] })
    } else {
        sessions
    }
}

/// The sessions without the one of `id`.
pub open spec fn session_forgotten(sessions: Seq<SessionState>, id: Seq<char>) -> Seq<
    SessionState,
> {
    let at = session_of(sessions, id);
    if at < sessions.len() {
        sessions.remove(at)
    } else {
        sessions
    }
}

/// Whether a file event concerns a playlist: whether the file is `index.m3u8`.
pub open spec fn is_playlist_event(path: Seq<char>) -> bool {
    path_file_name(path) == Some("index.m3u8"@)
}

/// The sessions with the playlist of the session at `at` marked as there.
pub open spec fn playlist_marked(sessions: Seq<SessionState>, at: int) -> Seq<SessionState> {
    if 0 <= at < sessions.len() {
        sessions.update(at, SessionState { playlist_ready: true, ..sessions[at] })
    } else {
        sessions
    }
}

/// The sessions after a file event: a playlist event marks the playlist of the
/// first session whose directory the file lies under as there.
pub open spec fn after_file_event(sessions: Seq<SessionState>, path: Seq<char>) -> Seq<
    SessionState,
> {
    if is_playlist_event(path) {
        playlist_marked(sessions, session_over(sessions, path))
    } else {
        sessions
    }
}

/// What a request that waits for a playlist does next.
#[derive(Clone, Copy, Debug, PartialEq, Eq, Structural)]
pub enum WaitStep {
    /// The wait is over, with this answer.
    Done(bool),
    /// Wait for a notification, half a second at most, then ask again.
    Wait,
}

/// Milliseconds a waiting request sleeps between two looks at the flag.
pub const WAIT_SLICE_MILLIS: u64 = 500;

/// Whether the playlist of `id` is there.
pub open spec fn playlist_is_ready(sessions: Seq<SessionState>, id: Seq<char>) -> bool {
    session_of(sessions, id) < sessions.len() && sessions[session_of(sessions, id)].playlist_ready
}

/// The first step of a wait: no session, no playlist; a playlist that is there
/// ends the wait at once.
pub open spec fn wait_begin(sessions: Seq<SessionState>, id: Seq<char>) -> WaitStep {
    if session_of(sessions, id) >= sessions.len() {
        WaitStep::Done(false)
    } else if playlist_is_ready(sessions, id) {
        WaitStep::Done(true)
    } else {
        WaitStep::Wait
    }
}

/// The step after a bounded wait: a notification ends the wait with success;
/// else the flag is looked at again, and the wait ends without success when the
/// time is up.
pub open spec fn wait_next(
    sessions: Seq<SessionState>,
    id: Seq<char>,
    notified: bool,
    timed_out: bool,
) -> WaitStep {
    if notified || playlist_is_ready(sessions, id) {
        WaitStep::Done(true)
    } else if timed_out {
        WaitStep::Done(false)
    } else {
        WaitStep::Wait
    }
}

/// One HLS session.
pub struct HlsStream {
    pub id: String,
    /// The directory the encoder writes to.
    pub dir: String,
    /// Second of the last request.
    pub last_access: u64,
    /// Whether the playlist has appeared since the session was prepared.
    pub playlist_ready: bool,
}

impl HlsStream {
    /// The session as a mathematical value.
    pub open spec fn view(&self) -> SessionState {
        SessionState {
            id: self.id@,
            dir: self.dir@,
            last_access: self.last_access,
            playlist_ready: self.playlist_ready,
        }
    }
}

/// The views of a list of sessions.
pub open spec fn sessions_of(streams: Seq<HlsStream>) -> Seq<SessionState> {
    streams.map_values(|s: HlsStream| s@)
}

/// What `get_or_start` found or made.
pub struct SessionStart {
    /// The directory of the session.
    pub dir: String,
    /// Whether the session is new: its directory is to be created and cleaned.
    pub created: bool,
}

/// The HLS sessions as a mathematical value.
pub struct HlsState {
    pub sessions: Seq<SessionState>,
    pub base_dir: Seq<char>,
}

/// The HLS sessions of the server.
pub struct HlsManager {
    streams: Vec<HlsStream>,
    base_dir: String,
}

impl HlsManager {
    /// The sessions as a mathematical value.
    pub closed spec fn view(&self) -> HlsState {
        HlsState { sessions: sessions_of(self.streams@), base_dir: self.base_dir@ }
    }

    /// No id has two sessions.
    pub closed spec fn wf(&self) -> bool {
        distinct_sessions(sessions_of(self.streams@))
    }

    /// In a well-formed manager no id has two sessions.
    pub proof fn lemma_wf(&self)
        requires
            self.wf(),
        ensures
            distinct_sessions(self@.sessions),
    {
    }

    /// A manager without sessions, with the base directory `/tmp/fritztv-hls`.
    /// The tuning mode and the transport play no part.
    pub fn new(mode: TuningMode, transport: String) -> (m: HlsManager)
        ensures
            m.wf(),
            m@ == (HlsState { sessions: Seq::empty(), base_dir: "/tmp/fritztv-hls"@ }),
    {
        let m = HlsManager { streams: Vec::new(), base_dir: "/tmp/fritztv-hls".to_owned() };
        assert(sessions_of(m.streams@) =~= Seq::<SessionState>::empty());
        m
    }

    /// The directory under which the session directories lie.
    pub fn base_dir(&self) -> (r: &str)
        ensures
            r@ == self@.base_dir,
    {
        self.base_dir.as_str()
    }

    fn find(&self, id: &str) -> (at: usize)
        ensures
            at == session_of(self@.sessions, id@),
            at <= self.streams@.len(),
    {
        let mut i: usize = 0;
        while i < self.streams.len() && !same_str(self.streams[i].id.as_str(), id)
            invariant
                i <= self.streams@.len(),
                forall|k: int| 0 <= k < i ==> sessions_of(self.streams@)[k].id != id@,
            decreases self.streams@.len() - i,
        {
            i = i + 1;
        }
        proof {
            lemma_session_of(sessions_of(self.streams@), id@, i as int);
        }
        i
    }

    /// Opens the session of `id` in `dir`: a session that exists is touched and
    /// keeps its directory; else a session in `dir` is made.
    pub fn open_session(&mut self, id: String, dir: String, now: u64) -> (r: SessionStart)
        requires
            old(self).wf(),
        ensures
            final(self).wf(),
            final(self)@ == (HlsState {
                sessions: session_opened(old(self)@.sessions, id@, dir@, now),
                ..old(self)@
            }),
            r.created == (session_of(old(self)@.sessions, id@) >= old(self)@.sessions.len()),
            r.dir@ == final(self)@.sessions[session_of(old(self)@.sessions, id@)].dir,
    {
        let at = self.find(id.as_str());
        let ghost before = self.streams@;
        if at < self.streams.len() {
            self.streams[at].last_access = now;
            assert(sessions_of(self.streams@) =~= sessions_of(before).update(
                at as int,
                SessionState { last_access: now, ..sessions_of(before)[at as int] },
            ));
            proof {
                lemma_sessions_changed(sessions_of(before), sessions_of(self.streams@));
            }
            return SessionStart { dir: self.streams[at].dir.clone(), created: false };
        }
        let stream = HlsStream { id, dir: dir.clone(), last_access: now, playlist_ready: false };
        self.streams.push(stream);
        assert(sessions_of(self.streams@) =~= sessions_of(before).push(stream@));
        proof {
            lemma_session_added(sessions_of(before), stream@);
        }
        SessionStart { dir, created: true }
    }

    /// The directory of the session of `id`. A session that exists is touched;
    /// else a session is made in the directory named after the URL's hash, under
    /// the base directory.
    pub fn get_or_start(&mut self, id: String, url: String, now: u64) -> (r: SessionStart)
        requires
            old(self).wf(),
        ensures
            final(self).wf(),
            final(self)@ == (HlsState {
                sessions: session_opened(
                    old(self)@.sessions,
                    id@,
                    session_dir(old(self)@.base_dir, url@),
                    now,
                ),
                ..old(self)@
            }),
            r.created == (session_of(old(self)@.sessions, id@) >= old(self)@.sessions.len()),
            r.dir@ == final(self)@.sessions[session_of(old(self)@.sessions, id@)].dir,
    {
        let name = dir_name(url.as_str());
        let dir = join_path(self.base_dir.as_str(), name.as_str());
        self.open_session(id, dir, now)
    }

    /// Forgets the session of `id`, for a caller that could not create its
    /// directory.
    pub fn forget(&mut self, id: &str)
        requires
            old(self).wf(),
        ensures
            final(self).wf(),
            final(self)@ == (HlsState {
                sessions: session_forgotten(old(self)@.sessions, id@),
                ..old(self)@
            }),
    {
        let at = self.find(id);
        if at < self.streams.len() {
            let ghost before = self.streams@;
            let _gone = self.streams.remove(at);
            assert(sessions_of(self.streams@) =~= sessions_of(before).remove(at as int));
            proof {
                lemma_session_removed(sessions_of(before), at as int);
            }
        }
    }

    /// Records a request for `id` at `now`.
    pub fn touch(&mut self, id: &str, now: u64)
        requires
            old(self).wf(),
        ensures
            final(self).wf(),
            final(self)@ == (HlsState {
                sessions: session_touched(old(self)@.sessions, id@, now),
                ..old(self)@
            }),
    {
        let at = self.find(id);
        if at < self.streams.len() {
            let ghost before = self.streams@;
            self.streams[at].last_access = now;
            assert(sessions_of(self.streams@) =~= sessions_of(before).update(
                at as int,
                SessionState { last_access: now, ..sessions_of(before)[at as int] },
            ));
            proof {
                lemma_sessions_changed(sessions_of(before), sessions_of(self.streams@));
            }
        }
    }

    /// Whether the playlist of `id` is there.
    pub fn playlist_ready(&self, id: &str) -> (r: bool)
        ensures
            r == playlist_is_ready(self@.sessions, id@),
    {
        let at = self.find(id);
        at < self.streams.len() && self.streams[at].playlist_ready
    }

    /// The first step of a wait for the playlist of `id`; see [`wait_begin`].
    pub fn wait_for_playlist(&self, id: &str) -> (step: WaitStep)
        ensures
            step == wait_begin(self@.sessions, id@),
    {
        let at = self.find(id);
        if at >= self.streams.len() {
            WaitStep::Done(false)
        } else if self.streams[at].playlist_ready {
            WaitStep::Done(true)
        } else {
            WaitStep::Wait
        }
    }

    /// The step after a bounded wait for the playlist of `id`; see
    /// [`wait_next`]. `notified` tells whether the wait was ended by a
    /// notification, `timed_out` whether the caller's time is up.
    pub fn wait_again(&self, id: &str, notified: bool, timed_out: bool) -> (step: WaitStep)
        ensures
            step == wait_next(self@.sessions, id@, notified, timed_out),
    {
        if notified || self.playlist_ready(id) {
            WaitStep::Done(true)
        } else if timed_out {
            WaitStep::Done(false)
        } else {
            WaitStep::Wait
        }
    }

    /// Marks the playlist of the session at position `at` as there. Returns the
    /// id of the session when its playlist was not there before: its waiting
    /// requests are to be woken.
    pub fn mark_playlist(&mut self, at: usize) -> (woken: Option<String>)
        requires
            old(self).wf(),
        ensures
            final(self).wf(),
            final(self)@ == (HlsState {
                sessions: playlist_marked(old(self)@.sessions, at as int),
                ..old(self)@
            }),
            match woken {
                Some(id) => at < old(self)@.sessions.len() && !old(
                    self,
                )@.sessions[at as int].playlist_ready && id@ == old(self)@.sessions[at as int].id,
                None => at >= old(self)@.sessions.len() || old(
                    self,
                )@.sessions[at as int].playlist_ready,
            },
    {
        if at >= self.streams.len() {
            return None;
        }
        let ghost before = self.streams@;
        let was_ready = self.streams[at].playlist_ready;
        self.streams[at].playlist_ready = true;
        assert(sessions_of(self.streams@) =~= sessions_of(before).update(
            at as int,
            SessionState { playlist_ready: true, ..sessions_of(before)[at as int] },
        ));
        proof {
            lemma_sessions_changed(sessions_of(before), sessions_of(self.streams@));
        }
        if was_ready {
            None
        } else {
            Some(self.streams[at].id.clone())
        }
    }

    /// Takes the event that the file at `path` was created or changed. When the
    /// file is a playlist, the first session over it is marked as by
    /// [`HlsManager::mark_playlist`], and the id of the session to wake is
    /// returned.
    pub fn on_file_event(&mut self, path: &str) -> (woken: Option<String>)
        requires
            old(self).wf(),
        ensures
            final(self).wf(),
            final(self)@ == (HlsState {
                sessions: after_file_event(old(self)@.sessions, path@),
                ..old(self)@
            }),
            match woken {
                Some(id) => {
                    let at = session_over(old(self)@.sessions, path@);
                    &&& is_playlist_event(path@)
                    &&& at < old(self)@.sessions.len()
                    &&& !old(self)@.sessions[at].playlist_ready
                    &&& id@ == old(self)@.sessions[at].id
                },
                None => {
                    let at = session_over(old(self)@.sessions, path@);
                    !is_playlist_event(path@) || at >= old(self)@.sessions.len() || old(
                        self,
                    )@.sessions[at].playlist_ready
                },
            },
    {
        let is_playlist = match file_name_of(path) {
            Some(name) => same_str(name.as_str(), "index.m3u8"),
            None => false,
        };
        if !is_playlist {
            return None;
        }
        let mut i: usize = 0;
        while i < self.streams.len() && !is_under(path, self.streams[i].dir.as_str())
            invariant
                i <= self.streams@.len(),
                forall|k: int| 0 <= k < i ==> !path_under(path@, sessions_of(self.streams@)[k].dir),
            decreases self.streams@.len() - i,
        {
            i = i + 1;
        }
        proof {
            lemma_session_over(sessions_of(self.streams@), path@, i as int);
        }
        self.mark_playlist(i)
    }

    /// The path of the playlist in a session directory.
    pub fn playlist_path(dir: &str) -> (r: String)
        ensures
            r@ == joined_path(dir@, "index.m3u8"@),
    {
        join_path(dir, "index.m3u8")
    }

    /// The path of a segment in a session directory, for a name that may be
    /// served; `None` for any other name. See [`valid_segment_name`].
    pub fn segment_path(dir: &str, name: &str) -> (r: Option<String>)
        ensures
            r is Some <==> valid_segment_name(name@),
            r is Some ==> r->Some_0@ == joined_path(dir@, name@),
    {
        if !is_valid_segment_name(name) {
            return None;
        }
        Some(join_path(dir, name))
    }

    /// Prepares a new session for `id`: marks its playlist as not there and
    /// returns the directory to clean of stale output. `None` when there is no
    /// session.
    pub fn prepare_new_session(&mut self, id: &str) -> (dir: Option<String>)
        requires
            old(self).wf(),
        ensures
            final(self).wf(),
            final(self)@ == (HlsState {
                sessions: session_reset(old(self)@.sessions, id@),
                ..old(self)@
            }),
            match dir {
                Some(d) => session_of(old(self)@.sessions, id@) < old(self)@.sessions.len()
                    && d@ == old(self)@.sessions[session_of(old(self)@.sessions, id@)].dir,
                None => session_of(old(self)@.sessions, id@) >= old(self)@.sessions.len(),
            },
    {
        let at = self.find(id);
        if at >= self.streams.len() {
            return None;
        }
        let ghost before = self.streams@;
        self.streams[at].playlist_ready = false;
        assert(sessions_of(self.streams@) =~= sessions_of(before).update(
            at as int,
            SessionState { playlist_ready: false, ..sessions_of(before)[at as int] },
        ));
        proof {
            lemma_sessions_changed(sessions_of(before), sessions_of(self.streams@));
        }
        Some(self.streams[at].dir.clone())
    }
}

} // verus!
