//! The HLS playlist as it is served.
//!
//! The encoder writes a playlist that some players refuse. Before it is served
//! the version is pinned to 3, the target duration is raised to cover the
//! longest segment, and the tag for independent segments is dropped. Segment
//! lines are kept as they are, so that their URIs stay relative.

use crate::text::{
    chars_of, decimal, ends_with, has_prefix, has_suffix, join, join_with,
    lines_of, parse_unsigned, push_decimal, read_unsigned, same_text, slice_of, split_lines,
    split_once, split_once_at, starts_with, string_of, string_views, trim, trimmed, views,
};
use vstd::prelude::*;

verus! {

/// The tag of a segment's duration.
pub open spec fn extinf_prefix() -> Seq<char> {
    "#EXTINF:"@
}

/// The tag of the target duration.
pub open spec fn target_prefix() -> Seq<char> {
    "#EXT-X-TARGETDURATION:"@
}

/// The tag of the playlist version.
pub open spec fn version_prefix() -> Seq<char> {
    "#EXT-X-VERSION:"@
}

/// The version line of a served playlist.
pub open spec fn version_line() -> Seq<char> {
    "#EXT-X-VERSION:3"@
}

/// The first line of a playlist.
pub open spec fn header_line() -> Seq<char> {
    "#EXTM3U"@
}

/// The tag for independent segments.
pub open spec fn independent_line() -> Seq<char> {
    "#EXT-X-INDEPENDENT-SEGMENTS"@
}

/// Whether a line names a segment: it starts with `seg_` and ends with `.ts`.
pub open spec fn is_segment_line(line: Seq<char>) -> bool {
    starts_with(line, "seg_"@) && ends_with(line, ".ts"@)
}

/// The first segment line, if there is one.
pub open spec fn first_segment_line(lines: Seq<Seq<char>>) -> Option<Seq<char>>
    decreases lines.len(),
{
    if lines.len() == 0 {
        None
    } else {
        match first_segment_line(lines.drop_last()) {
            Some(l) => Some(l),
            None => if is_segment_line(lines.last()) {
                Some(lines.last())
            } else {
                None
            },
        }
    }
}

/// The duration text of a line: what stands between `#EXTINF:` and the first
/// comma after it, without white space at the ends. `None` for other lines.
pub open spec fn duration_text(line: Seq<char>) -> Option<Seq<char>> {
    if starts_with(line, extinf_prefix()) {
        match split_once(line.skip(extinf_prefix().len() as int), ',') {
            Some((d, _)) => Some(trim(d)),
            None => None,
        }
    } else {
        None
    }
}

/// The duration texts of the lines, in order.
pub open spec fn duration_texts(lines: Seq<Seq<char>>) -> Seq<Seq<char>>
    decreases lines.len(),
{
    if lines.len() == 0 {
        Seq::empty()
    } else {
        match duration_text(lines.last()) {
            Some(d) => duration_texts(lines.drop_last()).push(d),
            None => duration_texts(lines.drop_last()),
        }
    }
}

/// The target duration a line declares, when it is a target line whose value
/// reads as a 64-bit number.
pub open spec fn declared_by(line: Seq<char>) -> Option<u64> {
    if !starts_with(line, extinf_prefix()) && starts_with(line, target_prefix()) {
        match parse_unsigned(trim(line.skip(target_prefix().len() as int)), u64::MAX as nat) {
            Some(v) => Some(v as u64),
            None => None,
        }
    } else {
        None
    }
}

/// The target duration the playlist declares: that of the last line that
/// declares one.
pub open spec fn declared_target(lines: Seq<Seq<char>>) -> Option<u64>
    decreases lines.len(),
{
    if lines.len() == 0 {
        None
    } else {
        match declared_by(lines.last()) {
            Some(v) => Some(v),
            None => declared_target(lines.drop_last()),
        }
    }
}

/// The target duration to serve: the declared one, raised to the needed one.
pub open spec fn served_target(lines: Seq<Seq<char>>, needed: u64) -> u64 {
    match declared_target(lines) {
        Some(v) => if v >= needed {
            v
        } else {
            needed
        },
        None => needed,
    }
}

/// Whether a line starts with the prefix.
pub open spec fn any_starts_with(lines: Seq<Seq<char>>, prefix: Seq<char>) -> bool
    decreases lines.len(),
{
    if lines.len() == 0 {
        false
    } else {
        any_starts_with(lines.drop_last(), prefix) || starts_with(lines.last(), prefix)
    }
}

/// The target line for a duration.
pub open spec fn target_line(target: u64) -> Seq<char> {
    target_prefix() + decimal(target as nat)
}

/// One line as it is served: the version pinned to 3, the tag for independent
/// segments emptied, the target duration replaced; any other line unchanged.
pub open spec fn served_line(line: Seq<char>, target: u64) -> Seq<char> {
    if starts_with(line, version_prefix()) {
        version_line()
    } else if line == independent_line() {
        Seq::empty()
    } else if starts_with(line, target_prefix()) {
        target_line(target)
    } else {
        line
    }
}

/// The lines as served, without the empty ones.
pub open spec fn served_lines(lines: Seq<Seq<char>>, target: u64) -> Seq<Seq<char>>
    decreases lines.len(),
{
    if lines.len() == 0 {
        Seq::empty()
    } else if served_line(lines.last(), target).len() == 0 {
        served_lines(lines.drop_last(), target)
    } else {
        served_lines(lines.drop_last(), target).push(served_line(lines.last(), target))
    }
}

/// The lines with a target line after every version line.
pub open spec fn target_after_version(lines: Seq<Seq<char>>, target: u64) -> Seq<Seq<char>>
    decreases lines.len(),
{
    if lines.len() == 0 {
        Seq::empty()
    } else if lines.last() == version_line() {
        target_after_version(lines.drop_last(), target).push(lines.last()).push(
            target_line(target),
        )
    } else {
        target_after_version(lines.drop_last(), target).push(lines.last())
    }
}

/// The lines with a version line and a target line after every header line.
pub open spec fn version_after_header(lines: Seq<Seq<char>>, target: u64) -> Seq<Seq<char>>
    decreases lines.len(),
{
    if lines.len() == 0 {
        Seq::empty()
    } else if lines.last() == header_line() {
        version_after_header(lines.drop_last(), target).push(lines.last()).push(
            version_line(),
        ).push(target_line(target))
    } else {
        version_after_header(lines.drop_last(), target).push(lines.last())
    }
}

/// The lines of the served playlist.
///
/// Where the playlist has a target line the served lines are all; where it
/// has none, a target line follows the version line; where it has no version
/// line either, both follow the header line.
pub open spec fn rewritten_lines(lines: Seq<Seq<char>>, needed: u64) -> Seq<Seq<char>> {
    let target = served_target(lines, needed);
    let kept = served_lines(lines, target);
    if any_starts_with(lines, target_prefix()) {
        kept
    } else if any_starts_with(lines, version_prefix()) {
        target_after_version(kept, target)
    } else {
        version_after_header(target_after_version(kept, target), target)
    }
}

/// The served playlist: the rewritten lines, each ended by a line feed.
pub open spec fn spec_rewrite_playlist(text: Seq<char>, needed: u64) -> Seq<char> {
    join(rewritten_lines(lines_of(text), needed), seq!['\n']) + seq!['\n']
}

fn segment_line(line: &Vec<char>) -> (r: bool)
    ensures
        r == is_segment_line(line@),
{
    has_prefix(line, &chars_of("seg_")) && has_suffix(line, &chars_of(".ts"))
}

/// The first line of the playlist that names a segment, if there is one.
pub fn first_segment_name(text: &str) -> (r: Option<String>)
    ensures
        (match r {
            Some(l) => Some(l@),
            None => None,
        }) == first_segment_line(lines_of(text@)),
{
    let lines = split_lines(&chars_of(text));
    let mut i: usize = 0;
    assert(views(lines@).take(0) =~= Seq::<Seq<char>>::empty());
    while i < lines.len()
        invariant
            i <= lines.len(),
            views(lines@) == lines_of(text@),
            first_segment_line(views(lines@).take(i as int)) is None,
        decreases lines.len() - i,
    {
        let ghost next = views(lines@).take(i + 1);
        assert(next.drop_last() =~= views(lines@).take(i as int));
        assert(next.last() == lines@[i as int]@);
        if segment_line(&lines[i]) {
            proof {
                assert(first_segment_line(next) == Some(lines@[i as int]@));
                lemma_first_segment_stays(views(lines@), i + 1);
            }
            return Some(string_of(&lines[i]));
        }
        i = i + 1;
    }
    assert(views(lines@).take(lines.len() as int) =~= views(lines@));
    None
}

proof fn lemma_first_segment_stays(lines: Seq<Seq<char>>, n: int)
    requires
        0 <= n <= lines.len(),
        first_segment_line(lines.take(n)) is Some,
    ensures
        first_segment_line(lines) == first_segment_line(lines.take(n)),
    decreases lines.len() - n,
{
    if n < lines.len() {
        assert(lines.take(n + 1).drop_last() =~= lines.take(n));
        lemma_first_segment_stays(lines, n + 1);
    } else {
        assert(lines.take(n) =~= lines);
    }
}

/// The duration texts of the playlist's segments, in order: for every line
/// that starts with `#EXTINF:` and holds a comma, what stands between the two.
pub fn extinf_durations(text: &str) -> (r: Vec<String>)
    ensures
        string_views(r@) == duration_texts(lines_of(text@)),
{
    let lines = split_lines(&chars_of(text));
    let prefix = chars_of("#EXTINF:");
    let mut r: Vec<String> = Vec::new();
    let mut i: usize = 0;
    assert(views(lines@).take(0) =~= Seq::<Seq<char>>::empty());
    assert(string_views(r@) =~= Seq::<Seq<char>>::empty());
    while i < lines.len()
        invariant
            i <= lines.len(),
            prefix@ == extinf_prefix(),
            string_views(r@) == duration_texts(views(lines@).take(i as int)),
        decreases lines.len() - i,
    {
        let ghost next = views(lines@).take(i + 1);
        let ghost before = r@;
        assert(next.drop_last() =~= views(lines@).take(i as int));
        assert(next.last() == lines@[i as int]@);
        let line = &lines[i];
        if has_prefix(line, &prefix) {
            let rest = slice_of(line, prefix.len(), line.len());
            assert(rest@ =~= line@.skip(prefix.len() as int));
            match split_once_at(&rest, ',') {
                Some((d, _)) => {
                    let kept = string_of(&trimmed(&d));
                    r.push(kept);
                    assert(string_views(r@) =~= string_views(before).push(kept@));
                },
                None => {},
            }
        }
        i = i + 1;
    }
    assert(views(lines@).take(lines.len() as int) =~= views(lines@));
    r
}

fn push_target_line(out: &mut Vec<Vec<char>>, target: u64)
    ensures
        views(final(out)@) == views(old(out)@).push(target_line(target)),
{
    let mut line = chars_of("#EXT-X-TARGETDURATION:");
    push_decimal(&mut line, target);
    out.push(line);
    assert(views(out@) =~= views(old(out)@).push(target_line(target)));
}

fn push_line(out: &mut Vec<Vec<char>>, line: Vec<char>)
    ensures
        views(final(out)@) == views(old(out)@).push(line@),
{
    out.push(line);
    assert(views(out@) =~= views(old(out)@).push(line@));
}

fn copy_of(line: &Vec<char>) -> (r: Vec<char>)
    ensures
        r@ == line@,
{
    let r = slice_of(line, 0, line.len());
    assert(r@ =~= line@);
    r
}

fn scan(lines: &Vec<Vec<char>>, needed: u64) -> (r: (u64, bool, bool))
    ensures
        r.0 == served_target(views(lines@), needed),
        r.1 == any_starts_with(views(lines@), target_prefix()),
        r.2 == any_starts_with(views(lines@), version_prefix()),
{
    let extinf = chars_of("#EXTINF:");
    let target = chars_of("#EXT-X-TARGETDURATION:");
    let version = chars_of("#EXT-X-VERSION:");
    let mut declared: Option<u64> = None;
    let mut saw_target = false;
    let mut saw_version = false;
    let mut i: usize = 0;
    assert(views(lines@).take(0) =~= Seq::<Seq<char>>::empty());
    while i < lines.len()
        invariant
            i <= lines.len(),
            extinf@ == extinf_prefix(),
            target@ == target_prefix(),
            version@ == version_prefix(),
            declared == declared_target(views(lines@).take(i as int)),
            saw_target == any_starts_with(views(lines@).take(i as int), target_prefix()),
            saw_version == any_starts_with(views(lines@).take(i as int), version_prefix()),
        decreases lines.len() - i,
    {
        let ghost next = views(lines@).take(i + 1);
        assert(next.drop_last() =~= views(lines@).take(i as int));
        assert(next.last() == lines@[i as int]@);
        let line = &lines[i];
        if has_prefix(line, &target) {
            saw_target = true;
            if !has_prefix(line, &extinf) {
                let rest = slice_of(line, target.len(), line.len());
                assert(rest@ =~= line@.skip(target.len() as int));
                match read_unsigned(&trimmed(&rest), u64::MAX) {
                    Some(v) => {
                        declared = Some(v);
                    },
                    None => {},
                }
            }
        }
        if has_prefix(line, &version) {
            saw_version = true;
        }
        i = i + 1;
    }
    assert(views(lines@).take(lines.len() as int) =~= views(lines@));
    let served = match declared {
        Some(v) => if v >= needed {
            v
        } else {
            needed
        },
        None => needed,
    };
    (served, saw_target, saw_version)
}

fn serve_lines(lines: &Vec<Vec<char>>, target: u64) -> (out: Vec<Vec<char>>)
    ensures
        views(out@) == served_lines(views(lines@), target),
{
    let target_tag = chars_of("#EXT-X-TARGETDURATION:");
    let version_tag = chars_of("#EXT-X-VERSION:");
    let independent = chars_of("#EXT-X-INDEPENDENT-SEGMENTS");
    let mut out: Vec<Vec<char>> = Vec::new();
    let mut i: usize = 0;
    assert(views(lines@).take(0) =~= Seq::<Seq<char>>::empty());
    assert(views(out@) =~= Seq::<Seq<char>>::empty());
    proof {
        reveal_strlit("#EXT-X-VERSION:3");
        reveal_strlit("#EXT-X-TARGETDURATION:");
    }
    while i < lines.len()
        invariant
            i <= lines.len(),
            target_tag@ == target_prefix(),
            version_tag@ == version_prefix(),
            independent@ == independent_line(),
            version_line().len() > 0,
            target_prefix().len() > 0,
            views(out@) == served_lines(views(lines@).take(i as int), target),
        decreases lines.len() - i,
    {
        let ghost next = views(lines@).take(i + 1);
        assert(next.drop_last() =~= views(lines@).take(i as int));
        assert(next.last() == lines@[i as int]@);
        let line = &lines[i];
        if has_prefix(line, &version_tag) {
            push_line(&mut out, chars_of("#EXT-X-VERSION:3"));
        } else if same_text(line, &independent) {
        } else if has_prefix(line, &target_tag) {
            push_target_line(&mut out, target);
        } else if line.len() > 0 {
            push_line(&mut out, copy_of(line));
        }
        i = i + 1;
    }
    assert(views(lines@).take(lines.len() as int) =~= views(lines@));
    out
}

fn insert_target(lines: &Vec<Vec<char>>, target: u64) -> (out: Vec<Vec<char>>)
    ensures
        views(out@) == target_after_version(views(lines@), target),
{
    let version = chars_of("#EXT-X-VERSION:3");
    let mut out: Vec<Vec<char>> = Vec::new();
    let mut i: usize = 0;
    assert(views(lines@).take(0) =~= Seq::<Seq<char>>::empty());
    assert(views(out@) =~= Seq::<Seq<char>>::empty());
    while i < lines.len()
        invariant
            i <= lines.len(),
            version@ == version_line(),
            views(out@) == target_after_version(views(lines@).take(i as int), target),
        decreases lines.len() - i,
    {
        let ghost next = views(lines@).take(i + 1);
        assert(next.drop_last() =~= views(lines@).take(i as int));
        assert(next.last() == lines@[i as int]@);
        push_line(&mut out, copy_of(&lines[i]));
        if same_text(&lines[i], &version) {
            push_target_line(&mut out, target);
        }
        i = i + 1;
    }
    assert(views(lines@).take(lines.len() as int) =~= views(lines@));
    out
}

fn insert_version(lines: &Vec<Vec<char>>, target: u64) -> (out: Vec<Vec<char>>)
    ensures
        views(out@) == version_after_header(views(lines@), target),
{
    let header = chars_of("#EXTM3U");
    let mut out: Vec<Vec<char>> = Vec::new();
    let mut i: usize = 0;
    assert(views(lines@).take(0) =~= Seq::<Seq<char>>::empty());
    assert(views(out@) =~= Seq::<Seq<char>>::empty());
    while i < lines.len()
        invariant
            i <= lines.len(),
            header@ == header_line(),
            views(out@) == version_after_header(views(lines@).take(i as int), target),
        decreases lines.len() - i,
    {
        let ghost next = views(lines@).take(i + 1);
        assert(next.drop_last() =~= views(lines@).take(i as int));
        assert(next.last() == lines@[i as int]@);
        push_line(&mut out, copy_of(&lines[i]));
        if same_text(&lines[i], &header) {
            push_line(&mut out, chars_of("#EXT-X-VERSION:3"));
            push_target_line(&mut out, target);
        }
        i = i + 1;
    }
    assert(views(lines@).take(lines.len() as int) =~= views(lines@));
    out
}

/// The playlist as it is served; see [`spec_rewrite_playlist`]. `needed` is
/// the duration of the longest segment in whole seconds, rounded up.
pub fn rewrite_playlist(text: &str, needed: u64) -> (r: String)
    ensures
        r@ == spec_rewrite_playlist(text@, needed),
{
    let lines = split_lines(&chars_of(text));
    let (target, saw_target, saw_version) = scan(&lines, needed);
    let kept = serve_lines(&lines, target);
    let out = if saw_target {
        kept
    } else if saw_version {
        insert_target(&kept, target)
    } else {
        insert_version(&insert_target(&kept, target), target)
    };
    let mut sep: Vec<char> = Vec::new();
    sep.push('\n');
    assert(sep@ =~= seq!['\n']);
    let mut joined = join_with(&out, &sep);
    joined.push('\n');
    assert(joined@ =~= spec_rewrite_playlist(text@, needed));
    string_of(&joined)
}

/// The target duration needed for segments of the given durations, each in
/// whole seconds rounded up: the largest of them, 0 when there is none.
pub open spec fn largest(durations: Seq<u64>) -> u64
    decreases durations.len(),
{
    if durations.len() == 0 {
        0
    } else if durations.last() >= largest(durations.drop_last()) {
        durations.last()
    } else {
        largest(durations.drop_last())
    }
}

/// The target duration needed for segments of the given durations.
pub fn needed_target(durations: &Vec<u64>) -> (r: u64)
    ensures
        r == largest(durations@),
{
    let mut r: u64 = 0;
    let mut i: usize = 0;
    assert(durations@.take(0) =~= Seq::<u64>::empty());
    while i < durations.len()
        invariant
            i <= durations.len(),
            r == largest(durations@.take(i as int)),
        decreases durations.len() - i,
    {
        assert(durations@.take(i + 1).drop_last() =~= durations@.take(i as int));
        if durations[i] >= r {
            r = durations[i];
        }
        i = i + 1;
    }
    assert(durations@.take(durations.len() as int) =~= durations@);
    r
}

} // verus!
