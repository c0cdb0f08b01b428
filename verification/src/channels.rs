//! The channel list, read from an M3U playlist.
//!
//! A channel is announced by a line that holds `#EXTINF:`, a run of digits, a
//! comma and the channel's name, and is given by the next line that starts with
//! `rtsp://`. Other lines are passed over. The digits are the ASCII digits `0`
//! to `9`: a line whose duration is written in the digits of another script
//! announces nothing.

use crate::text::{
    chars_of, count_digits, digit_run, has_char, has_prefix, lemma_first_index, lemma_no_char,
    lemma_split_append, lemma_split_first, lemma_trim_tight, lines_of, occurs_at, slice_of,
    split_each, split_lines, stands_at, starts_with, string_of, strip_cr, tight, trim, trimmed,
    views,
};
use vstd::prelude::*;

verus! {

/// A television channel: its name and the URL of its stream.
#[derive(Clone, Debug)]
pub struct Channel {
    pub name: String,
    pub url: String,
}

/// A channel as a mathematical value.
pub struct ChannelEntry {
    pub name: Seq<char>,
    pub url: Seq<char>,
}

impl Channel {
    /// The channel as a mathematical value.
    pub open spec fn view(&self) -> ChannelEntry {
        ChannelEntry { name: self.name@, url: self.url@ }
    }
}

/// The views of a list of channels.
pub open spec fn entries(channels: Seq<Channel>) -> Seq<ChannelEntry> {
    channels.map_values(|c: Channel| c@)
}

/// The tag that announces a channel.
pub open spec fn extinf_tag() -> Seq<char> {
    "#EXTINF:"@
}

/// The prefix of a stream URL.
pub open spec fn rtsp_prefix() -> Seq<char> {
    "rtsp://"@
}

/// Position after the digits that follow a tag at `at`.
pub open spec fn after_digits(line: Seq<char>, at: int) -> int {
    at + extinf_tag().len() + digit_run(line, at + extinf_tag().len())
}

/// Whether an announcement stands at `at`: the tag, one digit or more of `0` to
/// `9`, a comma.
pub open spec fn announcement_at(line: Seq<char>, at: int) -> bool {
    &&& occurs_at(line, extinf_tag(), at)
    &&& digit_run(line, at + extinf_tag().len()) >= 1
    &&& after_digits(line, at) < line.len()
    &&& line[after_digits(line, at)] == ','
}

/// Position of the first announcement at or after `from`, or the length of the
/// line when there is none.
pub open spec fn first_announcement(line: Seq<char>, from: int) -> int
    decreases line.len() - from,
{
    if from < 0 || from >= line.len() {
        line.len() as int
    } else if announcement_at(line, from) {
        from
    } else {
        first_announcement(line, from + 1)
    }
}

/// The name that a line announces: what follows the comma of its first
/// announcement, without white space at the ends. `None` when the line holds no
/// announcement.
pub open spec fn announced_name(line: Seq<char>) -> Option<Seq<char>> {
    if first_announcement(line, 0) < line.len() {
        Some(trim(line.skip(after_digits(line, first_announcement(line, 0)) + 1)))
    } else {
        None
    }
}

/// The parser between two lines.
pub struct ParseState {
    /// The channels read so far.
    pub channels: Seq<ChannelEntry>,
    /// The name announced last, while no URL has followed it.
    pub pending: Option<Seq<char>>,
}

/// The parser after one more line. The line counts without the white space at
/// its ends. An empty line changes nothing; an announcement sets the pending
/// name; a line that starts with `rtsp://` makes a channel of the pending name,
/// if there is one, and clears it; any other line changes nothing.
pub open spec fn parse_line(st: ParseState, raw: Seq<char>) -> ParseState {
    let line = trim(raw);
    if line.len() == 0 {
        st
    } else {
        match announced_name(line) {
            Some(name) => ParseState { pending: Some(name), ..st },
            None => if starts_with(line, rtsp_prefix()) {
                match st.pending {
                    Some(name) => ParseState {
                        channels: st.channels.push(ChannelEntry { name, url: line }),
                        pending: None,
                    },
                    None => st,
                }
            } else {
                st
            },
        }
    }
}

/// The parser after the given lines.
pub open spec fn parse_lines(lines: Seq<Seq<char>>) -> ParseState
    decreases lines.len(),
{
    if lines.len() == 0 {
        ParseState { channels: Seq::empty(), pending: None }
    } else {
        parse_line(parse_lines(lines.drop_last()), lines.last())
    }
}

/// The channels of a playlist.
pub open spec fn spec_parse_m3u(content: Seq<char>) -> Seq<ChannelEntry> {
    parse_lines(lines_of(content)).channels
}

proof fn lemma_first_announcement_is(line: Seq<char>, from: int, at: int)
    requires
        0 <= from <= at <= line.len(),
        forall|k: int| from <= k < at ==> !announcement_at(line, k),
        at < line.len() ==> announcement_at(line, at),
    ensures
        first_announcement(line, from) == at,
    decreases at - from,
{
    if from < at {
        lemma_first_announcement_is(line, from + 1, at);
    }
}

fn announcement(line: &Vec<char>) -> (r: Option<Vec<char>>)
    ensures
        match r {
            Some(name) => announced_name(line@) == Some(name@),
            None => announced_name(line@) is None,
        },
{
    let tag = chars_of("#EXTINF:");
    let mut at: usize = 0;
    while at < line.len()
        invariant
            at <= line.len(),
            tag@ == extinf_tag(),
            forall|k: int| 0 <= k < at ==> !announcement_at(line@, k),
        decreases line.len() - at,
    {
        if stands_at(line, &tag, at) {
            let from: usize = at + tag.len();
            let digits = count_digits(line, from);
            let comma: usize = from + digits;
            if digits >= 1 && comma < line.len() && line[comma] == ',' {
                proof {
                    lemma_first_announcement_is(line@, 0, at as int);
                }
                let rest = slice_of(line, comma + 1, line.len());
                assert(rest@ =~= line@.skip(comma + 1));
                return Some(trimmed(&rest));
            }
        }
        at = at + 1;
    }
    proof {
        lemma_first_announcement_is(line@, 0, line.len() as int);
    }
    None
}

/// Reads the channels of an M3U playlist; see [`spec_parse_m3u`]. Reading
/// never fails: lines that fit nowhere are passed over.
pub fn parse_m3u(content: &str) -> (r: Result<Vec<Channel>, String>)
    ensures
        r is Ok,
        entries(r->Ok_0@) == spec_parse_m3u(content@),
{
    let text = chars_of(content);
    let lines = split_lines(&text);
    let prefix = chars_of("rtsp://");
    let mut channels: Vec<Channel> = Vec::new();
    let mut current_name: Option<String> = None;
    let mut i: usize = 0;
    assert(views(lines@).take(0) =~= Seq::<Seq<char>>::empty());
    assert(entries(channels@) =~= Seq::<ChannelEntry>::empty());
    while i < lines.len()
        invariant
            i <= lines.len(),
            prefix@ == rtsp_prefix(),
            entries(channels@) == parse_lines(views(lines@).take(i as int)).channels,
            (match current_name {
                Some(n) => Some(n@),
                None => None,
            }) == parse_lines(views(lines@).take(i as int)).pending,
        decreases lines.len() - i,
    {
        let ghost done = views(lines@).take(i as int);
        let ghost next = views(lines@).take(i + 1);
        let ghost before = channels@;
        assert(next.drop_last() =~= done);
        assert(next.last() == lines@[i as int]@);
        let line = trimmed(&lines[i]);
        if line.len() > 0 {
            match announcement(&line) {
                Some(name) => {
                    current_name = Some(string_of(&name));
                },
                None => {
                    if has_prefix(&line, &prefix) {
                        match current_name {
                            Some(name) => {
                                let channel = Channel { name, url: string_of(&line) };
                                channels.push(channel);
                                assert(entries(channels@) =~= entries(before).push(channel@));
                                current_name = None;
                            },
                            None => {},
                        }
                    }
                },
            }
        }
        i = i + 1;
    }
    assert(views(lines@).take(lines.len() as int) =~= views(lines@));
    Ok(channels)
}

/// The line that announces a channel of the given name with the duration 0.
pub open spec fn announce_line(name: Seq<char>) -> Seq<char> {
    "#EXTINF:0,"@ + name
}

/// Whether a channel can be written as two lines and read back: name and URL
/// are each on one line and without white space at the ends, the URL starts with
/// `rtsp://`, and the URL does not itself hold an announcement.
pub open spec fn writable(c: ChannelEntry) -> bool {
    &&& tight(c.name)
    &&& !has_char(c.name, '\n')
    &&& tight(c.url)
    &&& !has_char(c.url, '\n')
    &&& starts_with(c.url, rtsp_prefix())
    &&& announced_name(c.url) is None
}

/// The playlist that lists the channels: for each, its announcement and its
/// URL, each ended by a line feed.
pub open spec fn written(channels: Seq<ChannelEntry>) -> Seq<char>
    decreases channels.len(),
{
    if channels.len() == 0 {
        Seq::empty()
    } else {
        written(channels.drop_last()) + (announce_line(channels.last().name) + seq!['\n']
            + channels.last().url + seq!['\n'])
    }
}

/// The lines of the playlist that lists the channels.
pub open spec fn written_lines(channels: Seq<ChannelEntry>) -> Seq<Seq<char>>
    decreases channels.len(),
{
    if channels.len() == 0 {
        Seq::empty()
    } else {
        written_lines(channels.drop_last()).push(announce_line(channels.last().name)).push(
            channels.last().url,
        )
    }
}

proof fn lemma_announce_line(name: Seq<char>)
    requires
        tight(name),
        !has_char(name, '\n'),
    ensures
        tight(announce_line(name)),
        announce_line(name).len() > 0,
        !has_char(announce_line(name), '\n'),
        announced_name(announce_line(name)) == Some(name),
{
    reveal_strlit("#EXTINF:0,");
    reveal_strlit("#EXTINF:");
    let line = announce_line(name);
    let head = "#EXTINF:0,"@;
    assert(head.len() == 10);
    assert(extinf_tag().len() == 8);
    assert(line[0] == head[0]);
    assert(line[8] == head[8]);
    assert(line[9] == head[9]);
    if name.len() > 0 {
        assert(line.last() == name.last());
    } else {
        assert(line =~= head);
    }
    lemma_no_char(name, '\n');
    lemma_no_char(line, '\n');
    assert forall|i: int| 0 <= i < line.len() implies line[i] != '\n' by {
        if i < 10 {
            assert(line[i] == head[i]);
        } else {
            assert(line[i] == name[i - 10]);
        }
    }
    assert(line.subrange(0, 8) =~= extinf_tag());
    assert(digit_run(line, 9) == 0);
    assert(digit_run(line, 8) == 1);
    assert(announcement_at(line, 0));
    assert(first_announcement(line, 0) == 0);
    assert(line.skip(10) =~= name);
    lemma_trim_tight(name);
}

proof fn lemma_written_split(channels: Seq<ChannelEntry>)
    requires
        forall|i: int| 0 <= i < channels.len() ==> writable(#[trigger] channels[i]),
    ensures
        split_each(written(channels), '\n') == written_lines(channels).push(Seq::empty()),
    decreases channels.len(),
{
    if channels.len() == 0 {
        lemma_first_index(Seq::<char>::empty(), '\n');
        assert(split_each(written(channels), '\n') =~= written_lines(channels).push(Seq::empty()));
    } else {
        let earlier = channels.drop_last();
        let c = channels.last();
        assert forall|i: int| 0 <= i < earlier.len() implies writable(#[trigger] earlier[i]) by {
            assert(earlier[i] == channels[i]);
        }
        lemma_written_split(earlier);
        let line = announce_line(c.name);
        let tail = line + seq!['\n'] + c.url + seq!['\n'];
        lemma_split_append(written(earlier), tail, '\n');
        let before = split_each(written(earlier), '\n');
        assert(before.last() == Seq::<char>::empty());
        assert(before.drop_last() =~= written_lines(earlier));
        assert(Seq::<char>::empty() + tail =~= tail);
        lemma_announce_line(c.name);
        assert(tail =~= line + seq!['\n'] + (c.url + seq!['\n']));
        lemma_split_first(line, c.url + seq!['\n'], '\n');
        assert(c.url + seq!['\n'] =~= c.url + seq!['\n'] + Seq::<char>::empty());
        lemma_split_first(c.url, Seq::<char>::empty(), '\n');
        lemma_first_index(Seq::<char>::empty(), '\n');
        assert(split_each(Seq::<char>::empty(), '\n') =~= seq![Seq::<char>::empty()]);
        assert(split_each(written(channels), '\n') =~= written_lines(channels).push(Seq::empty()));
    }
}

proof fn lemma_written_lines_tight(channels: Seq<ChannelEntry>)
    requires
        forall|i: int| 0 <= i < channels.len() ==> writable(#[trigger] channels[i]),
    ensures
        written_lines(channels).len() == 2 * channels.len(),
        forall|k: int|
            0 <= k < written_lines(channels).len() ==> tight(#[trigger] written_lines(channels)[k]),
    decreases channels.len(),
{
    if channels.len() > 0 {
        let earlier = channels.drop_last();
        assert forall|i: int| 0 <= i < earlier.len() implies writable(#[trigger] earlier[i]) by {
            assert(earlier[i] == channels[i]);
        }
        lemma_written_lines_tight(earlier);
        lemma_announce_line(channels.last().name);
        assert forall|k: int| 0 <= k < written_lines(channels).len() implies tight(
            #[trigger] written_lines(channels)[k],
        ) by {
            if k < written_lines(earlier).len() {
                assert(written_lines(channels)[k] == written_lines(earlier)[k]);
            }
        }
    }
}

proof fn lemma_written_parse(channels: Seq<ChannelEntry>)
    requires
        forall|i: int| 0 <= i < channels.len() ==> writable(#[trigger] channels[i]),
    ensures
        parse_lines(written_lines(channels)) == (ParseState { channels, pending: None }),
    decreases channels.len(),
{
    if channels.len() == 0 {
        assert(channels =~= Seq::<ChannelEntry>::empty());
    } else {
        let earlier = channels.drop_last();
        let c = channels.last();
        assert forall|i: int| 0 <= i < earlier.len() implies writable(#[trigger] earlier[i]) by {
            assert(earlier[i] == channels[i]);
        }
        lemma_written_parse(earlier);
        let line = announce_line(c.name);
        let one = written_lines(earlier).push(line);
        let two = one.push(c.url);
        assert(two.drop_last() =~= one);
        assert(one.drop_last() =~= written_lines(earlier));
        lemma_announce_line(c.name);
        lemma_trim_tight(line);
        lemma_trim_tight(c.url);
        reveal_strlit("rtsp://");
        assert(c.url.len() > 0);
        assert(written_lines(channels) == two);
        let st0 = parse_lines(written_lines(earlier));
        assert(parse_lines(one) == parse_line(st0, line));
        let st1 = parse_line(st0, line);
        assert(trim(line) == line);
        assert(st1 == (ParseState { channels: earlier, pending: Some(c.name) }));
        assert(parse_lines(two) == parse_line(st1, c.url));
        assert(trim(c.url) == c.url);
        assert((ChannelEntry { name: c.name, url: c.url }) == c);
        assert(earlier.push(c) =~= channels);
    }
}

/// Reading back the playlist that lists channels gives those channels, name by
/// name and URL by URL, for channels that can be written; see [`writable`].
pub proof fn lemma_written_channels_read_back(channels: Seq<ChannelEntry>)
    requires
        forall|i: int| 0 <= i < channels.len() ==> writable(#[trigger] channels[i]),
    ensures
        spec_parse_m3u(written(channels)) == channels,
        forall|i: int|
            0 <= i < channels.len() ==> (#[trigger] spec_parse_m3u(written(channels))[i]).name
                == channels[i].name && spec_parse_m3u(written(channels))[i].url == channels[i].url,
{
    lemma_written_split(channels);
    lemma_written_lines_tight(channels);
    lemma_written_parse(channels);
    let pieces = split_each(written(channels), '\n');
    let lines = written_lines(channels);
    assert(pieces.last().len() == 0);
    assert forall|k: int| 0 <= k < lines.len() implies strip_cr(pieces[k]) == lines[k] by {
        assert(pieces[k] == lines[k]);
        assert(tight(lines[k]));
    }
    assert(lines_of(written(channels)) =~= lines);
}

} // verus!
