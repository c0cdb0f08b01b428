//! The query part of a stream URL.
//!
//! A stream URL carries its tuning parameters as `key=value` pairs after the
//! first `?`, separated by `&`. The codec is purely syntactic: it never decodes
//! a value and never checks what a parameter means.

use crate::text::{
    append, chars_of, join, join_with, parse_unsigned, read_unsigned,
    same_text, split_each, split_at_each, split_once, split_once_at, string_of, views,
};
use vstd::prelude::*;

verus! {

/// Key and value of one part of a query. A part without `=` is a key with an
/// empty value.
pub open spec fn pair_of(part: Seq<char>) -> (Seq<char>, Seq<char>) {
    match split_once(part, '=') {
        Some(p) => p,
        None => (part, Seq::empty()),
    }
}

/// The value of the first part in `parts` whose key is `key`. Empty parts are
/// passed over; a part without `=` is a key with an empty value.
pub open spec fn find_param(parts: Seq<Seq<char>>, key: Seq<char>) -> Option<Seq<char>>
    decreases parts.len(),
{
    if parts.len() == 0 {
        None
    } else if parts[0].len() > 0 && pair_of(parts[0]).0 == key {
        Some(pair_of(parts[0]).1)
    } else {
        find_param(parts.drop_first(), key)
    }
}

/// The value of parameter `key` in the query of `url`.
pub open spec fn spec_query_param(url: Seq<char>, key: Seq<char>) -> Option<Seq<char>> {
    match split_once(url, '?') {
        None => None,
        Some((_, query)) => find_param(split_each(query, '&'), key),
    }
}

/// `key=value` for one parameter of the mux key; the value is empty when the
/// URL does not hold the parameter.
pub open spec fn mux_field(url: Seq<char>, key: Seq<char>) -> Seq<char> {
    key + seq!['='] + match spec_query_param(url, key) {
        Some(v) => v,
        None => Seq::empty(),
    }
}

/// The mux key of `url`: frequency, bandwidth, modulation system, modulation
/// type, symbol rate and spectral inversion, in this order whatever the order in
/// the URL.
pub open spec fn spec_mux_key(url: Seq<char>) -> Seq<char> {
    mux_field(url, "freq"@) + seq!['&'] + mux_field(url, "bw"@) + seq!['&'] + mux_field(
        url,
        "msys"@,
    ) + seq!['&'] + mux_field(url, "mtype"@) + seq!['&'] + mux_field(url, "sr"@) + seq!['&']
        + mux_field(url, "specinv"@)
}

/// The tuner slot named in `url`, when the parameter `avm` is there and reads
/// as a 32-bit number.
pub open spec fn spec_tuner_slot(url: Seq<char>) -> Option<u32> {
    match spec_query_param(url, "avm"@) {
        Some(v) => match parse_unsigned(v, u32::MAX as nat) {
            Some(n) => Some(n as u32),
            None => None,
        },
        None => None,
    }
}

/// `k=v` for a pair.
pub open spec fn render_pair(k: Seq<char>, v: Seq<char>) -> Seq<char> {
    k + seq!['='] + v
}

/// One part of a query written again, with `value` in place of its own value
/// when its key is `key`.
pub open spec fn rewrite_part(part: Seq<char>, key: Seq<char>, value: Seq<char>) -> Seq<char> {
    if pair_of(part).0 == key {
        render_pair(pair_of(part).0, value)
    } else {
        render_pair(pair_of(part).0, pair_of(part).1)
    }
}

/// The parts of a query written again, in order, without the empty ones.
pub open spec fn rewritten(parts: Seq<Seq<char>>, key: Seq<char>, value: Seq<char>) -> Seq<
    Seq<char>,
>
    decreases parts.len(),
{
    if parts.len() == 0 {
        Seq::empty()
    } else if parts.last().len() == 0 {
        rewritten(parts.drop_last(), key, value)
    } else {
        rewritten(parts.drop_last(), key, value).push(rewrite_part(parts.last(), key, value))
    }
}

/// Whether a non-empty part has the key `key`.
pub open spec fn mentions(parts: Seq<Seq<char>>, key: Seq<char>) -> bool
    decreases parts.len(),
{
    if parts.len() == 0 {
        false
    } else {
        mentions(parts.drop_last(), key) || (parts.last().len() > 0 && pair_of(parts.last()).0
            == key)
    }
}

/// `url` with parameter `key` set to `value`.
///
/// Every pair with that key gets the value; when there is none, the pair is
/// appended. The other pairs keep their order and their text. A URL without `?`
/// gets `?key=value` appended.
pub open spec fn spec_set_query_param(url: Seq<char>, key: Seq<char>, value: Seq<char>) -> Seq<
    char,
> {
    match split_once(url, '?') {
        None => url + seq!['?'] + render_pair(key, value),
        Some((base, query)) => {
            let parts = split_each(query, '&');
            let kept = rewritten(parts, key, value);
            let pairs = if mentions(parts, key) {
                kept
            } else {
                kept.push(render_pair(key, value))
            };
            base + seq!['?'] + join(pairs, seq!['&'])
        },
    }
}

fn lookup(url: &Vec<char>, key: &Vec<char>) -> (r: Option<Vec<char>>)
    ensures
        match r {
            Some(v) => spec_query_param(url@, key@) == Some(v@),
            None => spec_query_param(url@, key@) is None,
        },
{
    let query = match split_once_at(url, '?') {
        None => {
            return None;
        },
        Some((_, q)) => q,
    };
    let parts = split_at_each(&query, '&');
    let mut i: usize = 0;
    assert(views(parts@).skip(0) =~= views(parts@));
    while i < parts.len()
        invariant
            i <= parts.len(),
            spec_query_param(url@, key@) == find_param(views(parts@).skip(i as int), key@),
        decreases parts.len() - i,
    {
        let ghost rest = views(parts@).skip(i as int);
        assert(rest[0] == parts@[i as int]@);
        assert(rest.drop_first() =~= views(parts@).skip(i + 1));
        if parts[i].len() > 0 {
            match split_once_at(&parts[i], '=') {
                None => {
                    if same_text(&parts[i], key) {
                        return Some(Vec::new());
                    }
                },
                Some((k, v)) => {
                    if same_text(&k, key) {
                        return Some(v);
                    }
                },
            }
        }
        i = i + 1;
    }
    None
}

/// The value of parameter `key` in the query of `url`.
pub fn query_param(url: &str, key: &str) -> (r: Option<String>)
    ensures
        match r {
            Some(v) => spec_query_param(url@, key@) == Some(v@),
            None => spec_query_param(url@, key@) is None,
        },
{
    match lookup(&chars_of(url), &chars_of(key)) {
        Some(v) => Some(string_of(&v)),
        None => None,
    }
}

fn push_mux_field(out: &mut Vec<char>, url: &Vec<char>, key: &str)
    ensures
        final(out)@ == old(out)@ + mux_field(url@, key@),
{
    let k = chars_of(key);
    append(out, &k);
    out.push('=');
    match lookup(url, &k) {
        Some(v) => {
            append(out, &v);
        },
        None => {},
    }
    assert(out@ =~= old(out)@ + mux_field(url@, key@));
}

/// The mux key of `url`: the parameters that name the multiplex, in a fixed
/// order, with an empty value for each one the URL does not hold.
pub fn mux_key_from_rtsp_url(url: &str) -> (r: String)
    ensures
        r@ == spec_mux_key(url@),
{
    let u = chars_of(url);
    let mut out: Vec<char> = Vec::new();
    push_mux_field(&mut out, &u, "freq");
    out.push('&');
    push_mux_field(&mut out, &u, "bw");
    out.push('&');
    push_mux_field(&mut out, &u, "msys");
    out.push('&');
    push_mux_field(&mut out, &u, "mtype");
    out.push('&');
    push_mux_field(&mut out, &u, "sr");
    out.push('&');
    push_mux_field(&mut out, &u, "specinv");
    assert(out@ =~= spec_mux_key(url@));
    string_of(&out)
}

/// The tuner slot named in `url`, if any.
pub fn avm_from_rtsp_url(url: &str) -> (r: Option<u32>)
    ensures
        r == spec_tuner_slot(url@),
{
    match lookup(&chars_of(url), &chars_of("avm")) {
        Some(v) => match read_unsigned(&v, 0xffff_ffff) {
            Some(n) => Some(n as u32),
            None => None,
        },
        None => None,
    }
}

fn push_pair(out: &mut Vec<char>, k: &Vec<char>, v: &Vec<char>)
    ensures
        final(out)@ == old(out)@ + render_pair(k@, v@),
{
    append(out, k);
    out.push('=');
    append(out, v);
    assert(out@ =~= old(out)@ + render_pair(k@, v@));
}

/// `url` with parameter `key` set to `value`; see [`spec_set_query_param`].
pub fn set_query_param(url: &str, key: &str, value: &str) -> (r: String)
    ensures
        r@ == spec_set_query_param(url@, key@, value@),
{
    let u = chars_of(url);
    let k = chars_of(key);
    let v = chars_of(value);
    let (base, query) = match split_once_at(&u, '?') {
        None => {
            let mut out = u;
            out.push('?');
            push_pair(&mut out, &k, &v);
            assert(out@ =~= spec_set_query_param(url@, key@, value@));
            return string_of(&out);
        },
        Some(p) => p,
    };
    let parts = split_at_each(&query, '&');
    let mut pairs: Vec<Vec<char>> = Vec::new();
    let mut found = false;
    let mut i: usize = 0;
    assert(views(parts@).take(0) =~= Seq::<Seq<char>>::empty());
    assert(views(pairs@) =~= Seq::<Seq<char>>::empty());
    while i < parts.len()
        invariant
            i <= parts.len(),
            views(pairs@) == rewritten(views(parts@).take(i as int), k@, v@),
            found == mentions(views(parts@).take(i as int), k@),
        decreases parts.len() - i,
    {
        let ghost done = views(parts@).take(i as int);
        let ghost next = views(parts@).take(i + 1);
        let ghost before = pairs@;
        assert(next.drop_last() =~= done);
        assert(next.last() == parts@[i as int]@);
        let part = &parts[i];
        if part.len() > 0 {
            let mut item: Vec<char> = Vec::new();
            match split_once_at(part, '=') {
                Some((pk, pv)) => {
                    if same_text(&pk, &k) {
                        push_pair(&mut item, &pk, &v);
                        found = true;
                    } else {
                        push_pair(&mut item, &pk, &pv);
                    }
                },
                None => {
                    let empty: Vec<char> = Vec::new();
                    if same_text(part, &k) {
                        push_pair(&mut item, part, &v);
                        found = true;
                    } else {
                        push_pair(&mut item, part, &empty);
                    }
                },
            }
            assert(item@ =~= rewrite_part(part@, k@, v@));
            pairs.push(item);
            assert(views(pairs@) =~= views(before).push(item@));
        }
        i = i + 1;
    }
    assert(views(parts@).take(parts.len() as int) =~= views(parts@));
    if !found {
        let ghost before = pairs@;
        let mut item: Vec<char> = Vec::new();
        push_pair(&mut item, &k, &v);
        assert(item@ =~= render_pair(k@, v@));
        pairs.push(item);
        assert(views(pairs@) =~= views(before).push(item@));
    }
    let mut sep: Vec<char> = Vec::new();
    sep.push('&');
    assert(sep@ =~= seq!['&']);
    let rebuilt = join_with(&pairs, &sep);
    let mut out = base;
    out.push('?');
    append(&mut out, &rebuilt);
    string_of(&out)
}

} // verus!
