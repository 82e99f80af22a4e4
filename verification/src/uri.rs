//! Splitting a proxy URI into scheme, userinfo, host, port, path, query and
//! fragment, and decoding percent- and form-encoded parts. The grammar: the
//! fragment starts at the first `#`, the query at the first `?` before it,
//! the scheme ends at the first `:` (which `//` must follow), the path starts
//! at the first `/` after the authority, the userinfo ends at the last `@` of
//! the authority, and the port follows the last `:` of the host part (with
//! `[...]` kept whole for a bracketed address).

use vstd::prelude::*;

use vstd::utf8::{valid_utf8, decode_utf8, encode_utf8};

use crate::text::{
    all_digits, spec_digits_value, spec_find, spec_rfind, spec_hex_val, spec_split,
    lemma_find_props, lemma_rfind_props, find_from, rfind, sub_chars, hex_val, parse_uint,
    split_chars, to_chars, spec_parse_uint,
};
use crate::outside::{bytes_to_string, push_char_utf8};

verus! {

/// The ghost shape of a split URI.
pub struct UriV {
    pub scheme: Seq<char>,
    pub userinfo: Seq<char>,
    pub host: Seq<char>,
    pub port: Option<u16>,
    pub path: Seq<char>,
    pub query: Seq<char>,
    pub fragment: Seq<char>,
}

/// A split URI. The userinfo, query and fragment are kept raw; query pairs
/// and the fragment are decoded on demand.
pub struct Uri {
    pub scheme: Vec<char>,
    pub userinfo: Vec<char>,
    pub host: Vec<char>,
    pub port: Option<u16>,
    pub path: Vec<char>,
    pub query: Vec<char>,
    pub fragment: Vec<char>,
}

/// The ghost shape of a split URI.
pub open spec fn uv(u: Uri) -> UriV {
    UriV {
        scheme: u.scheme@,
        userinfo: u.userinfo@,
        host: u.host@,
        port: u.port,
        path: u.path@,
        query: u.query@,
        fragment: u.fragment@,
    }
}

/// A port part: absent when empty, else one to five digits within `u16`.
pub open spec fn spec_port_val(d: Seq<char>) -> Option<Option<u16>> {
    if d.len() == 0 {
        Some(None)
    } else if all_digits(d) && spec_digits_value(d) <= 0xFFFF {
        Some(Some(spec_digits_value(d) as u16))
    } else {
        None
    }
}

/// The host and port of an authority's host part.
pub open spec fn spec_host_port(hp: Seq<char>) -> Option<(Seq<char>, Option<u16>)> {
    if hp.len() > 0 && hp[0] == '[' {
        match spec_find(hp, ']', 0) {
            None => None,
            Some(rb) => {
                let host = hp.subrange(0, rb + 1);
                if rb + 1 == hp.len() {
                    Some((host, None))
                } else if hp[rb + 1] == ':' {
                    match spec_port_val(hp.subrange(rb + 2, hp.len() as int)) {
                        Some(p) => Some((host, p)),
                        None => None,
                    }
                } else {
                    None
                }
            },
        }
    } else {
        match spec_rfind(hp, ':') {
            None => Some((hp, None)),
            Some(cx) => {
                match spec_port_val(hp.subrange(cx + 1, hp.len() as int)) {
                    Some(p) => Some((hp.subrange(0, cx), p)),
                    None => None,
                }
            },
        }
    }
}

/// What a URI text splits into, if it has the `scheme://` shape, a non-empty
/// host, and a well-formed port.
pub open spec fn spec_split_uri(s: Seq<char>) -> Option<UriV> {
    let body1 = match spec_find(s, '#', 0) {
        Some(h) => s.subrange(0, h),
        None => s,
    };
    let frag = match spec_find(s, '#', 0) {
        Some(h) => s.subrange(h + 1, s.len() as int),
        None => Seq::<char>::empty(),
    };
    let body2 = match spec_find(body1, '?', 0) {
        Some(q) => body1.subrange(0, q),
        None => body1,
    };
    let query = match spec_find(body1, '?', 0) {
        Some(q) => body1.subrange(q + 1, body1.len() as int),
        None => Seq::<char>::empty(),
    };
    match spec_find(body2, ':', 0) {
        None => None,
        Some(c) => {
            if c + 3 > body2.len() || body2[c + 1] != '/' || body2[c + 2] != '/' {
                None
            } else {
                let scheme = body2.subrange(0, c);
                let rest = body2.subrange(c + 3, body2.len() as int);
                let auth = match spec_find(rest, '/', 0) {
                    Some(sl) => rest.subrange(0, sl),
                    None => rest,
                };
                let path = match spec_find(rest, '/', 0) {
                    Some(sl) => rest.subrange(sl, rest.len() as int),
                    None => Seq::<char>::empty(),
                };
                let userinfo = match spec_rfind(auth, '@') {
                    Some(a) => auth.subrange(0, a),
                    None => Seq::<char>::empty(),
                };
                let hostport = match spec_rfind(auth, '@') {
                    Some(a) => auth.subrange(a + 1, auth.len() as int),
                    None => auth,
                };
                match spec_host_port(hostport) {
                    None => None,
                    Some(hp) => {
                        if hp.0.len() == 0 {
                            None
                        } else {
                            Some(
                                UriV {
                                    scheme,
                                    userinfo,
                                    host: hp.0,
                                    port: hp.1,
                                    path,
                                    query,
                                    fragment: frag,
                                },
                            )
                        }
                    },
                }
            }
        },
    }
}

fn parse_port_digits(d: &Vec<char>) -> (r: Option<Option<u16>>)
    ensures
        r == spec_port_val(d@),
{
    if d.len() == 0 {
        return Some(None);
    }
    let c0 = d[0];
    if !('0' <= c0 && c0 <= '9') {
        assert(!all_digits(d@));
        return None;
    }
    match parse_uint(d, 0xFFFF) {
        Some(n) => {
            assert(spec_parse_uint(d@, 0xFFFF) == Some(n as int));
            Some(Some(n as u16))
        },
        None => {
            assert(spec_parse_uint(d@, 0xFFFF) is None);
            None
        },
    }
}

fn host_port(hp: &Vec<char>) -> (r: Option<(Vec<char>, Option<u16>)>)
    ensures
        match r {
            Some(p) => spec_host_port(hp@) == Some((p.0@, p.1)),
            None => spec_host_port(hp@) is None,
        },
{
    proof {
        lemma_rfind_props(hp@, ':');
    }
    if hp.len() > 0 && hp[0] == '[' {
        proof {
            lemma_find_props(hp@, ']', 0);
        }
        match find_from(hp, ']', 0) {
            None => None,
            Some(rb) => {
                let host = sub_chars(hp, 0, rb + 1);
                if rb + 1 == hp.len() {
                    Some((host, None))
                } else if hp[rb + 1] == ':' {
                    let digits = sub_chars(hp, rb + 2, hp.len());
                    match parse_port_digits(&digits) {
                        Some(p) => Some((host, p)),
                        None => None,
                    }
                } else {
                    None
                }
            },
        }
    } else {
        match rfind(hp, ':') {
            None => Some((sub_chars(hp, 0, hp.len()), None)),
            Some(cx) => {
                let digits = sub_chars(hp, cx + 1, hp.len());
                match parse_port_digits(&digits) {
                    Some(p) => Some((sub_chars(hp, 0, cx), p)),
                    None => None,
                }
            },
        }
    }
}

/// Splits a URI text, exactly when the grammar admits it.
#[verifier::rlimit(100)]
pub fn split_uri(v: &Vec<char>) -> (r: Option<Uri>)
    ensures
        match r {
            Some(u) => spec_split_uri(v@) == Some(uv(u)),
            None => spec_split_uri(v@) is None,
        },
{
    proof {
        lemma_find_props(v@, '#', 0);
    }
    let n = v.len();
    let (body1, frag) = match find_from(v, '#', 0) {
        Some(h) => (sub_chars(v, 0, h), sub_chars(v, h + 1, n)),
        None => (sub_chars(v, 0, n), Vec::<char>::new()),
    };
    assert(v@.subrange(0, v@.len() as int) =~= v@);
    proof {
        lemma_find_props(body1@, '?', 0);
    }
    let bn = body1.len();
    let (body2, query) = match find_from(&body1, '?', 0) {
        Some(q) => (sub_chars(&body1, 0, q), sub_chars(&body1, q + 1, bn)),
        None => (sub_chars(&body1, 0, bn), Vec::<char>::new()),
    };
    assert(body1@.subrange(0, body1@.len() as int) =~= body1@);
    proof {
        lemma_find_props(body2@, ':', 0);
    }
    let c = match find_from(&body2, ':', 0) {
        Some(c) => c,
        None => {
            return None;
        },
    };
    if body2.len() - c < 3 || body2[c + 1] != '/' || body2[c + 2] != '/' {
        return None;
    }
    let scheme = sub_chars(&body2, 0, c);
    let rest = sub_chars(&body2, c + 3, body2.len());
    proof {
        lemma_find_props(rest@, '/', 0);
    }
    let rn = rest.len();
    let (auth, path) = match find_from(&rest, '/', 0) {
        Some(sl) => (sub_chars(&rest, 0, sl), sub_chars(&rest, sl, rn)),
        None => (sub_chars(&rest, 0, rn), Vec::<char>::new()),
    };
    assert(rest@.subrange(0, rest@.len() as int) =~= rest@);
    proof {
        lemma_rfind_props(auth@, '@');
    }
    let an = auth.len();
    let (userinfo, hostport) = match rfind(&auth, '@') {
        Some(a) => (sub_chars(&auth, 0, a), sub_chars(&auth, a + 1, an)),
        None => (Vec::<char>::new(), sub_chars(&auth, 0, an)),
    };
    assert(auth@.subrange(0, auth@.len() as int) =~= auth@);
    match host_port(&hostport) {
        None => None,
        Some(hp) => {
            let (host, port) = hp;
            if host.len() == 0 {
                None
            } else {
                Some(
                    Uri {
                        scheme,
                        userinfo,
                        host,
                        port,
                        path,
                        query,
                        fragment: frag,
                    },
                )
            }
        },
    }
}

/// The byte a `%`-pair at the head of the run denotes, if there is one.
pub open spec fn spec_pct_pair(s: Seq<char>) -> Option<u8> {
    if s.len() >= 3 && s[0] == '%' {
        match (spec_hex_val(s[1]), spec_hex_val(s[2])) {
            (Some(h), Some(l)) => Some((h * 16 + l) as u8),
            _ => None,
        }
    } else {
        None
    }
}

/// The bytes a percent-encoded run denotes: `%`-pairs become their byte, an
/// unmatched `%` stays itself, other characters keep their UTF-8 bytes, and
/// `+` becomes a space when the form rules apply.
pub open spec fn spec_pct_bytes(s: Seq<char>, plus_space: bool) -> Seq<u8>
    decreases s.len(),
{
    if s.len() == 0 {
        seq![]
    } else {
        match spec_pct_pair(s) {
            Some(b) => seq![b] + spec_pct_bytes(s.subrange(3, s.len() as int), plus_space),
            None => {
                if plus_space && s[0] == '+' {
                    seq![32u8] + spec_pct_bytes(s.drop_first(), plus_space)
                } else {
                    encode_utf8(seq![s[0]]) + spec_pct_bytes(s.drop_first(), plus_space)
                }
            },
        }
    }
}

fn pct_decode_bytes(v: &Vec<char>, plus_space: bool) -> (out: Vec<u8>)
    ensures
        out@ == spec_pct_bytes(v@, plus_space),
{
    let mut out: Vec<u8> = Vec::new();
    let mut i: usize = 0;
    assert(v@.subrange(0, v@.len() as int) =~= v@);
    while i < v.len()
        invariant
            i <= v@.len(),
            spec_pct_bytes(v@, plus_space) == out@ + spec_pct_bytes(
                v@.subrange(i as int, v@.len() as int),
                plus_space,
            ),
        decreases v@.len() - i,
    {
        let ghost restg = v@.subrange(i as int, v@.len() as int);
        let c = v[i];
        assert(restg[0] == c);
        if c == '%' && v.len() - i >= 3 {
            let h = hex_val(v[i + 1]);
            let l = hex_val(v[i + 2]);
            match (h, l) {
                (Some(h), Some(l)) => {
                    assert(spec_pct_pair(restg) == Some((h * 16 + l) as u8));
                    out.push((h * 16 + l) as u8);
                    assert(restg.subrange(3, restg.len() as int)
                        =~= v@.subrange(i + 3, v@.len() as int));
                    i += 3;
                    continue;
                },
                _ => {
                    assert(spec_pct_pair(restg) is None);
                },
            }
        } else {
            assert(spec_pct_pair(restg) is None);
        }
        assert(restg.drop_first() =~= v@.subrange(i + 1, v@.len() as int));
        if plus_space && c == '+' {
            out.push(32u8);
        } else {
            push_char_utf8(&mut out, c);
        }
        i += 1;
    }
    assert(v@.subrange(v@.len() as int, v@.len() as int) =~= Seq::<char>::empty());
    out
}

/// A form-decoded run: percent-pairs and `+` undone; a run whose bytes are
/// not valid UTF-8 is kept as written.
pub open spec fn spec_form_decode(s: Seq<char>) -> Seq<char> {
    let b = spec_pct_bytes(s, true);
    if valid_utf8(b) {
        decode_utf8(b)
    } else {
        s
    }
}

/// Form-decodes a run (for query keys and values).
pub fn form_decode(v: &Vec<char>) -> (r: Vec<char>)
    ensures
        r@ == spec_form_decode(v@),
{
    let b = pct_decode_bytes(v, true);
    match bytes_to_string(&b) {
        Some(s) => to_chars(s.as_str()),
        None => sub_chars(v, 0, v.len()),
    }
}

/// A percent-decoded run: `None` when the bytes are not valid UTF-8.
pub open spec fn spec_pct_decode(s: Seq<char>) -> Option<Seq<char>> {
    let b = spec_pct_bytes(s, false);
    if valid_utf8(b) {
        Some(decode_utf8(b))
    } else {
        None
    }
}

/// Percent-decodes a run (for fragments).
pub fn pct_decode(v: &Vec<char>) -> (r: Option<Vec<char>>)
    ensures
        match r {
            Some(t) => spec_pct_decode(v@) == Some(t@),
            None => spec_pct_decode(v@) is None,
        },
{
    let b = pct_decode_bytes(v, false);
    match bytes_to_string(&b) {
        Some(s) => Some(to_chars(s.as_str())),
        None => None,
    }
}

/// The decoded key/value pairs of a query text, in order: pieces cut at `&`,
/// empty pieces dropped, each split at its first `=` and form-decoded.
pub open spec fn spec_query_pairs(q: Seq<char>) -> Seq<(Seq<char>, Seq<char>)> {
    spec_split(q, '&').filter(|p: Seq<char>| p.len() > 0).map_values(
        |p: Seq<char>| spec_pair_of(p),
    )
}

/// One query piece split at its first `=` and form-decoded.
pub open spec fn spec_pair_of(p: Seq<char>) -> (Seq<char>, Seq<char>) {
    match spec_find(p, '=', 0) {
        Some(e) => (
            spec_form_decode(p.subrange(0, e)),
            spec_form_decode(p.subrange(e + 1, p.len() as int)),
        ),
        None => (spec_form_decode(p), Seq::<char>::empty()),
    }
}

fn pair_of(p: &Vec<char>) -> (r: (Vec<char>, Vec<char>))
    ensures
        (r.0@, r.1@) == spec_pair_of(p@),
{
    proof {
        lemma_find_props(p@, '=', 0);
    }
    let n = p.len();
    match find_from(p, '=', 0) {
        Some(e) => {
            let key = sub_chars(p, 0, e);
            let val = sub_chars(p, e + 1, n);
            (form_decode(&key), form_decode(&val))
        },
        None => {
            let whole = sub_chars(p, 0, p.len());
            assert(p@.subrange(0, p@.len() as int) =~= p@);
            (form_decode(&whole), Vec::<char>::new())
        },
    }
}

/// The view of a built pair list.
pub open spec fn qpv(pairs: Seq<(Vec<char>, Vec<char>)>) -> Seq<(Seq<char>, Seq<char>)> {
    Seq::new(pairs.len(), |i: int| (pairs[i].0@, pairs[i].1@))
}

/// The decoded key/value pairs of a query text.
pub fn query_pairs(q: &Vec<char>) -> (r: Vec<(Vec<char>, Vec<char>)>)
    ensures
        qpv(r@) == spec_query_pairs(q@),
{
    let pieces = split_chars(q, '&');
    let mut out: Vec<(Vec<char>, Vec<char>)> = Vec::new();
    let mut i: usize = 0;
    let ghost splits = spec_split(q@, '&');
    proof {
        reveal(Seq::filter);
    }
    assert(splits.subrange(0, 0) =~= Seq::<Seq<char>>::empty());
    assert(Seq::<Seq<char>>::empty().filter(|p: Seq<char>| p.len() > 0)
        =~= Seq::<Seq<char>>::empty());
    while i < pieces.len()
        invariant
            i <= pieces@.len(),
            pieces@.len() == splits.len(),
            forall|k: int| 0 <= k < splits.len() ==> pieces@[k]@ == splits[k],
            qpv(out@) == splits.subrange(0, i as int).filter(|p: Seq<char>| p.len() > 0)
                .map_values(|p: Seq<char>| spec_pair_of(p)),
        decreases pieces@.len() - i,
    {
        let ghost pre = splits.subrange(0, i as int);
        let ghost post = splits.subrange(0, i + 1);
        proof {
            reveal(Seq::filter);
        }
        assert(post.drop_last() =~= pre);
        assert(post.last() == splits[i as int]);
        if pieces[i].len() > 0 {
            let pr = pair_of(&pieces[i]);
            out.push(pr);
            assert(post.filter(|p: Seq<char>| p.len() > 0)
                =~= pre.filter(|p: Seq<char>| p.len() > 0).push(splits[i as int]));
            assert(qpv(out@) =~= pre.filter(|p: Seq<char>| p.len() > 0).map_values(
                |p: Seq<char>| spec_pair_of(p),
            ).push(spec_pair_of(splits[i as int])));
        } else {
            assert(post.filter(|p: Seq<char>| p.len() > 0)
                =~= pre.filter(|p: Seq<char>| p.len() > 0));
        }
        i += 1;
    }
    proof {
        reveal(Seq::filter);
    }
    assert(splits.subrange(0, splits.len() as int) =~= splits);
    out
}

/// The value under the last pair with the given key, if any.
pub open spec fn spec_query_get(
    pairs: Seq<(Seq<char>, Seq<char>)>,
    key: Seq<char>,
) -> Option<Seq<char>>
    decreases pairs.len(),
{
    if pairs.len() == 0 {
        None
    } else if pairs.last().0 == key {
        Some(pairs.last().1)
    } else {
        spec_query_get(pairs.drop_last(), key)
    }
}

/// Looks a key up among decoded pairs; the last occurrence wins, as when the
/// pairs fill a map.
pub fn query_get(pairs: &Vec<(Vec<char>, Vec<char>)>, key: &str) -> (r: Option<Vec<char>>)
    ensures
        match r {
            Some(val) => spec_query_get(qpv(pairs@), key@) == Some(val@),
            None => spec_query_get(qpv(pairs@), key@) is None,
        },
{
    let mut i: usize = pairs.len();
    assert(qpv(pairs@).subrange(0, pairs@.len() as int) =~= qpv(pairs@));
    while i > 0
        invariant
            i <= pairs@.len(),
            spec_query_get(qpv(pairs@), key@) == spec_query_get(
                qpv(pairs@).subrange(0, i as int),
                key@,
            ),
        decreases i,
    {
        i -= 1;
        let ghost pre = qpv(pairs@).subrange(0, i + 1);
        assert(pre.drop_last() =~= qpv(pairs@).subrange(0, i as int));
        assert(pre.last() == (pairs@[i as int].0@, pairs@[i as int].1@));
        if crate::text::eq_str(&pairs[i].0, key) {
            let val = sub_chars(&pairs[i].1, 0, pairs[i].1.len());
            assert(val@ =~= pairs@[i as int].1@);
            return Some(val);
        }
    }
    assert(qpv(pairs@).subrange(0, 0) =~= Seq::<(Seq<char>, Seq<char>)>::empty());
    None
}

/// Whether any pair carries the given key.
pub fn query_has(pairs: &Vec<(Vec<char>, Vec<char>)>, key: &str) -> (r: bool)
    ensures
        r == (spec_query_get(qpv(pairs@), key@) is Some),
{
    match query_get(pairs, key) {
        Some(_) => true,
        None => false,
    }
}

} // verus!
