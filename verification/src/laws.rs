//! Round-trip laws for the URI decoders: for a URI built from plain
//! components, decoding recovers exactly the host, port, credentials and tag
//! that built it. The one scheme left out is vmess, whose payload goes
//! through base64, of which only the engine's own word is assumed.

use vstd::prelude::*;

use vstd::utf8::{encode_utf8, encode_utf8_valid_utf8, encode_utf8_decode_utf8};

use crate::error::ErrKind;
use crate::json::JsonV;
use crate::text::{
    spec_find, spec_rfind, lemma_find_props, lemma_rfind_props, spec_dec_of, is_digit, spec_split,
};
use crate::uri::{UriV, spec_split_uri, spec_pct_bytes, spec_pct_decode, spec_query_pairs};

verus! {

/// A find that must land on `p`: the first occurrence.
proof fn lemma_find_exact(s: Seq<char>, c: char, p: int)
    requires
        0 <= p < s.len(),
        s[p] == c,
        forall|k: int| 0 <= k < p ==> s[k] != c,
    ensures
        spec_find(s, c, 0) == Some(p),
{
    lemma_find_props(s, c, 0);
    match spec_find(s, c, 0) {
        Some(i) => {
            if i < p {
                assert(s[i] != c);
            }
            if i > p {
                assert(s[p] != c);
            }
        },
        None => {
            assert(s[p] != c);
        },
    }
}

/// A reverse find that must land on `p`: the last occurrence.
proof fn lemma_rfind_exact(s: Seq<char>, c: char, p: int)
    requires
        0 <= p < s.len(),
        s[p] == c,
        forall|k: int| p < k < s.len() ==> s[k] != c,
    ensures
        spec_rfind(s, c) == Some(p),
{
    lemma_rfind_props(s, c);
    match spec_rfind(s, c) {
        Some(i) => {
            if i < p {
                assert(s[p] != c);
            }
            if i > p {
                assert(s[i] != c);
            }
        },
        None => {
            assert(s[p] != c);
        },
    }
}

/// A find over a run without the character comes back empty.
proof fn lemma_find_absent(s: Seq<char>, c: char)
    requires
        forall|k: int| 0 <= k < s.len() ==> s[k] != c,
    ensures
        spec_find(s, c, 0) is None,
{
    lemma_find_props(s, c, 0);
    match spec_find(s, c, 0) {
        Some(i) => {
            assert(s[i] != c);
        },
        None => {},
    }
}

/// Percent-decoding a run without `%` only undoes the UTF-8 framing.
proof fn lemma_pct_bytes_plain(s: Seq<char>)
    requires
        forall|k: int| 0 <= k < s.len() ==> s[k] != '%',
    ensures
        spec_pct_bytes(s, false) == encode_utf8(s),
    decreases s.len(),
{
    if s.len() > 0 {
        assert(forall|k: int| 0 <= k < s.drop_first().len() ==> s.drop_first()[k] != '%');
        lemma_pct_bytes_plain(s.drop_first());
        assert(encode_utf8(Seq::<char>::empty()) =~= Seq::<u8>::empty());
        assert(seq![s[0]].drop_first() =~= Seq::<char>::empty());
        vstd::utf8::char_is_scalar(s[0]);
        assert(encode_utf8(seq![s[0]]) =~= vstd::utf8::encode_scalar(s[0] as u32));
        assert(spec_pct_bytes(s, false) =~= encode_utf8(s));
    }
}

/// Percent-decoding a run without `%` gives the run back.
proof fn lemma_pct_decode_plain(s: Seq<char>)
    requires
        forall|k: int| 0 <= k < s.len() ==> s[k] != '%',
    ensures
        spec_pct_decode(s) == Some(s),
{
    lemma_pct_bytes_plain(s);
    encode_utf8_valid_utf8(s);
    encode_utf8_decode_utf8(s);
}

/// An empty query has no pairs.
proof fn lemma_query_pairs_empty()
    ensures
        spec_query_pairs(Seq::<char>::empty()) == Seq::<(Seq<char>, Seq<char>)>::empty(),
{
    reveal(Seq::filter);
    let q = Seq::<char>::empty();
    lemma_find_absent(q, '&');
    if spec_find(q, '&', 0) is Some {
        assert(false);
    }
    assert(spec_split(q, '&') == seq![q]);
    assert(Seq::<Seq<char>>::empty().filter(|p: Seq<char>| p.len() > 0) =~= Seq::<
        Seq<char>,
    >::empty());
    assert(seq![q].drop_last() =~= Seq::<Seq<char>>::empty());
    assert(seq![q].filter(|p: Seq<char>| p.len() > 0) =~= Seq::<Seq<char>>::empty());
    assert(spec_query_pairs(q) =~= Seq::<(Seq<char>, Seq<char>)>::empty());
}

/// A component of a plain netloc URI: no separators that would move a cut.
pub open spec fn plain_part(s: Seq<char>) -> bool {
    forall|k: int|
        0 <= k < s.len() ==> s[k] != '#' && s[k] != '?' && s[k] != '/' && s[k] != '@' && s[k]
            != ':' && s[k] != '%'
}

/// The URI text `scheme://userinfo@host:port#fragment`.
pub open spec fn spec_netloc_uri(
    scheme: Seq<char>,
    userinfo: Seq<char>,
    host: Seq<char>,
    port: u16,
    frag: Seq<char>,
) -> Seq<char> {
    scheme + "://"@ + userinfo + "@"@ + host + ":"@ + spec_dec_of(port as int) + "#"@ + frag
}

/// Splitting a URI built from plain components recovers exactly those
/// components.
#[verifier::rlimit(100)]
pub proof fn lemma_split_uri_round_trip(
    scheme: Seq<char>,
    userinfo: Seq<char>,
    host: Seq<char>,
    port: u16,
    frag: Seq<char>,
)
    requires
        plain_part(scheme),
        forall|k: int|
            0 <= k < userinfo.len() ==> userinfo[k] != '#' && userinfo[k] != '?' && userinfo[k]
                != '/' && userinfo[k] != '@',
        plain_part(host),
        host.len() > 0,
        host[0] != '[',
        forall|k: int| 0 <= k < frag.len() ==> frag[k] != '#',
    ensures
        spec_split_uri(spec_netloc_uri(scheme, userinfo, host, port, frag)) == Some(
            UriV {
                scheme: scheme,
                userinfo: userinfo,
                host: host,
                port: Some(port),
                path: Seq::<char>::empty(),
                query: Seq::<char>::empty(),
                fragment: frag,
            },
        ),
{
    reveal_strlit("://");
    reveal_strlit("@");
    reveal_strlit(":");
    reveal_strlit("#");
    assert("://"@ =~= seq![':', '/', '/']);
    assert("@"@ =~= seq!['@']);
    assert(":"@ =~= seq![':']);
    assert("#"@ =~= seq!['#']);
    let d = spec_dec_of(port as int);
    crate::utils::lemma_dec_len(port as int);
    crate::utils::lemma_dec_digits(port as int);
    crate::utils::lemma_dec_value(port as int);
    let s = spec_netloc_uri(scheme, userinfo, host, port, frag);
    let a = scheme.len() as int;
    let b = a + 3 + userinfo.len();
    let c = b + 1 + host.len();
    let e = c + 1 + d.len();
    assert(s.len() == e + 1 + frag.len());
    assert forall|k: int| 0 <= k < s.len() implies s[k] == netloc_char(
        scheme,
        userinfo,
        host,
        d,
        frag,
        k,
    ) by {
    }
    // the fragment cut
    assert(s[e] == '#');
    assert(forall|k: int| 0 <= k < e ==> s[k] != '#');
    lemma_find_exact(s, '#', e);
    let body1 = s.subrange(0, e);
    assert(s.subrange(e + 1, s.len() as int) =~= frag);
    // no query
    assert(forall|k: int| 0 <= k < body1.len() ==> body1[k] == s[k]);
    lemma_find_absent(body1, '?');
    // the scheme cut
    assert(body1[a] == ':');
    assert(forall|k: int| 0 <= k < a ==> body1[k] != ':');
    lemma_find_exact(body1, ':', a);
    assert(body1[a + 1] == '/' && body1[a + 2] == '/');
    assert(body1.subrange(0, a) =~= scheme);
    let rest = body1.subrange(a + 3, body1.len() as int);
    assert(rest.len() == userinfo.len() + 1 + host.len() + 1 + d.len());
    assert(forall|k: int| 0 <= k < rest.len() ==> rest[k] == s[a + 3 + k]);
    // no path
    lemma_find_absent(rest, '/');
    // the userinfo cut: the last (only) `@`
    let ap = userinfo.len() as int;
    assert(rest[ap] == '@');
    assert(forall|k: int| ap < k < rest.len() ==> rest[k] != '@');
    lemma_rfind_exact(rest, '@', ap);
    assert(rest.subrange(0, ap) =~= userinfo);
    let hostport = rest.subrange(ap + 1, rest.len() as int);
    assert(hostport.len() == host.len() + 1 + d.len());
    assert(forall|k: int| 0 <= k < hostport.len() ==> hostport[k] == rest[ap + 1 + k]);
    // the port cut: the last (only) `:`
    let hp = host.len() as int;
    assert(hostport[hp] == ':');
    assert(forall|k: int| hp < k < hostport.len() ==> hostport[k] != ':');
    lemma_rfind_exact(hostport, ':', hp);
    assert(hostport[0] != '[');
    assert(hostport.subrange(0, hp) =~= host);
    assert(hostport.subrange(hp + 1, hostport.len() as int) =~= d);
    // the port digits
    assert(crate::text::all_digits(d));
    assert(crate::text::spec_digits_value(d) == port as int);
}

/// The character a position of the built URI holds, component by component.
pub open spec fn netloc_char(
    scheme: Seq<char>,
    userinfo: Seq<char>,
    host: Seq<char>,
    d: Seq<char>,
    frag: Seq<char>,
    k: int,
) -> char {
    let a = scheme.len() as int;
    let b = a + 3 + userinfo.len();
    let c = b + 1 + host.len();
    let e = c + 1 + d.len();
    if k < a {
        scheme[k]
    } else if k == a {
        ':'
    } else if k < a + 3 {
        '/'
    } else if k < b {
        userinfo[k - (a + 3)]
    } else if k == b {
        '@'
    } else if k < c {
        host[k - (b + 1)]
    } else if k == c {
        ':'
    } else if k < e {
        d[k - (c + 1)]
    } else if k == e {
        '#'
    } else {
        frag[k - (e + 1)]
    }
}


/// Decoding a vless URI built from plain components recovers them: the tag
/// from the fragment (or its `vless_<host>` fallback), the server, the port
/// and the uuid, with nothing else in the node but its defaults.
pub proof fn lemma_vless_round_trip(uuid: Seq<char>, host: Seq<char>, port: u16, frag: Seq<char>)
    requires
        plain_part(uuid),
        plain_part(host),
        host.len() > 0,
        host[0] != '[',
        plain_part(frag),
    ensures
        ({
            let s = spec_netloc_uri("vless"@, uuid, host, port, frag);
            let tag = if frag.len() > 0 {
                frag
            } else {
                "vless_"@ + host
            };
            crate::parsers::vless::spec_vless(s) == Ok::<JsonV, ErrKind>(
                JsonV::Obj(
                    seq![
                        ("tag"@, JsonV::Str(tag)),
                        ("type"@, JsonV::Str("vless"@)),
                        ("server"@, JsonV::Str(host)),
                        ("server_port"@, JsonV::Num(spec_dec_of(port as int))),
                        ("uuid"@, JsonV::Str(uuid)),
                        ("packet_encoding"@, JsonV::Str("xudp"@)),
                    ],
                ),
            )
        }),
{
    reveal_strlit("vless");
    assert(plain_part("vless"@)) by {
        assert("vless"@ =~= seq!['v', 'l', 'e', 's', 's']);
    }
    lemma_split_uri_round_trip("vless"@, uuid, host, port, frag);
    lemma_query_pairs_empty();
    lemma_pct_decode_plain(frag);
    lemma_find_absent(uuid, ':');
    let s = spec_netloc_uri("vless"@, uuid, host, port, frag);
    let r = crate::parsers::vless::spec_vless(s);
    assert(crate::parsers::vless::spec_vless_tls(Seq::<(Seq<char>, Seq<char>)>::empty())
        is None);
    assert(crate::parsers::vless::spec_vless_transport(Seq::<(Seq<char>, Seq<char>)>::empty())
        is None);
    assert(r is Ok);
    assert(r->Ok_0->Obj_0 =~= ({
        let tag = if frag.len() > 0 {
            frag
        } else {
            "vless_"@ + host
        };
        seq![
            ("tag"@, JsonV::Str(tag)),
            ("type"@, JsonV::Str("vless"@)),
            ("server"@, JsonV::Str(host)),
            ("server_port"@, JsonV::Num(spec_dec_of(port as int))),
            ("uuid"@, JsonV::Str(uuid)),
            ("packet_encoding"@, JsonV::Str("xudp"@)),
        ]
    }));
}

/// Decoding a trojan URI built from plain components recovers the tag,
/// server, port and password; TLS is on with nothing waived.
pub proof fn lemma_trojan_round_trip(
    password: Seq<char>,
    host: Seq<char>,
    port: u16,
    frag: Seq<char>,
)
    requires
        plain_part(password),
        plain_part(host),
        host.len() > 0,
        host[0] != '[',
        plain_part(frag),
    ensures
        ({
            let s = spec_netloc_uri("trojan"@, password, host, port, frag);
            let tag = if frag.len() > 0 {
                frag
            } else {
                "trojan_"@ + host
            };
            crate::parsers::trojan::spec_trojan(s) == Ok::<JsonV, ErrKind>(
                JsonV::Obj(
                    seq![
                        ("tag"@, JsonV::Str(tag)),
                        ("type"@, JsonV::Str("trojan"@)),
                        ("server"@, JsonV::Str(host)),
                        ("server_port"@, JsonV::Num(spec_dec_of(port as int))),
                        ("password"@, JsonV::Str(password)),
                        (
                            "tls"@,
                            JsonV::Obj(
                                seq![
                                    ("enabled"@, JsonV::Bool(true)),
                                    ("insecure"@, JsonV::Bool(false)),
                                ],
                            ),
                        ),
                    ],
                ),
            )
        }),
{
    reveal_strlit("trojan");
    assert(plain_part("trojan"@)) by {
        assert("trojan"@ =~= seq!['t', 'r', 'o', 'j', 'a', 'n']);
    }
    lemma_split_uri_round_trip("trojan"@, password, host, port, frag);
    lemma_query_pairs_empty();
    lemma_pct_decode_plain(frag);
    lemma_find_absent(password, ':');
    let s = spec_netloc_uri("trojan"@, password, host, port, frag);
    let r = crate::parsers::trojan::spec_trojan(s);
    assert(crate::parsers::trojan::spec_trojan_tls(Seq::<(Seq<char>, Seq<char>)>::empty())
        == JsonV::Obj(
        seq![("enabled"@, JsonV::Bool(true)), ("insecure"@, JsonV::Bool(false))],
    ));
    assert(crate::parsers::trojan::spec_trojan_transport(
        Seq::<(Seq<char>, Seq<char>)>::empty(),
        host,
    ) is None);
    assert(r is Ok);
    assert(r->Ok_0->Obj_0 =~= ({
        let tag = if frag.len() > 0 {
            frag
        } else {
            "trojan_"@ + host
        };
        seq![
            ("tag"@, JsonV::Str(tag)),
            ("type"@, JsonV::Str("trojan"@)),
            ("server"@, JsonV::Str(host)),
            ("server_port"@, JsonV::Num(spec_dec_of(port as int))),
            ("password"@, JsonV::Str(password)),
            (
                "tls"@,
                JsonV::Obj(
                    seq![("enabled"@, JsonV::Bool(true)), ("insecure"@, JsonV::Bool(false))],
                ),
            ),
        ]
    }));
}

/// Decoding a hysteria2 URI built from plain components recovers the tag,
/// server, port and password, with TLS on by default.
pub proof fn lemma_hysteria2_round_trip(
    password: Seq<char>,
    host: Seq<char>,
    port: u16,
    frag: Seq<char>,
)
    requires
        plain_part(password),
        plain_part(host),
        host.len() > 0,
        host[0] != '[',
        plain_part(frag),
    ensures
        ({
            let s = spec_netloc_uri("hysteria2"@, password, host, port, frag);
            let tag = if frag.len() > 0 {
                frag
            } else {
                "hysteria2_"@ + host
            };
            crate::parsers::hysteria2::spec_hysteria2(s) == Ok::<JsonV, ErrKind>(
                JsonV::Obj(
                    seq![
                        ("tag"@, JsonV::Str(tag)),
                        ("type"@, JsonV::Str("hysteria2"@)),
                        ("server"@, JsonV::Str(host)),
                        ("server_port"@, JsonV::Num(spec_dec_of(port as int))),
                        ("password"@, JsonV::Str(password)),
                        (
                            "tls"@,
                            JsonV::Obj(
                                seq![
                                    ("enabled"@, JsonV::Bool(true)),
                                    ("insecure"@, JsonV::Bool(false)),
                                ],
                            ),
                        ),
                    ],
                ),
            )
        }),
{
    reveal_strlit("hysteria2");
    assert(plain_part("hysteria2"@)) by {
        assert("hysteria2"@ =~= seq!['h', 'y', 's', 't', 'e', 'r', 'i', 'a', '2']);
    }
    lemma_split_uri_round_trip("hysteria2"@, password, host, port, frag);
    lemma_query_pairs_empty();
    lemma_pct_decode_plain(frag);
    lemma_find_absent(password, ':');
    let s = spec_netloc_uri("hysteria2"@, password, host, port, frag);
    let r = crate::parsers::hysteria2::spec_hysteria2(s);
    assert(crate::parsers::hysteria2::spec_hy2_tls(Seq::<(Seq<char>, Seq<char>)>::empty())
        == Some(
        JsonV::Obj(seq![("enabled"@, JsonV::Bool(true)), ("insecure"@, JsonV::Bool(false))]),
    ));
    assert(crate::parsers::hysteria2::spec_hy2_obfs(Seq::<(Seq<char>, Seq<char>)>::empty())
        is None);
    assert(r is Ok);
    assert(r->Ok_0->Obj_0 =~= ({
        let tag = if frag.len() > 0 {
            frag
        } else {
            "hysteria2_"@ + host
        };
        seq![
            ("tag"@, JsonV::Str(tag)),
            ("type"@, JsonV::Str("hysteria2"@)),
            ("server"@, JsonV::Str(host)),
            ("server_port"@, JsonV::Num(spec_dec_of(port as int))),
            ("password"@, JsonV::Str(password)),
            (
                "tls"@,
                JsonV::Obj(
                    seq![("enabled"@, JsonV::Bool(true)), ("insecure"@, JsonV::Bool(false))],
                ),
            ),
        ]
    }));
}

/// Decoding a tuic URI built from plain components recovers the tag, server,
/// port, uuid and password, with the documented defaults filled in.
pub proof fn lemma_tuic_round_trip(
    uuid: Seq<char>,
    password: Seq<char>,
    host: Seq<char>,
    port: u16,
    frag: Seq<char>,
)
    requires
        plain_part(uuid),
        plain_part(password),
        plain_part(host),
        host.len() > 0,
        host[0] != '[',
        plain_part(frag),
    ensures
        ({
            let ui = uuid + ":"@ + password;
            let s = spec_netloc_uri("tuic"@, ui, host, port, frag);
            let tag = if frag.len() > 0 {
                frag
            } else {
                "tuic_"@ + host
            };
            crate::parsers::tuic::spec_tuic(s) == Ok::<JsonV, ErrKind>(
                JsonV::Obj(
                    seq![
                        ("tag"@, JsonV::Str(tag)),
                        ("type"@, JsonV::Str("tuic"@)),
                        ("server"@, JsonV::Str(host)),
                        ("server_port"@, JsonV::Num(spec_dec_of(port as int))),
                        ("uuid"@, JsonV::Str(uuid)),
                        ("password"@, JsonV::Str(password)),
                        ("congestion_control"@, JsonV::Str("bbr"@)),
                        ("udp_relay_mode"@, JsonV::Str("native"@)),
                        (
                            "tls"@,
                            JsonV::Obj(
                                seq![
                                    ("enabled"@, JsonV::Bool(true)),
                                    ("insecure"@, JsonV::Bool(false)),
                                ],
                            ),
                        ),
                    ],
                ),
            )
        }),
{
    reveal_strlit("tuic");
    reveal_strlit(":");
    assert(":"@ =~= seq![':']);
    assert(plain_part("tuic"@)) by {
        assert("tuic"@ =~= seq!['t', 'u', 'i', 'c']);
    }
    let ui = uuid + ":"@ + password;
    assert(forall|k: int|
        0 <= k < ui.len() ==> ui[k] != '#' && ui[k] != '?' && ui[k] != '/' && ui[k] != '@');
    lemma_split_uri_round_trip("tuic"@, ui, host, port, frag);
    lemma_query_pairs_empty();
    lemma_pct_decode_plain(frag);
    assert(ui[uuid.len() as int] == ':');
    assert(forall|k: int| 0 <= k < uuid.len() ==> ui[k] == uuid[k] && ui[k] != ':');
    lemma_find_exact(ui, ':', uuid.len() as int);
    assert(ui.subrange(0, uuid.len() as int) =~= uuid);
    assert(ui.subrange(uuid.len() as int + 1, ui.len() as int) =~= password);
    let s = spec_netloc_uri("tuic"@, ui, host, port, frag);
    let r = crate::parsers::tuic::spec_tuic(s);
    assert(!crate::parsers::tuic::spec_truthy(
        crate::uri::spec_query_get(Seq::<(Seq<char>, Seq<char>)>::empty(), "zero_rtt_handshake"@),
    ));
    assert(crate::parsers::tuic::spec_tuic_tls(Seq::<(Seq<char>, Seq<char>)>::empty())
        == JsonV::Obj(
        seq![("enabled"@, JsonV::Bool(true)), ("insecure"@, JsonV::Bool(false))],
    ));
    assert(r is Ok);
    assert(r->Ok_0->Obj_0 =~= ({
        let tag = if frag.len() > 0 {
            frag
        } else {
            "tuic_"@ + host
        };
        seq![
            ("tag"@, JsonV::Str(tag)),
            ("type"@, JsonV::Str("tuic"@)),
            ("server"@, JsonV::Str(host)),
            ("server_port"@, JsonV::Num(spec_dec_of(port as int))),
            ("uuid"@, JsonV::Str(uuid)),
            ("password"@, JsonV::Str(password)),
            ("congestion_control"@, JsonV::Str("bbr"@)),
            ("udp_relay_mode"@, JsonV::Str("native"@)),
            (
                "tls"@,
                JsonV::Obj(
                    seq![("enabled"@, JsonV::Bool(true)), ("insecure"@, JsonV::Bool(false))],
                ),
            ),
        ]
    }));
}

/// Decoding a shadowsocks URI with a literal `method:password` userinfo
/// recovers the tag, server, port, method and password.
pub proof fn lemma_shadowsocks_round_trip(
    method: Seq<char>,
    password: Seq<char>,
    host: Seq<char>,
    port: u16,
    frag: Seq<char>,
)
    requires
        plain_part(method),
        method.len() > 0,
        plain_part(password),
        plain_part(host),
        host.len() > 0,
        host[0] != '[',
        plain_part(frag),
    ensures
        ({
            let ui = method + ":"@ + password;
            let s = spec_netloc_uri("ss"@, ui, host, port, frag);
            let tag = if frag.len() > 0 {
                frag
            } else {
                "ss_"@ + host
            };
            crate::parsers::shadowsocks::spec_shadowsocks(s) == Ok::<JsonV, ErrKind>(
                JsonV::Obj(
                    seq![
                        ("tag"@, JsonV::Str(tag)),
                        ("type"@, JsonV::Str("shadowsocks"@)),
                        ("server"@, JsonV::Str(host)),
                        ("server_port"@, JsonV::Num(spec_dec_of(port as int))),
                        ("method"@, JsonV::Str(method)),
                        ("password"@, JsonV::Str(password)),
                    ],
                ),
            )
        }),
{
    reveal_strlit("ss");
    reveal_strlit(":");
    assert(":"@ =~= seq![':']);
    assert(plain_part("ss"@)) by {
        assert("ss"@ =~= seq!['s', 's']);
    }
    let ui = method + ":"@ + password;
    assert(forall|k: int|
        0 <= k < ui.len() ==> ui[k] != '#' && ui[k] != '?' && ui[k] != '/' && ui[k] != '@');
    lemma_split_uri_round_trip("ss"@, ui, host, port, frag);
    lemma_query_pairs_empty();
    lemma_pct_decode_plain(frag);
    assert(ui[method.len() as int] == ':');
    assert(forall|k: int| 0 <= k < method.len() ==> ui[k] == method[k] && ui[k] != ':');
    lemma_find_exact(ui, ':', method.len() as int);
    assert(ui.subrange(0, method.len() as int) =~= method);
    assert(ui.subrange(method.len() as int + 1, ui.len() as int) =~= password);
    let s = spec_netloc_uri("ss"@, ui, host, port, frag);
    let r = crate::parsers::shadowsocks::spec_shadowsocks(s);
    assert(crate::parsers::shadowsocks::spec_ss_userinfo(ui) == Ok::<_, ErrKind>(
        (method, password),
    ));
    assert(crate::parsers::shadowsocks::spec_ss_plugin(Seq::<(Seq<char>, Seq<char>)>::empty())
        =~= Seq::<(Seq<char>, JsonV)>::empty());
    assert(r is Ok);
    assert(r->Ok_0->Obj_0 =~= ({
        let tag = if frag.len() > 0 {
            frag
        } else {
            "ss_"@ + host
        };
        seq![
            ("tag"@, JsonV::Str(tag)),
            ("type"@, JsonV::Str("shadowsocks"@)),
            ("server"@, JsonV::Str(host)),
            ("server_port"@, JsonV::Num(spec_dec_of(port as int))),
            ("method"@, JsonV::Str(method)),
            ("password"@, JsonV::Str(password)),
        ]
    }));
}

} // verus!
