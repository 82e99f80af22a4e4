//! The vless URI decoder: `vless://uuid@host:port?…#tag`, with optional TLS,
//! REALITY and transport blocks read from the query.

use vstd::prelude::*;

use crate::error::{AppError, ErrKind, kind_of};
use crate::json::{Json, JsonV, jv, jv_entries, lemma_jv_objv, mk_str, mk_str_chars, mk_num_u64};
use crate::parsers::{
    spec_ws_ed, ws_ed, spec_q_or_empty, q_or_empty, q_is, spec_tag_of, tag_of, spec_username,
    username_of,
};
use crate::text::{to_chars, spec_lower, eq_lower_str};
use crate::uri::{
    spec_split_uri, split_uri, spec_query_pairs, query_pairs, spec_query_get, query_get, qpv,
    query_has,
};

verus! {

/// The TLS block of a vless node, when the query asks for one.
pub open spec fn spec_vless_tls(q: Seq<(Seq<char>, Seq<char>)>) -> Option<JsonV> {
    let sec = spec_q_or_empty(q, "security"@);
    if !(sec == Seq::<char>::empty() || sec == "none"@ || sec == "None"@) || spec_query_get(
        q,
        "tls"@,
    ) == Some("1"@) {
        let base = seq![
            ("enabled"@, JsonV::Bool(true)),
            ("insecure"@, JsonV::Bool(spec_query_get(q, "allowInsecure"@) == Some("1"@))),
            (
                "server_name"@,
                JsonV::Str(
                    match spec_query_get(q, "sni"@) {
                        Some(v) => v,
                        None => spec_q_or_empty(q, "peer"@),
                    },
                ),
            ),
        ];
        if sec == "reality"@ || spec_query_get(q, "pbk"@) is Some {
            let reality_base = seq![
                ("enabled"@, JsonV::Bool(true)),
                ("public_key"@, JsonV::Str(spec_q_or_empty(q, "pbk"@))),
            ];
            let reality = match spec_query_get(q, "sid"@) {
                Some(sid) => {
                    if sid.len() > 0 && spec_lower(sid) != "none"@ {
                        reality_base + seq![("short_id"@, JsonV::Str(sid))]
                    } else {
                        reality_base
                    }
                },
                None => reality_base,
            };
            let utls = seq![
                ("enabled"@, JsonV::Bool(true)),
                (
                    "fingerprint"@,
                    JsonV::Str(
                        match spec_query_get(q, "fp"@) {
                            Some(f) => f,
                            None => "chrome"@,
                        },
                    ),
                ),
            ];
            Some(
                JsonV::Obj(
                    base + seq![("reality"@, JsonV::Obj(reality)), ("utls"@, JsonV::Obj(utls))],
                ),
            )
        } else {
            match spec_query_get(q, "fp"@) {
                Some(fp) => {
                    let utls = seq![
                        ("enabled"@, JsonV::Bool(true)),
                        ("fingerprint"@, JsonV::Str(fp)),
                    ];
                    Some(JsonV::Obj(base + seq![("utls"@, JsonV::Obj(utls))]))
                },
                None => Some(JsonV::Obj(base)),
            }
        }
    } else {
        None
    }
}

/// The transport block of a vless node, when the query names a known kind.
pub open spec fn spec_vless_transport(q: Seq<(Seq<char>, Seq<char>)>) -> Option<JsonV> {
    match spec_query_get(q, "type"@) {
        None => None,
        Some(t) => {
            if t == "ws"@ {
                let path = match spec_query_get(q, "path"@) {
                    Some(p) => p,
                    None => "/"@,
                };
                let ed = spec_ws_ed(path);
                let hh0 = match spec_query_get(q, "host"@) {
                    Some(h) => Some(h),
                    None => spec_query_get(q, "sni"@),
                };
                let hosth = match hh0 {
                    Some(h) => if h == "None"@ {
                        Seq::<char>::empty()
                    } else {
                        h
                    },
                    None => Seq::<char>::empty(),
                };
                let base = seq![
                    ("type"@, JsonV::Str("ws"@)),
                    ("path"@, JsonV::Str(ed.0)),
                    ("headers"@, JsonV::Obj(seq![("Host"@, JsonV::Str(hosth))])),
                ];
                match ed.1 {
                    Some(n) => Some(
                        JsonV::Obj(
                            base + seq![
                                ("early_data_header_name"@, JsonV::Str("Sec-WebSocket-Protocol"@)),
                                ("max_early_data"@, JsonV::Num(crate::text::spec_dec_of(n as int))),
                            ],
                        ),
                    ),
                    None => Some(JsonV::Obj(base)),
                }
            } else if t == "grpc"@ {
                Some(
                    JsonV::Obj(
                        seq![
                            ("type"@, JsonV::Str("grpc"@)),
                            ("service_name"@, JsonV::Str(spec_q_or_empty(q, "serviceName"@))),
                        ],
                    ),
                )
            } else if t == "http"@ {
                Some(JsonV::Obj(seq![("type"@, JsonV::Str("http"@))]))
            } else {
                None
            }
        },
    }
}

/// What a vless URI decodes to: the canonical node, or the failure that the
/// text forces.
pub open spec fn spec_vless(s: Seq<char>) -> Result<JsonV, ErrKind> {
    match spec_split_uri(s) {
        None => Err(ErrKind::UrlParse),
        Some(u) => {
            match u.port {
                None => Err(ErrKind::Missing("port"@)),
                Some(port) => {
                    let q = spec_query_pairs(u.query);
                    match spec_tag_of(u.fragment, "vless_"@, u.host) {
                        Err(e) => Err(e),
                        Ok(tag) => {
                            let base = seq![
                                ("tag"@, JsonV::Str(tag)),
                                ("type"@, JsonV::Str("vless"@)),
                                ("server"@, JsonV::Str(u.host)),
                                ("server_port"@, JsonV::Num(crate::text::spec_dec_of(port as int))),
                                ("uuid"@, JsonV::Str(spec_username(u.userinfo))),
                                (
                                    "packet_encoding"@,
                                    JsonV::Str(
                                        match spec_query_get(q, "packetEncoding"@) {
                                            Some(p) => p,
                                            None => "xudp"@,
                                        },
                                    ),
                                ),
                            ];
                            let withflow = if spec_query_get(q, "flow"@) is Some {
                                base + seq![("flow"@, JsonV::Str("xtls-rprx-vision"@))]
                            } else {
                                base
                            };
                            let withtls = match spec_vless_tls(q) {
                                Some(t) => withflow + seq![("tls"@, t)],
                                None => withflow,
                            };
                            let all = match spec_vless_transport(q) {
                                Some(t) => withtls + seq![("transport"@, t)],
                                None => withtls,
                            };
                            Ok(JsonV::Obj(all))
                        },
                    }
                },
            }
        },
    }
}

fn build_tls(q: &Vec<(Vec<char>, Vec<char>)>) -> (r: Option<Json>)
    ensures
        match r {
            Some(t) => spec_vless_tls(qpv(q@)) == Some(jv(t)),
            None => spec_vless_tls(qpv(q@)) is None,
        },
{
    let sec = q_or_empty(q, "security");
    assert(sec@.len() == 0 ==> sec@ =~= Seq::<char>::empty());
    let on = !(sec.len() == 0 || crate::text::eq_str(&sec, "none") || crate::text::eq_str(
        &sec,
        "None",
    )) || q_is(q, "tls", "1");
    if !on {
        return None;
    }
    let mut tls: Vec<(String, Json)> = Vec::new();
    tls.push(("enabled".to_owned(), Json::Bool(true)));
    tls.push(("insecure".to_owned(), Json::Bool(q_is(q, "allowInsecure", "1"))));
    let sn = match query_get(q, "sni") {
        Some(v) => v,
        None => q_or_empty(q, "peer"),
    };
    tls.push(("server_name".to_owned(), mk_str_chars(&sn)));
    if crate::text::eq_str(&sec, "reality") || query_has(q, "pbk") {
        let mut reality: Vec<(String, Json)> = Vec::new();
        reality.push(("enabled".to_owned(), Json::Bool(true)));
        let pbk = q_or_empty(q, "pbk");
        reality.push(("public_key".to_owned(), mk_str_chars(&pbk)));
        match query_get(q, "sid") {
            Some(sid) => {
                if sid.len() > 0 && !eq_lower_str(&sid, "none") {
                    reality.push(("short_id".to_owned(), mk_str_chars(&sid)));
                }
            },
            None => {},
        }
        let mut utls: Vec<(String, Json)> = Vec::new();
        utls.push(("enabled".to_owned(), Json::Bool(true)));
        let fp = match query_get(q, "fp") {
            Some(f) => mk_str_chars(&f),
            None => mk_str("chrome"),
        };
        utls.push(("fingerprint".to_owned(), fp));
        proof {
            lemma_jv_objv(reality);
            lemma_jv_objv(utls);
        }
        let reality_j = Json::Obj(reality);
        let utls_j = Json::Obj(utls);
        tls.push(("reality".to_owned(), reality_j));
        tls.push(("utls".to_owned(), utls_j));
        proof {
            lemma_jv_objv(tls);
            let spec_side = spec_vless_tls(qpv(q@))->Some_0->Obj_0;
            assert(jv(tls@[3].1)->Obj_0 =~= spec_side[3].1->Obj_0);
            assert(jv(tls@[4].1)->Obj_0 =~= spec_side[4].1->Obj_0);
            assert(jv_entries(tls@) =~= spec_side);
        }
        Some(Json::Obj(tls))
    } else {
        match query_get(q, "fp") {
            Some(fp) => {
                let mut utls: Vec<(String, Json)> = Vec::new();
                utls.push(("enabled".to_owned(), Json::Bool(true)));
                utls.push(("fingerprint".to_owned(), mk_str_chars(&fp)));
                proof {
                    lemma_jv_objv(utls);
                }
                let utls_j = Json::Obj(utls);
                tls.push(("utls".to_owned(), utls_j));
                proof {
                    lemma_jv_objv(tls);
                    let spec_side = spec_vless_tls(qpv(q@))->Some_0->Obj_0;
                    assert(jv(tls@[3].1)->Obj_0 =~= spec_side[3].1->Obj_0);
                    assert(jv_entries(tls@) =~= spec_side);
                }
                Some(Json::Obj(tls))
            },
            None => {
                proof {
                    lemma_jv_objv(tls);
                    assert(jv_entries(tls@) =~= spec_vless_tls(qpv(q@))->Some_0->Obj_0);
                }
                Some(Json::Obj(tls))
            },
        }
    }
}

fn build_transport(q: &Vec<(Vec<char>, Vec<char>)>) -> (r: Option<Json>)
    ensures
        match r {
            Some(t) => spec_vless_transport(qpv(q@)) == Some(jv(t)),
            None => spec_vless_transport(qpv(q@)) is None,
        },
{
    let t = match query_get(q, "type") {
        Some(t) => t,
        None => {
            return None;
        },
    };
    if crate::text::eq_str(&t, "ws") {
        let path = match query_get(q, "path") {
            Some(p) => p,
            None => to_chars("/"),
        };
        let (clean, ed) = ws_ed(&path);
        let hh0 = match query_get(q, "host") {
            Some(h) => Some(h),
            None => query_get(q, "sni"),
        };
        let hosth = match hh0 {
            Some(h) => {
                if crate::text::eq_str(&h, "None") {
                    Vec::<char>::new()
                } else {
                    h
                }
            },
            None => Vec::<char>::new(),
        };
        let mut headers: Vec<(String, Json)> = Vec::new();
        headers.push(("Host".to_owned(), mk_str_chars(&hosth)));
        proof {
            lemma_jv_objv(headers);
        }
        let headers_j = Json::Obj(headers);
        let mut tr: Vec<(String, Json)> = Vec::new();
        tr.push(("type".to_owned(), mk_str("ws")));
        tr.push(("path".to_owned(), mk_str_chars(&clean)));
        tr.push(("headers".to_owned(), headers_j));
        match ed {
            Some(n) => {
                tr.push(
                    ("early_data_header_name".to_owned(), mk_str("Sec-WebSocket-Protocol")),
                );
                tr.push(("max_early_data".to_owned(), mk_num_u64(n as u64)));
            },
            None => {},
        }
        proof {
            lemma_jv_objv(tr);
            let spec_side = spec_vless_transport(qpv(q@))->Some_0->Obj_0;
            assert(jv(tr@[2].1)->Obj_0 =~= spec_side[2].1->Obj_0);
            assert(jv_entries(tr@) =~= spec_side);
        }
        Some(Json::Obj(tr))
    } else if crate::text::eq_str(&t, "grpc") {
        let mut tr: Vec<(String, Json)> = Vec::new();
        tr.push(("type".to_owned(), mk_str("grpc")));
        let svc = q_or_empty(q, "serviceName");
        tr.push(("service_name".to_owned(), mk_str_chars(&svc)));
        proof {
            lemma_jv_objv(tr);
            assert(jv_entries(tr@) =~= spec_vless_transport(qpv(q@))->Some_0->Obj_0);
        }
        Some(Json::Obj(tr))
    } else if crate::text::eq_str(&t, "http") {
        let mut tr: Vec<(String, Json)> = Vec::new();
        tr.push(("type".to_owned(), mk_str("http")));
        proof {
            lemma_jv_objv(tr);
            assert(jv_entries(tr@) =~= spec_vless_transport(qpv(q@))->Some_0->Obj_0);
        }
        Some(Json::Obj(tr))
    } else {
        None
    }
}

/// Decodes one vless URI into a canonical node.
pub fn parse(data: &str) -> (r: Result<Json, AppError>)
    ensures
        match r {
            Ok(n) => spec_vless(data@) == Ok::<_, ErrKind>(jv(n)),
            Err(e) => spec_vless(data@) == Err::<JsonV, _>(kind_of(e)),
        },
{
    let chars = to_chars(data);
    let u = match split_uri(&chars) {
        Some(u) => u,
        None => {
            return Err(AppError::UrlParse);
        },
    };
    let port = match u.port {
        Some(p) => p,
        None => {
            return Err(AppError::MissingField("port"));
        },
    };
    let q = query_pairs(&u.query);
    let tag = match tag_of(&u.fragment, "vless_", &u.host) {
        Ok(t) => t,
        Err(e) => {
            return Err(e);
        },
    };
    let mut entries: Vec<(String, Json)> = Vec::new();
    entries.push(("tag".to_owned(), mk_str_chars(&tag)));
    entries.push(("type".to_owned(), mk_str("vless")));
    entries.push(("server".to_owned(), mk_str_chars(&u.host)));
    entries.push(("server_port".to_owned(), mk_num_u64(port as u64)));
    let uuid = username_of(&u.userinfo);
    entries.push(("uuid".to_owned(), mk_str_chars(&uuid)));
    let pe = match query_get(&q, "packetEncoding") {
        Some(p) => mk_str_chars(&p),
        None => mk_str("xudp"),
    };
    entries.push(("packet_encoding".to_owned(), pe));
    if query_has(&q, "flow") {
        entries.push(("flow".to_owned(), mk_str("xtls-rprx-vision")));
    }
    match build_tls(&q) {
        Some(t) => entries.push(("tls".to_owned(), t)),
        None => {},
    }
    match build_transport(&q) {
        Some(t) => entries.push(("transport".to_owned(), t)),
        None => {},
    }
    proof {
        lemma_jv_objv(entries);
        assert(jv_entries(entries@) =~= spec_vless(chars@)->Ok_0->Obj_0);
    }
    Ok(Json::Obj(entries))
}

} // verus!
