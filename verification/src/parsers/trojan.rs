//! The trojan URI decoder: `trojan://password@host:port?…#tag`. TLS is always
//! emitted; `alpn` values lose any surrounding braces and split at commas.

use vstd::prelude::*;

use crate::error::{AppError, ErrKind, kind_of};
use crate::json::{Json, JsonV, jv, jv_entries, lemma_jv_objv, mk_str, mk_str_chars, mk_num_u64};
use crate::parsers::{
    spec_ws_ed, ws_ed, spec_q_or_empty, q_or_empty, q_is, spec_tag_of, tag_of, spec_username,
    username_of, spec_trim_braces, trim_braces, spec_comma_arr, comma_arr,
};
use crate::text::to_chars;
use crate::uri::{
    spec_split_uri, split_uri, spec_query_pairs, query_pairs, spec_query_get, query_get, qpv,
};

verus! {

/// The TLS block of a trojan node; always present.
pub open spec fn spec_trojan_tls(q: Seq<(Seq<char>, Seq<char>)>) -> JsonV {
    let base = seq![
        ("enabled"@, JsonV::Bool(true)),
        ("insecure"@, JsonV::Bool(spec_query_get(q, "allowInsecure"@) == Some("1"@))),
    ];
    let with_alpn = match spec_query_get(q, "alpn"@) {
        Some(a) => base + seq![("alpn"@, spec_comma_arr(spec_trim_braces(a)))],
        None => base,
    };
    let with_sni = match spec_query_get(q, "sni"@) {
        Some(sn) => with_alpn + seq![("server_name"@, JsonV::Str(sn))],
        None => with_alpn,
    };
    match spec_query_get(q, "fp"@) {
        Some(fp) => JsonV::Obj(
            with_sni + seq![
                (
                    "utls"@,
                    JsonV::Obj(
                        seq![("enabled"@, JsonV::Bool(true)), ("fingerprint"@, JsonV::Str(fp))],
                    ),
                ),
            ],
        ),
        None => JsonV::Obj(with_sni),
    }
}

/// The transport block of a trojan node, when the query names a known kind.
pub open spec fn spec_trojan_transport(
    q: Seq<(Seq<char>, Seq<char>)>,
    server: Seq<char>,
) -> Option<JsonV> {
    match spec_query_get(q, "type"@) {
        None => None,
        Some(t) => {
            if t == "ws"@ {
                let path = match spec_query_get(q, "path"@) {
                    Some(p) => p,
                    None => "/"@,
                };
                let ed = spec_ws_ed(path);
                let base = seq![("type"@, JsonV::Str("ws"@)), ("path"@, JsonV::Str(ed.0))];
                let with_h = match spec_query_get(q, "host"@) {
                    Some(h) => base + seq![
                        ("headers"@, JsonV::Obj(seq![("Host"@, JsonV::Str(h))])),
                    ],
                    None => base,
                };
                match ed.1 {
                    Some(n) => Some(
                        JsonV::Obj(
                            with_h + seq![
                                ("early_data_header_name"@, JsonV::Str("Sec-WebSocket-Protocol"@)),
                                ("max_early_data"@, JsonV::Num(crate::text::spec_dec_of(n as int))),
                            ],
                        ),
                    ),
                    None => Some(JsonV::Obj(with_h)),
                }
            } else if t == "h2"@ {
                Some(
                    JsonV::Obj(
                        seq![
                            ("type"@, JsonV::Str("http"@)),
                            (
                                "host"@,
                                JsonV::Str(
                                    match spec_query_get(q, "host"@) {
                                        Some(h) => h,
                                        None => server,
                                    },
                                ),
                            ),
                            (
                                "path"@,
                                JsonV::Str(
                                    match spec_query_get(q, "path"@) {
                                        Some(p) => p,
                                        None => "/"@,
                                    },
                                ),
                            ),
                        ],
                    ),
                )
            } else if t == "grpc"@ {
                Some(
                    JsonV::Obj(
                        seq![
                            ("type"@, JsonV::Str("grpc"@)),
                            ("service_name"@, JsonV::Str(spec_q_or_empty(q, "serviceName"@))),
                        ],
                    ),
                )
            } else {
                None
            }
        },
    }
}

/// What a trojan URI decodes to.
pub open spec fn spec_trojan(s: Seq<char>) -> Result<JsonV, ErrKind> {
    match spec_split_uri(s) {
        None => Err(ErrKind::UrlParse),
        Some(u) => {
            match u.port {
                None => Err(ErrKind::Missing("port"@)),
                Some(port) => {
                    let q = spec_query_pairs(u.query);
                    match spec_tag_of(u.fragment, "trojan_"@, u.host) {
                        Err(e) => Err(e),
                        Ok(tag) => {
                            let base = seq![
                                ("tag"@, JsonV::Str(tag)),
                                ("type"@, JsonV::Str("trojan"@)),
                                ("server"@, JsonV::Str(u.host)),
                                ("server_port"@, JsonV::Num(crate::text::spec_dec_of(port as int))),
                                ("password"@, JsonV::Str(spec_username(u.userinfo))),
                                ("tls"@, spec_trojan_tls(q)),
                            ];
                            let all = match spec_trojan_transport(q, u.host) {
                                Some(t) => base + seq![("transport"@, t)],
                                None => base,
                            };
                            Ok(JsonV::Obj(all))
                        },
                    }
                },
            }
        },
    }
}

fn build_tls(q: &Vec<(Vec<char>, Vec<char>)>) -> (r: Json)
    ensures
        jv(r) == spec_trojan_tls(qpv(q@)),
{
    let mut tls: Vec<(String, Json)> = Vec::new();
    tls.push(("enabled".to_owned(), Json::Bool(true)));
    tls.push(("insecure".to_owned(), Json::Bool(q_is(q, "allowInsecure", "1"))));
    match query_get(q, "alpn") {
        Some(a) => {
            let stripped = trim_braces(&a);
            tls.push(("alpn".to_owned(), comma_arr(&stripped)));
        },
        None => {},
    }
    match query_get(q, "sni") {
        Some(sn) => {
            tls.push(("server_name".to_owned(), mk_str_chars(&sn)));
        },
        None => {},
    }
    match query_get(q, "fp") {
        Some(fp) => {
            let mut utls: Vec<(String, Json)> = Vec::new();
            utls.push(("enabled".to_owned(), Json::Bool(true)));
            utls.push(("fingerprint".to_owned(), mk_str_chars(&fp)));
            proof {
                lemma_jv_objv(utls);
            }
            let utls_j = Json::Obj(utls);
            tls.push(("utls".to_owned(), utls_j));
            proof {
                lemma_jv_objv(tls);
                let spec_side = spec_trojan_tls(qpv(q@))->Obj_0;
                assert(jv(tls@[tls@.len() - 1].1)->Obj_0 =~= spec_side[spec_side.len() - 1].1->Obj_0);
                assert(jv_entries(tls@) =~= spec_side);
            }
        },
        None => {
            proof {
                lemma_jv_objv(tls);
                assert(jv_entries(tls@) =~= spec_trojan_tls(qpv(q@))->Obj_0);
            }
        },
    }
    Json::Obj(tls)
}

fn build_transport(q: &Vec<(Vec<char>, Vec<char>)>, server: &Vec<char>) -> (r: Option<Json>)
    ensures
        match r {
            Some(t) => spec_trojan_transport(qpv(q@), server@) == Some(jv(t)),
            None => spec_trojan_transport(qpv(q@), server@) is None,
        },
{
    let t = match query_get(q, "type") {
        Some(t) => t,
        None => {
            return None;
        },
    };
    if crate::text::eq_str(&t, "ws") {
        let path = match query_get(q, "path") {
            Some(p) => p,
            None => to_chars("/"),
        };
        let (clean, ed) = ws_ed(&path);
        let mut tr: Vec<(String, Json)> = Vec::new();
        tr.push(("type".to_owned(), mk_str("ws")));
        tr.push(("path".to_owned(), mk_str_chars(&clean)));
        let mut host_idx: usize = 0;
        match query_get(q, "host") {
            Some(h) => {
                let mut headers: Vec<(String, Json)> = Vec::new();
                headers.push(("Host".to_owned(), mk_str_chars(&h)));
                proof {
                    lemma_jv_objv(headers);
                }
                let headers_j = Json::Obj(headers);
                tr.push(("headers".to_owned(), headers_j));
                host_idx = 1;
            },
            None => {},
        }
        match ed {
            Some(n) => {
                tr.push(
                    ("early_data_header_name".to_owned(), mk_str("Sec-WebSocket-Protocol")),
                );
                tr.push(("max_early_data".to_owned(), mk_num_u64(n as u64)));
            },
            None => {},
        }
        proof {
            lemma_jv_objv(tr);
            let spec_side = spec_trojan_transport(qpv(q@), server@)->Some_0->Obj_0;
            if host_idx == 1 {
                assert(jv(tr@[2].1)->Obj_0 =~= spec_side[2].1->Obj_0);
            }
            assert(jv_entries(tr@) =~= spec_side);
        }
        Some(Json::Obj(tr))
    } else if crate::text::eq_str(&t, "h2") {
        let mut tr: Vec<(String, Json)> = Vec::new();
        tr.push(("type".to_owned(), mk_str("http")));
        let hv = match query_get(q, "host") {
            Some(h) => mk_str_chars(&h),
            None => mk_str_chars(server),
        };
        tr.push(("host".to_owned(), hv));
        let pv = match query_get(q, "path") {
            Some(p) => mk_str_chars(&p),
            None => mk_str("/"),
        };
        tr.push(("path".to_owned(), pv));
        proof {
            lemma_jv_objv(tr);
            assert(jv_entries(tr@) =~= spec_trojan_transport(qpv(q@), server@)->Some_0->Obj_0);
        }
        Some(Json::Obj(tr))
    } else if crate::text::eq_str(&t, "grpc") {
        let mut tr: Vec<(String, Json)> = Vec::new();
        tr.push(("type".to_owned(), mk_str("grpc")));
        let svc = q_or_empty(q, "serviceName");
        tr.push(("service_name".to_owned(), mk_str_chars(&svc)));
        proof {
            lemma_jv_objv(tr);
            assert(jv_entries(tr@) =~= spec_trojan_transport(qpv(q@), server@)->Some_0->Obj_0);
        }
        Some(Json::Obj(tr))
    } else {
        None
    }
}

/// Decodes one trojan URI into a canonical node.
pub fn parse(data: &str) -> (r: Result<Json, AppError>)
    ensures
        match r {
            Ok(n) => spec_trojan(data@) == Ok::<_, ErrKind>(jv(n)),
            Err(e) => spec_trojan(data@) == Err::<JsonV, _>(kind_of(e)),
        },
{
    let chars = to_chars(data);
    let u = match split_uri(&chars) {
        Some(u) => u,
        None => {
            return Err(AppError::UrlParse);
        },
    };
    let port = match u.port {
        Some(p) => p,
        None => {
            return Err(AppError::MissingField("port"));
        },
    };
    let q = query_pairs(&u.query);
    let tag = match tag_of(&u.fragment, "trojan_", &u.host) {
        Ok(t) => t,
        Err(e) => {
            return Err(e);
        },
    };
    let mut entries: Vec<(String, Json)> = Vec::new();
    entries.push(("tag".to_owned(), mk_str_chars(&tag)));
    entries.push(("type".to_owned(), mk_str("trojan")));
    entries.push(("server".to_owned(), mk_str_chars(&u.host)));
    entries.push(("server_port".to_owned(), mk_num_u64(port as u64)));
    let pw = username_of(&u.userinfo);
    entries.push(("password".to_owned(), mk_str_chars(&pw)));
    let tls = build_tls(&q);
    entries.push(("tls".to_owned(), tls));
    match build_transport(&q, &u.host) {
        Some(t) => entries.push(("transport".to_owned(), t)),
        None => {},
    }
    proof {
        lemma_jv_objv(entries);
        assert(jv_entries(entries@) =~= spec_trojan(chars@)->Ok_0->Obj_0);
    }
    Ok(Json::Obj(entries))
}

} // verus!
