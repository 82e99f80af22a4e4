//! The hysteria2 URI decoder: `hysteria2://password@host:port?…#tag`, with
//! TLS on by default, optional obfuscation, and up/down rates.

use vstd::prelude::*;

use crate::error::{AppError, ErrKind, kind_of};
use crate::json::{Json, JsonV, jv, jv_entries, lemma_jv_objv, mk_str_chars, mk_num_u64};
use crate::parsers::{
    q_is, spec_tag_of, tag_of, spec_username, username_of, spec_comma_arr, comma_arr,
};
use crate::text::to_chars;
use crate::uri::{
    spec_split_uri, split_uri, spec_query_pairs, query_pairs, spec_query_get, query_get, qpv,
};

verus! {

/// The TLS block of a hysteria2 node: present unless `security` names
/// something other than `tls`.
pub open spec fn spec_hy2_tls(q: Seq<(Seq<char>, Seq<char>)>) -> Option<JsonV> {
    let sec = spec_query_get(q, "security"@);
    if sec == Some("tls"@) || sec is None {
        let base = seq![
            ("enabled"@, JsonV::Bool(true)),
            (
                "insecure"@,
                JsonV::Bool(
                    spec_query_get(q, "insecure"@) == Some("1"@) || spec_query_get(
                        q,
                        "allowInsecure"@,
                    ) == Some("1"@),
                ),
            ),
        ];
        let with_sni = match spec_query_get(q, "sni"@) {
            Some(sn) => if sn.len() > 0 {
                base + seq![("server_name"@, JsonV::Str(sn))]
            } else {
                base
            },
            None => base,
        };
        match spec_query_get(q, "alpn"@) {
            Some(a) => Some(JsonV::Obj(with_sni + seq![("alpn"@, spec_comma_arr(a))])),
            None => Some(JsonV::Obj(with_sni)),
        }
    } else {
        None
    }
}

/// The obfuscation block of a hysteria2 node, when the query asks for one.
pub open spec fn spec_hy2_obfs(q: Seq<(Seq<char>, Seq<char>)>) -> Option<JsonV> {
    match spec_query_get(q, "obfs"@) {
        None => None,
        Some(o) => {
            if o.len() > 0 && o != "none"@ {
                let base = seq![("type"@, JsonV::Str(o))];
                let pw = match spec_query_get(q, "obfs-password"@) {
                    Some(p) => Some(p),
                    None => spec_query_get(q, "obfsPassword"@),
                };
                match pw {
                    Some(p) => Some(JsonV::Obj(base + seq![("password"@, JsonV::Str(p))])),
                    None => Some(JsonV::Obj(base)),
                }
            } else {
                None
            }
        },
    }
}

/// The up or down rate, when the query value parses as a 64-bit number.
pub open spec fn spec_hy2_rate(q: Seq<(Seq<char>, Seq<char>)>, key: Seq<char>) -> Option<u64> {
    match spec_query_get(q, key) {
        None => None,
        Some(v) => {
            match crate::text::spec_parse_uint(v, 0xFFFFFFFFFFFFFFFF) {
                Some(n) => Some(n as u64),
                None => None,
            }
        },
    }
}

/// What a hysteria2 URI decodes to.
pub open spec fn spec_hysteria2(s: Seq<char>) -> Result<JsonV, ErrKind> {
    match spec_split_uri(s) {
        None => Err(ErrKind::UrlParse),
        Some(u) => {
            match u.port {
                None => Err(ErrKind::Missing("port"@)),
                Some(port) => {
                    let q = spec_query_pairs(u.query);
                    match spec_tag_of(u.fragment, "hysteria2_"@, u.host) {
                        Err(e) => Err(e),
                        Ok(tag) => {
                            let base = seq![
                                ("tag"@, JsonV::Str(tag)),
                                ("type"@, JsonV::Str("hysteria2"@)),
                                ("server"@, JsonV::Str(u.host)),
                                ("server_port"@, JsonV::Num(crate::text::spec_dec_of(port as int))),
                                ("password"@, JsonV::Str(spec_username(u.userinfo))),
                            ];
                            let with_tls = match spec_hy2_tls(q) {
                                Some(t) => base + seq![("tls"@, t)],
                                None => base,
                            };
                            let with_obfs = match spec_hy2_obfs(q) {
                                Some(o) => with_tls + seq![("obfs"@, o)],
                                None => with_tls,
                            };
                            let with_up = match spec_hy2_rate(q, "up"@) {
                                Some(n) => with_obfs + seq![
                                    ("up_mbps"@, JsonV::Num(crate::text::spec_dec_of(n as int))),
                                ],
                                None => with_obfs,
                            };
                            let all = match spec_hy2_rate(q, "down"@) {
                                Some(n) => with_up + seq![
                                    ("down_mbps"@, JsonV::Num(crate::text::spec_dec_of(n as int))),
                                ],
                                None => with_up,
                            };
                            Ok(JsonV::Obj(all))
                        },
                    }
                },
            }
        },
    }
}

fn build_tls(q: &Vec<(Vec<char>, Vec<char>)>) -> (r: Option<Json>)
    ensures
        match r {
            Some(t) => spec_hy2_tls(qpv(q@)) == Some(jv(t)),
            None => spec_hy2_tls(qpv(q@)) is None,
        },
{
    let on = match query_get(q, "security") {
        Some(s) => crate::text::eq_str(&s, "tls"),
        None => true,
    };
    if !on {
        return None;
    }
    let mut tls: Vec<(String, Json)> = Vec::new();
    tls.push(("enabled".to_owned(), Json::Bool(true)));
    let insecure = q_is(q, "insecure", "1") || q_is(q, "allowInsecure", "1");
    tls.push(("insecure".to_owned(), Json::Bool(insecure)));
    match query_get(q, "sni") {
        Some(sn) => {
            if sn.len() > 0 {
                tls.push(("server_name".to_owned(), mk_str_chars(&sn)));
            }
        },
        None => {},
    }
    match query_get(q, "alpn") {
        Some(a) => {
            tls.push(("alpn".to_owned(), comma_arr(&a)));
        },
        None => {},
    }
    proof {
        lemma_jv_objv(tls);
        assert(jv_entries(tls@) =~= spec_hy2_tls(qpv(q@))->Some_0->Obj_0);
    }
    Some(Json::Obj(tls))
}

fn build_obfs(q: &Vec<(Vec<char>, Vec<char>)>) -> (r: Option<Json>)
    ensures
        match r {
            Some(t) => spec_hy2_obfs(qpv(q@)) == Some(jv(t)),
            None => spec_hy2_obfs(qpv(q@)) is None,
        },
{
    let o = match query_get(q, "obfs") {
        Some(o) => o,
        None => {
            return None;
        },
    };
    if !(o.len() > 0 && !crate::text::eq_str(&o, "none")) {
        return None;
    }
    let mut ob: Vec<(String, Json)> = Vec::new();
    ob.push(("type".to_owned(), mk_str_chars(&o)));
    let pw = match query_get(q, "obfs-password") {
        Some(p) => Some(p),
        None => query_get(q, "obfsPassword"),
    };
    match pw {
        Some(p) => {
            ob.push(("password".to_owned(), mk_str_chars(&p)));
        },
        None => {},
    }
    proof {
        lemma_jv_objv(ob);
        assert(jv_entries(ob@) =~= spec_hy2_obfs(qpv(q@))->Some_0->Obj_0);
    }
    Some(Json::Obj(ob))
}

fn rate_of(q: &Vec<(Vec<char>, Vec<char>)>, key: &str) -> (r: Option<u64>)
    ensures
        r == spec_hy2_rate(qpv(q@), key@),
{
    match query_get(q, key) {
        None => None,
        Some(v) => {
            match crate::text::parse_uint(&v, 0xFFFFFFFFFFFFFFFF) {
                Some(n) => Some(n),
                None => None,
            }
        },
    }
}

/// Decodes one hysteria2 URI into a canonical node.
pub fn parse(data: &str) -> (r: Result<Json, AppError>)
    ensures
        match r {
            Ok(n) => spec_hysteria2(data@) == Ok::<_, ErrKind>(jv(n)),
            Err(e) => spec_hysteria2(data@) == Err::<JsonV, _>(kind_of(e)),
        },
{
    let chars = to_chars(data);
    let u = match split_uri(&chars) {
        Some(u) => u,
        None => {
            return Err(AppError::UrlParse);
        },
    };
    let port = match u.port {
        Some(p) => p,
        None => {
            return Err(AppError::MissingField("port"));
        },
    };
    let q = query_pairs(&u.query);
    let tag = match tag_of(&u.fragment, "hysteria2_", &u.host) {
        Ok(t) => t,
        Err(e) => {
            return Err(e);
        },
    };
    let mut entries: Vec<(String, Json)> = Vec::new();
    entries.push(("tag".to_owned(), mk_str_chars(&tag)));
    entries.push(("type".to_owned(), crate::json::mk_str("hysteria2")));
    entries.push(("server".to_owned(), mk_str_chars(&u.host)));
    entries.push(("server_port".to_owned(), mk_num_u64(port as u64)));
    let pw = username_of(&u.userinfo);
    entries.push(("password".to_owned(), mk_str_chars(&pw)));
    match build_tls(&q) {
        Some(t) => entries.push(("tls".to_owned(), t)),
        None => {},
    }
    match build_obfs(&q) {
        Some(o) => entries.push(("obfs".to_owned(), o)),
        None => {},
    }
    match rate_of(&q, "up") {
        Some(n) => entries.push(("up_mbps".to_owned(), mk_num_u64(n))),
        None => {},
    }
    match rate_of(&q, "down") {
        Some(n) => entries.push(("down_mbps".to_owned(), mk_num_u64(n))),
        None => {},
    }
    proof {
        lemma_jv_objv(entries);
        assert(jv_entries(entries@) =~= spec_hysteria2(chars@)->Ok_0->Obj_0);
    }
    Ok(Json::Obj(entries))
}

} // verus!
