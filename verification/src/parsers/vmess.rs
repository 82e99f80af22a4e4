//! The vmess URI decoder: `vmess://` followed by a base64 JSON object whose
//! fields name the endpoint, credentials, TLS intent and transport.

use vstd::prelude::*;

use vstd::utf8::{valid_utf8, decode_utf8};

use crate::error::{AppError, ErrKind, kind_of};
use crate::json::{
    Json, JsonV, jv, jv_entries, lemma_jv_objv, lemma_jv_arr, mk_str, mk_str_chars, mk_num_u64,
    spec_obj_get, obj_get, as_str_chars,
};
use crate::json_text::{spec_parse_json, parse_json_chars};
use crate::outside::{b64_decode_standard, b64_standard_of, bytes_to_string};
use crate::parsers::{spec_ws_ed, ws_ed};
use crate::text::{
    to_chars, chars_to_string, sub_chars, spec_starts_with, starts_with_str, push_all,
    spec_parse_uint, parse_uint, spec_dec_of,
};

verus! {

/// The ghost fields of a vmess payload.
pub struct VmessF {
    pub ps: Option<Seq<char>>,
    pub add: Seq<char>,
    pub port: Seq<char>,
    pub id: Seq<char>,
    pub aid: Option<Seq<char>>,
    pub scy: Option<Seq<char>>,
    pub net: Option<Seq<char>>,
    pub host: Option<Seq<char>>,
    pub path: Option<Seq<char>>,
    pub tls: Option<Seq<char>>,
    pub sni: Option<Seq<char>>,
    pub fp: Option<Seq<char>>,
}

/// An optional string field: absent, present as a string, or ill-typed.
pub open spec fn sfield(
    o: Seq<(Seq<char>, JsonV)>,
    key: Seq<char>,
) -> Result<Option<Seq<char>>, ErrKind> {
    match spec_obj_get(o, key) {
        None => Ok(None),
        Some(v) => match v {
            JsonV::Str(s) => Ok(Some(s)),
            _ => Err(ErrKind::Json),
        },
    }
}

/// The payload fields, when each is of the type the format demands and the
/// required ones are present.
pub open spec fn spec_vmess_fields(o: Seq<(Seq<char>, JsonV)>) -> Result<VmessF, ErrKind> {
    if sfield(o, "ps"@) is Err || sfield(o, "add"@) is Err || sfield(o, "port"@) is Err || sfield(
        o,
        "id"@,
    ) is Err || sfield(o, "aid"@) is Err || sfield(o, "scy"@) is Err || sfield(o, "net"@) is Err
        || sfield(o, "type"@) is Err || sfield(o, "host"@) is Err || sfield(o, "path"@) is Err
        || sfield(o, "tls"@) is Err || sfield(o, "sni"@) is Err || sfield(o, "fp"@) is Err {
        Err(ErrKind::Json)
    } else if sfield(o, "add"@)->Ok_0 is None || sfield(o, "port"@)->Ok_0 is None || sfield(
        o,
        "id"@,
    )->Ok_0 is None {
        Err(ErrKind::Json)
    } else {
        Ok(
            VmessF {
                ps: sfield(o, "ps"@)->Ok_0,
                add: sfield(o, "add"@)->Ok_0->Some_0,
                port: sfield(o, "port"@)->Ok_0->Some_0,
                id: sfield(o, "id"@)->Ok_0->Some_0,
                aid: sfield(o, "aid"@)->Ok_0,
                scy: sfield(o, "scy"@)->Ok_0,
                net: sfield(o, "net"@)->Ok_0,
                host: sfield(o, "host"@)->Ok_0,
                path: sfield(o, "path"@)->Ok_0,
                tls: sfield(o, "tls"@)->Ok_0,
                sni: sfield(o, "sni"@)->Ok_0,
                fp: sfield(o, "fp"@)->Ok_0,
            },
        )
    }
}

/// The TLS block of a vmess node: present when the `tls` field is a
/// non-empty value other than `none`; certificate checking is waived
/// whenever the block is present, mirroring the format's lenient custom.
pub open spec fn spec_vmess_tls(f: VmessF) -> Option<JsonV> {
    match f.tls {
        None => None,
        Some(t) => {
            if t.len() > 0 && t != "none"@ {
                let host_or_empty = match f.host {
                    Some(h) => h,
                    None => Seq::<char>::empty(),
                };
                let sn = match f.sni {
                    Some(s) => s,
                    None => host_or_empty,
                };
                let base = seq![
                    ("enabled"@, JsonV::Bool(true)),
                    ("insecure"@, JsonV::Bool(true)),
                    ("server_name"@, JsonV::Str(sn)),
                ];
                if f.sni is Some && f.fp is Some {
                    let utls = seq![
                        ("enabled"@, JsonV::Bool(true)),
                        ("fingerprint"@, JsonV::Str(f.fp->Some_0)),
                    ];
                    Some(JsonV::Obj(base + seq![("utls"@, JsonV::Obj(utls))]))
                } else {
                    Some(JsonV::Obj(base))
                }
            } else {
                None
            }
        },
    }
}

/// The transport block of a vmess node, when `net` names a known kind.
pub open spec fn spec_vmess_transport(f: VmessF) -> Option<JsonV> {
    match f.net {
        None => None,
        Some(net) => {
            if net == "ws"@ {
                let base = seq![("type"@, JsonV::Str("ws"@))];
                let with_h = match f.host {
                    Some(h) => base + seq![
                        ("headers"@, JsonV::Obj(seq![("Host"@, JsonV::Str(h))])),
                    ],
                    None => base,
                };
                match f.path {
                    Some(p) => {
                        let ed = spec_ws_ed(p);
                        let with_p = with_h + seq![("path"@, JsonV::Str(ed.0))];
                        match ed.1 {
                            Some(n) => Some(
                                JsonV::Obj(
                                    with_p + seq![
                                        (
                                            "early_data_header_name"@,
                                            JsonV::Str("Sec-WebSocket-Protocol"@),
                                        ),
                                        ("max_early_data"@, JsonV::Num(spec_dec_of(n as int))),
                                    ],
                                ),
                            ),
                            None => Some(JsonV::Obj(with_p)),
                        }
                    },
                    None => Some(JsonV::Obj(with_h)),
                }
            } else if net == "h2"@ || net == "http"@ {
                let base = seq![("type"@, JsonV::Str("http"@))];
                let with_h = match f.host {
                    Some(h) => base + seq![("host"@, JsonV::Str(h))],
                    None => base,
                };
                match f.path {
                    Some(p) => Some(JsonV::Obj(with_h + seq![("path"@, JsonV::Str(p))])),
                    None => Some(JsonV::Obj(with_h)),
                }
            } else if net == "grpc"@ {
                Some(
                    JsonV::Obj(
                        seq![
                            ("type"@, JsonV::Str("grpc"@)),
                            (
                                "service_name"@,
                                JsonV::Str(
                                    match f.path {
                                        Some(p) => p,
                                        None => Seq::<char>::empty(),
                                    },
                                ),
                            ),
                        ],
                    ),
                )
            } else {
                None
            }
        },
    }
}

/// What a vmess URI decodes to.
pub open spec fn spec_vmess(s: Seq<char>) -> Result<JsonV, ErrKind> {
    if !spec_starts_with(s, "vmess://"@) {
        Err(ErrKind::Invalid("Invalid vmess URL"@))
    } else {
        match b64_standard_of(s.subrange(8, s.len() as int)) {
            None => Err(ErrKind::Base64),
            Some(bytes) => {
                if !valid_utf8(bytes) {
                    Err(ErrKind::Utf8)
                } else {
                    match spec_parse_json(decode_utf8(bytes)) {
                        None => Err(ErrKind::Json),
                        Some(doc) => {
                            if !(doc is Obj) {
                                Err(ErrKind::Json)
                            } else {
                                match spec_vmess_fields(doc->Obj_0) {
                                    Err(e) => Err(e),
                                    Ok(f) => Ok(spec_vmess_node(f)),
                                }
                            }
                        },
                    }
                }
            },
        }
    }
}

/// The node a well-formed vmess payload denotes.
pub open spec fn spec_vmess_node(f: VmessF) -> JsonV {
    let tag = match f.ps {
        Some(p) => p,
        None => "vmess_"@ + f.add,
    };
    let port_num = match spec_parse_uint(f.port, 0xFFFF) {
        Some(n) => n,
        None => 443,
    };
    let aid_num = match f.aid {
        Some(a) => match spec_parse_uint(a, 0xFFFFFFFF) {
            Some(n) => n,
            None => 0,
        },
        None => 0,
    };
    let scy = match f.scy {
        Some(sc) => sc,
        None => "auto"@,
    };
    let base = seq![
        ("tag"@, JsonV::Str(tag)),
        ("type"@, JsonV::Str("vmess"@)),
        ("server"@, JsonV::Str(f.add)),
        ("server_port"@, JsonV::Num(spec_dec_of(port_num))),
        ("uuid"@, JsonV::Str(f.id)),
        ("security"@, JsonV::Str(scy)),
        ("alter_id"@, JsonV::Num(spec_dec_of(aid_num))),
        ("packet_encoding"@, JsonV::Str("xudp"@)),
    ];
    let with_tls = match spec_vmess_tls(f) {
        Some(t) => base + seq![("tls"@, t)],
        None => base,
    };
    JsonV::Obj(
        match spec_vmess_transport(f) {
            Some(t) => with_tls + seq![("transport"@, t)],
            None => with_tls,
        },
    )
}

fn get_sfield(doc: &Json, key: &str) -> (r: Result<Option<Vec<char>>, AppError>)
    requires
        jv(*doc) is Obj,
    ensures
        match r {
            Ok(Some(v)) => sfield(jv(*doc)->Obj_0, key@) == Ok::<_, ErrKind>(Some(v@)),
            Ok(None) => sfield(jv(*doc)->Obj_0, key@) == Ok::<Option<Seq<char>>, ErrKind>(None),
            Err(e) => sfield(jv(*doc)->Obj_0, key@) == Err::<Option<Seq<char>>, _>(kind_of(e)),
        },
{
    match obj_get(doc, key) {
        None => Ok(None),
        Some(v) => {
            match as_str_chars(v) {
                Some(chars) => Ok(Some(chars)),
                None => {
                    proof {
                        let got = spec_obj_get(jv(*doc)->Obj_0, key@)->Some_0;
                        match got {
                            JsonV::Null => {},
                            JsonV::Bool(_) => {},
                            JsonV::Num(_) => {},
                            JsonV::Str(_) => {},
                            JsonV::Arr(_) => {},
                            JsonV::Obj(_) => {},
                        }
                    }
                    Err(AppError::Json)
                },
            }
        },
    }
}

struct Fields {
    ps: Option<Vec<char>>,
    add: Vec<char>,
    port: Vec<char>,
    id: Vec<char>,
    aid: Option<Vec<char>>,
    scy: Option<Vec<char>>,
    net: Option<Vec<char>>,
    host: Option<Vec<char>>,
    path: Option<Vec<char>>,
    tls: Option<Vec<char>>,
    sni: Option<Vec<char>>,
    fp: Option<Vec<char>>,
}

spec fn ov(x: Option<Vec<char>>) -> Option<Seq<char>> {
    match x {
        Some(v) => Some(v@),
        None => None,
    }
}

spec fn fv(f: Fields) -> VmessF {
    VmessF {
        ps: ov(f.ps),
        add: f.add@,
        port: f.port@,
        id: f.id@,
        aid: ov(f.aid),
        scy: ov(f.scy),
        net: ov(f.net),
        host: ov(f.host),
        path: ov(f.path),
        tls: ov(f.tls),
        sni: ov(f.sni),
        fp: ov(f.fp),
    }
}

fn read_fields(doc: &Json) -> (r: Result<Fields, AppError>)
    requires
        jv(*doc) is Obj,
    ensures
        match r {
            Ok(f) => spec_vmess_fields(jv(*doc)->Obj_0) == Ok::<_, ErrKind>(fv(f)),
            Err(e) => spec_vmess_fields(jv(*doc)->Obj_0) == Err::<VmessF, _>(kind_of(e)),
        },
{
    let ps = match get_sfield(doc, "ps") {
        Ok(v) => v,
        Err(_) => {
            return Err(AppError::Json);
        },
    };
    let add_o = match get_sfield(doc, "add") {
        Ok(v) => v,
        Err(_) => {
            return Err(AppError::Json);
        },
    };
    let port_o = match get_sfield(doc, "port") {
        Ok(v) => v,
        Err(_) => {
            return Err(AppError::Json);
        },
    };
    let id_o = match get_sfield(doc, "id") {
        Ok(v) => v,
        Err(_) => {
            return Err(AppError::Json);
        },
    };
    let aid = match get_sfield(doc, "aid") {
        Ok(v) => v,
        Err(_) => {
            return Err(AppError::Json);
        },
    };
    let scy = match get_sfield(doc, "scy") {
        Ok(v) => v,
        Err(_) => {
            return Err(AppError::Json);
        },
    };
    let net = match get_sfield(doc, "net") {
        Ok(v) => v,
        Err(_) => {
            return Err(AppError::Json);
        },
    };
    match get_sfield(doc, "type") {
        Ok(_) => {},
        Err(_) => {
            return Err(AppError::Json);
        },
    }
    let host = match get_sfield(doc, "host") {
        Ok(v) => v,
        Err(_) => {
            return Err(AppError::Json);
        },
    };
    let path = match get_sfield(doc, "path") {
        Ok(v) => v,
        Err(_) => {
            return Err(AppError::Json);
        },
    };
    let tls = match get_sfield(doc, "tls") {
        Ok(v) => v,
        Err(_) => {
            return Err(AppError::Json);
        },
    };
    let sni = match get_sfield(doc, "sni") {
        Ok(v) => v,
        Err(_) => {
            return Err(AppError::Json);
        },
    };
    let fp = match get_sfield(doc, "fp") {
        Ok(v) => v,
        Err(_) => {
            return Err(AppError::Json);
        },
    };
    let add = match add_o {
        Some(v) => v,
        None => {
            return Err(AppError::Json);
        },
    };
    let port = match port_o {
        Some(v) => v,
        None => {
            return Err(AppError::Json);
        },
    };
    let id = match id_o {
        Some(v) => v,
        None => {
            return Err(AppError::Json);
        },
    };
    Ok(Fields { ps, add, port, id, aid, scy, net, host, path, tls, sni, fp })
}

fn build_tls(f: &Fields) -> (r: Option<Json>)
    ensures
        match r {
            Some(t) => spec_vmess_tls(fv(*f)) == Some(jv(t)),
            None => spec_vmess_tls(fv(*f)) is None,
        },
{
    let t = match &f.tls {
        Some(t) => t,
        None => {
            return None;
        },
    };
    if !(t.len() > 0 && !crate::text::eq_str(t, "none")) {
        return None;
    }
    let mut tls: Vec<(String, Json)> = Vec::new();
    tls.push(("enabled".to_owned(), Json::Bool(true)));
    tls.push(("insecure".to_owned(), Json::Bool(true)));
    let sn: Json = match &f.sni {
        Some(s) => mk_str_chars(s),
        None => {
            match &f.host {
                Some(h) => mk_str_chars(h),
                None => mk_str(""),
            }
        },
    };
    tls.push(("server_name".to_owned(), sn));
    let mut has_utls = false;
    match (&f.sni, &f.fp) {
        (Some(_), Some(fp)) => {
            let mut utls: Vec<(String, Json)> = Vec::new();
            utls.push(("enabled".to_owned(), Json::Bool(true)));
            utls.push(("fingerprint".to_owned(), mk_str_chars(fp)));
            proof {
                lemma_jv_objv(utls);
            }
            let utls_j = Json::Obj(utls);
            tls.push(("utls".to_owned(), utls_j));
            has_utls = true;
        },
        _ => {},
    }
    proof {
        reveal_strlit("");
        assert(""@ =~= Seq::<char>::empty());
        lemma_jv_objv(tls);
        let spec_side = spec_vmess_tls(fv(*f))->Some_0->Obj_0;
        if has_utls {
            assert(jv(tls@[3].1)->Obj_0 =~= spec_side[3].1->Obj_0);
        }
        assert(jv_entries(tls@) =~= spec_side);
    }
    Some(Json::Obj(tls))
}

fn build_transport(f: &Fields) -> (r: Option<Json>)
    ensures
        match r {
            Some(t) => spec_vmess_transport(fv(*f)) == Some(jv(t)),
            None => spec_vmess_transport(fv(*f)) is None,
        },
{
    let net = match &f.net {
        Some(n) => n,
        None => {
            return None;
        },
    };
    if crate::text::eq_str(net, "ws") {
        let mut tr: Vec<(String, Json)> = Vec::new();
        tr.push(("type".to_owned(), mk_str("ws")));
        let mut host_idx: usize = 0;
        match &f.host {
            Some(h) => {
                let mut headers: Vec<(String, Json)> = Vec::new();
                headers.push(("Host".to_owned(), mk_str_chars(h)));
                proof {
                    lemma_jv_objv(headers);
                }
                let headers_j = Json::Obj(headers);
                tr.push(("headers".to_owned(), headers_j));
                host_idx = 1;
            },
            None => {},
        }
        match &f.path {
            Some(p) => {
                let (clean, ed) = ws_ed(p);
                tr.push(("path".to_owned(), mk_str_chars(&clean)));
                match ed {
                    Some(n) => {
                        tr.push(
                            (
                                "early_data_header_name".to_owned(),
                                mk_str("Sec-WebSocket-Protocol"),
                            ),
                        );
                        tr.push(("max_early_data".to_owned(), mk_num_u64(n as u64)));
                    },
                    None => {},
                }
            },
            None => {},
        }
        proof {
            lemma_jv_objv(tr);
            let spec_side = spec_vmess_transport(fv(*f))->Some_0->Obj_0;
            if host_idx == 1 {
                assert(jv(tr@[1].1)->Obj_0 =~= spec_side[1].1->Obj_0);
            }
            assert(jv_entries(tr@) =~= spec_side);
        }
        Some(Json::Obj(tr))
    } else if crate::text::eq_str(net, "h2") || crate::text::eq_str(net, "http") {
        let mut tr: Vec<(String, Json)> = Vec::new();
        tr.push(("type".to_owned(), mk_str("http")));
        match &f.host {
            Some(h) => tr.push(("host".to_owned(), mk_str_chars(h))),
            None => {},
        }
        match &f.path {
            Some(p) => tr.push(("path".to_owned(), mk_str_chars(p))),
            None => {},
        }
        proof {
            lemma_jv_objv(tr);
            assert(jv_entries(tr@) =~= spec_vmess_transport(fv(*f))->Some_0->Obj_0);
        }
        Some(Json::Obj(tr))
    } else if crate::text::eq_str(net, "grpc") {
        let mut tr: Vec<(String, Json)> = Vec::new();
        tr.push(("type".to_owned(), mk_str("grpc")));
        let svc: Json = match &f.path {
            Some(p) => mk_str_chars(p),
            None => mk_str(""),
        };
        tr.push(("service_name".to_owned(), svc));
        proof {
            reveal_strlit("");
            assert(""@ =~= Seq::<char>::empty());
            lemma_jv_objv(tr);
            assert(jv_entries(tr@) =~= spec_vmess_transport(fv(*f))->Some_0->Obj_0);
        }
        Some(Json::Obj(tr))
    } else {
        None
    }
}

/// Decodes one vmess URI into a canonical node.
pub fn parse(data: &str) -> (r: Result<Json, AppError>)
    ensures
        match r {
            Ok(n) => spec_vmess(data@) == Ok::<_, ErrKind>(jv(n)),
            Err(e) => spec_vmess(data@) == Err::<JsonV, _>(kind_of(e)),
        },
{
    let chars = to_chars(data);
    if !starts_with_str(&chars, "vmess://") {
        return Err(AppError::InvalidFormat("Invalid vmess URL".to_owned()));
    }
    proof {
        reveal_strlit("vmess://");
    }
    let payload = sub_chars(&chars, 8, chars.len());
    let ptext = chars_to_string(&payload);
    let bytes = match b64_decode_standard(ptext.as_str()) {
        Some(b) => b,
        None => {
            return Err(AppError::Base64Decode);
        },
    };
    let text = match bytes_to_string(&bytes) {
        Some(t) => t,
        None => {
            return Err(AppError::Utf8);
        },
    };
    let text_chars = to_chars(text.as_str());
    let doc = match parse_json_chars(&text_chars) {
        Some(d) => d,
        None => {
            return Err(AppError::Json);
        },
    };
    let is_obj = match &doc {
        Json::Obj(_) => true,
        _ => false,
    };
    if !is_obj {
        proof {
            match doc {
                Json::Null => {},
                Json::Bool(_) => {},
                Json::Num(_) => {},
                Json::Str(_) => {},
                Json::Arr(_) => {},
                Json::Obj(_) => {},
            }
        }
        return Err(AppError::Json);
    }
    let f = match read_fields(&doc) {
        Ok(f) => f,
        Err(e) => {
            return Err(e);
        },
    };
    let tag: Json = match &f.ps {
        Some(p) => mk_str_chars(p),
        None => {
            let mut t = to_chars("vmess_");
            push_all(&mut t, &f.add);
            mk_str_chars(&t)
        },
    };
    let port_num: u64 = match parse_uint(&f.port, 0xFFFF) {
        Some(n) => n,
        None => 443,
    };
    let aid_num: u64 = match &f.aid {
        Some(a) => {
            match parse_uint(a, 0xFFFFFFFF) {
                Some(n) => n,
                None => 0,
            }
        },
        None => 0,
    };
    let scy: Json = match &f.scy {
        Some(sc) => mk_str_chars(sc),
        None => mk_str("auto"),
    };
    let mut entries: Vec<(String, Json)> = Vec::new();
    entries.push(("tag".to_owned(), tag));
    entries.push(("type".to_owned(), mk_str("vmess")));
    entries.push(("server".to_owned(), mk_str_chars(&f.add)));
    entries.push(("server_port".to_owned(), mk_num_u64(port_num)));
    entries.push(("uuid".to_owned(), mk_str_chars(&f.id)));
    entries.push(("security".to_owned(), scy));
    entries.push(("alter_id".to_owned(), mk_num_u64(aid_num)));
    entries.push(("packet_encoding".to_owned(), mk_str("xudp")));
    match build_tls(&f) {
        Some(t) => entries.push(("tls".to_owned(), t)),
        None => {},
    }
    match build_transport(&f) {
        Some(t) => entries.push(("transport".to_owned(), t)),
        None => {},
    }
    proof {
        lemma_jv_objv(entries);
        assert(jv_entries(entries@) =~= spec_vmess_node(fv(f))->Obj_0);
    }
    Ok(Json::Obj(entries))
}

} // verus!
