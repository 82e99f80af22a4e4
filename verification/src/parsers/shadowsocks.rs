//! The shadowsocks URI decoder: `ss://userinfo@host:port?…#tag`, where the
//! userinfo is either a literal `method:password` or its base64 form with
//! `=` padding re-added for four-byte alignment. A userinfo that decodes to
//! no `method:password` shape is a hard failure for the node.

use vstd::prelude::*;

use vstd::utf8::{valid_utf8, decode_utf8};

use crate::error::{AppError, ErrKind, kind_of};
use crate::json::{Json, JsonV, jv, jv_entries, lemma_jv_objv, mk_str, mk_str_chars, mk_num_u64};
use crate::outside::{b64_decode_standard, b64_standard_of, bytes_to_string};
use crate::parsers::{
    spec_tag_of, tag_of, spec_contains_str, contains_str, spec_username, spec_password,
    username_of, password_of,
};
use crate::text::{
    to_chars, chars_to_string, spec_find, lemma_find_props, find_from, spec_split, split_chars,
    spec_starts_with, starts_with_str, push_all,
};
use crate::uri::{
    spec_split_uri, split_uri, spec_query_pairs, query_pairs, spec_query_get, query_get, qpv,
};

verus! {

/// The userinfo padded with `=` to a multiple of four characters.
pub open spec fn spec_pad4(s: Seq<char>) -> Seq<char> {
    s + Seq::new((((4 - s.len() % 4) % 4) as nat), |i: int| '=')
}

/// The method and password a userinfo denotes: taken apart at the first `:`
/// when one is present, else base64-decoded (with padding re-added) first.
pub open spec fn spec_ss_userinfo(ui: Seq<char>) -> Result<(Seq<char>, Seq<char>), ErrKind> {
    let decoded = if spec_find(ui, ':', 0) is Some {
        Ok(ui)
    } else {
        match b64_standard_of(spec_pad4(ui)) {
            None => Err(ErrKind::Base64),
            Some(bytes) => {
                if valid_utf8(bytes) {
                    Ok(decode_utf8(bytes))
                } else {
                    Err(ErrKind::Utf8)
                }
            },
        }
    };
    match decoded {
        Err(e) => Err(e),
        Ok(d) => {
            match spec_find(d, ':', 0) {
                None => Err(ErrKind::Invalid("Invalid shadowsocks format"@)),
                Some(c) => Ok((d.subrange(0, c), d.subrange(c + 1, d.len() as int))),
            }
        },
    }
}

fn ss_userinfo(ui: &Vec<char>) -> (r: Result<(Vec<char>, Vec<char>), AppError>)
    ensures
        match r {
            Ok(p) => spec_ss_userinfo(ui@) == Ok::<_, ErrKind>((p.0@, p.1@)),
            Err(e) => spec_ss_userinfo(ui@) == Err::<(Seq<char>, Seq<char>), _>(kind_of(e)),
        },
{
    proof {
        lemma_find_props(ui@, ':', 0);
    }
    let has_colon = match find_from(ui, ':', 0) {
        Some(_) => true,
        None => false,
    };
    let decoded: Vec<char> = if has_colon {
        sub_chars_all(ui)
    } else {
        let mut padded = sub_chars_all(ui);
        let pad = (4 - padded.len() % 4) % 4;
        let mut k: usize = 0;
        while k < pad
            invariant
                k <= pad,
                pad < 4,
                padded@ == ui@ + Seq::new(k as nat, |i: int| '='),
            decreases pad - k,
        {
            padded.push('=');
            assert(ui@ + Seq::new((k + 1) as nat, |i: int| '=')
                =~= (ui@ + Seq::new(k as nat, |i: int| '=')).push('='));
            k += 1;
        }
        assert(padded@ =~= spec_pad4(ui@));
        let ptext = chars_to_string(&padded);
        let bytes = match b64_decode_standard(ptext.as_str()) {
            Some(b) => b,
            None => {
                return Err(AppError::Base64Decode);
            },
        };
        match bytes_to_string(&bytes) {
            Some(s) => to_chars(s.as_str()),
            None => {
                return Err(AppError::Utf8);
            },
        }
    };
    proof {
        lemma_find_props(decoded@, ':', 0);
    }
    match find_from(&decoded, ':', 0) {
        None => Err(AppError::InvalidFormat("Invalid shadowsocks format".to_owned())),
        Some(_) => {
            let m = username_of(&decoded);
            let p = password_of(&decoded);
            Ok((m, p))
        },
    }
}

fn sub_chars_all(v: &Vec<char>) -> (r: Vec<char>)
    ensures
        r@ == v@,
{
    let r = crate::text::sub_chars(v, 0, v.len());
    assert(r@ =~= v@);
    r
}

/// The key/value pairs among plugin option segments, later segments winning.
pub open spec fn spec_params(segs: Seq<Seq<char>>) -> Seq<(Seq<char>, Seq<char>)>
    decreases segs.len(),
{
    if segs.len() == 0 {
        seq![]
    } else {
        spec_params(segs.drop_last()) + (match spec_find(segs.last(), '=', 0) {
            Some(e) => seq![
                (segs.last().subrange(0, e), segs.last().subrange(e + 1, segs.last().len() as int)),
            ],
            None => seq![],
        })
    }
}

/// The node entries a `plugin` query value adds.
pub open spec fn spec_ss_plugin(q: Seq<(Seq<char>, Seq<char>)>) -> Seq<(Seq<char>, JsonV)> {
    match spec_query_get(q, "plugin"@) {
        None => seq![],
        Some(p) => {
            if spec_starts_with(p, "obfs"@) || spec_contains_str(p, "simple-obfs"@) {
                let params = spec_params(spec_split(p, ';').drop_first());
                match spec_query_get(params, "obfs"@) {
                    Some(t) => seq![
                        ("plugin"@, JsonV::Str("obfs-local"@)),
                        (
                            "plugin_opts"@,
                            JsonV::Str(
                                "obfs="@ + t + ";obfs-host="@ + (match spec_query_get(
                                    params,
                                    "obfs-host"@,
                                ) {
                                    Some(h) => h,
                                    None => Seq::<char>::empty(),
                                }),
                            ),
                        ),
                    ],
                    None => seq![],
                }
            } else if spec_contains_str(p, "v2ray-plugin"@) {
                seq![("plugin"@, JsonV::Str("v2ray-plugin"@))]
            } else {
                seq![]
            }
        },
    }
}

fn plugin_params(p: &Vec<char>) -> (r: Vec<(Vec<char>, Vec<char>)>)
    ensures
        qpv(r@) == spec_params(spec_split(p@, ';').drop_first()),
{
    let segs = split_chars(p, ';');
    let mut out: Vec<(Vec<char>, Vec<char>)> = Vec::new();
    let ghost splits = spec_split(p@, ';');
    let mut i: usize = 1;
    assert(splits.drop_first().subrange(0, 0) =~= Seq::<Seq<char>>::empty());
    assert(spec_params(Seq::<Seq<char>>::empty()) =~= Seq::<(Seq<char>, Seq<char>)>::empty());
    while i < segs.len()
        invariant
            1 <= i,
            i <= segs@.len() || i == 1,
            segs@.len() == splits.len(),
            splits.len() >= 1,
            forall|k: int| 0 <= k < splits.len() ==> segs@[k]@ == splits[k],
            qpv(out@) == spec_params(splits.drop_first().subrange(0, i - 1)),
        decreases segs@.len() - i,
    {
        let ghost rest = splits.drop_first();
        let ghost pre = rest.subrange(0, i - 1);
        let ghost post = rest.subrange(0, i as int);
        assert(post.drop_last() =~= pre);
        assert(post.last() == splits[i as int]);
        proof {
            lemma_find_props(segs@[i as int]@, '=', 0);
        }
        let n = segs[i].len();
        match find_from(&segs[i], '=', 0) {
            Some(e) => {
                let key = crate::text::sub_chars(&segs[i], 0, e);
                let val = crate::text::sub_chars(&segs[i], e + 1, n);
                out.push((key, val));
                assert(qpv(out@) =~= spec_params(post));
            },
            None => {
                assert(qpv(out@) =~= spec_params(post));
            },
        }
        i += 1;
    }
    proof {
        if segs.len() > 0 {
            assert(splits.drop_first().subrange(0, splits.len() - 1) =~= splits.drop_first());
        }
    }
    out
}

/// What a shadowsocks URI decodes to.
pub open spec fn spec_shadowsocks(s: Seq<char>) -> Result<JsonV, ErrKind> {
    match spec_split_uri(s) {
        None => Err(ErrKind::UrlParse),
        Some(u) => {
            match spec_ss_userinfo(u.userinfo) {
                Err(e) => Err(e),
                Ok(mp) => {
                    match u.port {
                        None => Err(ErrKind::Missing("port"@)),
                        Some(port) => {
                            let q = spec_query_pairs(u.query);
                            match spec_tag_of(u.fragment, "ss_"@, u.host) {
                                Err(e) => Err(e),
                                Ok(tag) => {
                                    let base = seq![
                                        ("tag"@, JsonV::Str(tag)),
                                        ("type"@, JsonV::Str("shadowsocks"@)),
                                        ("server"@, JsonV::Str(u.host)),
                                        (
                                            "server_port"@,
                                            JsonV::Num(crate::text::spec_dec_of(port as int)),
                                        ),
                                        ("method"@, JsonV::Str(mp.0)),
                                        ("password"@, JsonV::Str(mp.1)),
                                    ];
                                    Ok(JsonV::Obj(base + spec_ss_plugin(q)))
                                },
                            }
                        },
                    }
                },
            }
        },
    }
}

/// Decodes one shadowsocks URI into a canonical node.
pub fn parse(data: &str) -> (r: Result<Json, AppError>)
    ensures
        match r {
            Ok(n) => spec_shadowsocks(data@) == Ok::<_, ErrKind>(jv(n)),
            Err(e) => spec_shadowsocks(data@) == Err::<JsonV, _>(kind_of(e)),
        },
{
    let chars = to_chars(data);
    let u = match split_uri(&chars) {
        Some(u) => u,
        None => {
            return Err(AppError::UrlParse);
        },
    };
    let (method, password) = match ss_userinfo(&u.userinfo) {
        Ok(mp) => mp,
        Err(e) => {
            return Err(e);
        },
    };
    let port = match u.port {
        Some(p) => p,
        None => {
            return Err(AppError::MissingField("port"));
        },
    };
    let q = query_pairs(&u.query);
    let tag = match tag_of(&u.fragment, "ss_", &u.host) {
        Ok(t) => t,
        Err(e) => {
            return Err(e);
        },
    };
    let mut entries: Vec<(String, Json)> = Vec::new();
    entries.push(("tag".to_owned(), mk_str_chars(&tag)));
    entries.push(("type".to_owned(), mk_str("shadowsocks")));
    entries.push(("server".to_owned(), mk_str_chars(&u.host)));
    entries.push(("server_port".to_owned(), mk_num_u64(port as u64)));
    entries.push(("method".to_owned(), mk_str_chars(&method)));
    entries.push(("password".to_owned(), mk_str_chars(&password)));
    match query_get(&q, "plugin") {
        None => {},
        Some(p) => {
            if starts_with_str(&p, "obfs") || contains_str(&p, "simple-obfs") {
                let params = plugin_params(&p);
                match query_get(&params, "obfs") {
                    Some(t) => {
                        entries.push(("plugin".to_owned(), mk_str("obfs-local")));
                        let mut opts = to_chars("obfs=");
                        push_all(&mut opts, &t);
                        let mid = to_chars(";obfs-host=");
                        push_all(&mut opts, &mid);
                        match query_get(&params, "obfs-host") {
                            Some(h) => {
                                push_all(&mut opts, &h);
                            },
                            None => {},
                        }
                        entries.push(("plugin_opts".to_owned(), mk_str_chars(&opts)));
                    },
                    None => {},
                }
            } else if contains_str(&p, "v2ray-plugin") {
                entries.push(("plugin".to_owned(), mk_str("v2ray-plugin")));
            }
        },
    }
    proof {
        lemma_jv_objv(entries);
        assert(jv_entries(entries@) =~= spec_shadowsocks(chars@)->Ok_0->Obj_0);
    }
    Ok(Json::Obj(entries))
}

} // verus!
