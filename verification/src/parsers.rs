//! The protocol decoders and the subscription decoder: shared helpers for
//! tags, query lookups and early-data paths; per-scheme decoders in the
//! submodules; the dispatcher; and the subscription body decoder.

pub mod hysteria2;
pub mod shadowsocks;
pub mod trojan;
pub mod tuic;
pub mod vless;
pub mod vmess;

use vstd::prelude::*;

use crate::error::{AppError, ErrKind, kind_of};
use crate::json::{Json, JsonV, jv, jv_seq, mk_str_chars};
use crate::outside::{b64_decode_standard, b64_standard_of, bytes_to_string};
use crate::text::{
    spec_find, lemma_find_props, find_from, sub_chars, spec_starts_with, starts_with_str,
    to_chars, spec_split, split_chars, trim, spec_trim, spec_parse_uint, parse_uint,
};
use crate::uri::{spec_pct_decode, pct_decode, spec_query_get, qpv, query_get};

verus! {

/// The first index where `pat` occurs as a subrange, at or after `from`.
pub open spec fn spec_find_str(s: Seq<char>, pat: Seq<char>, from: int) -> Option<int>
    decreases s.len() - from,
{
    if from < 0 || from + pat.len() > s.len() {
        None
    } else if pat.len() == 0 {
        Some(from)
    } else if s.subrange(from, from + pat.len() as int) == pat {
        Some(from)
    } else {
        spec_find_str(s, pat, from + 1)
    }
}

/// The first occurrence of `pat`, if any.
pub fn find_str(v: &Vec<char>, pat: &str, from: usize) -> (r: Option<usize>)
    requires
        from <= v@.len(),
    ensures
        match r {
            Some(i) => spec_find_str(v@, pat@, from as int) == Some(i as int)
                && from <= i && i + pat@.len() <= v@.len(),
            None => spec_find_str(v@, pat@, from as int) is None,
        },
{
    let pc = to_chars(pat);
    if pc.len() == 0 {
        return Some(from);
    }
    if v.len() < pc.len() {
        return None;
    }
    let last = v.len() - pc.len();
    let mut i: usize = from;
    while i <= last
        invariant
            from <= i,
            pc@ == pat@,
            pc@.len() >= 1,
            v@.len() <= usize::MAX,
            last == v@.len() - pc@.len(),
            i <= v@.len(),
            spec_find_str(v@, pat@, from as int) == spec_find_str(v@, pat@, i as int),
        decreases last + 1 - i,
    {
        let piece = sub_chars(v, i, i + pc.len());
        if crate::text::chars_eq(&piece, &pc) {
            return Some(i);
        }
        i += 1;
    }
    None
}

/// A path split at its first `?ed=` marker: the clean path, and the early
/// data count when the piece after the marker (up to any further marker)
/// parses as a 32-bit number.
pub open spec fn spec_ws_ed(path: Seq<char>) -> (Seq<char>, Option<u32>) {
    match spec_find_str(path, "?ed="@, 0) {
        None => (path, None),
        Some(i) => {
            let clean = path.subrange(0, i);
            let seg_end = match spec_find_str(path, "?ed="@, i + 4) {
                Some(n) => n,
                None => path.len() as int,
            };
            let seg = path.subrange(i + 4, seg_end);
            match spec_parse_uint(seg, 0xFFFFFFFF) {
                Some(n) => (clean, Some(n as u32)),
                None => (clean, None),
            }
        },
    }
}

/// Splits a path at its first `?ed=` marker.
pub fn ws_ed(path: &Vec<char>) -> (r: (Vec<char>, Option<u32>))
    ensures
        (r.0@, r.1) == spec_ws_ed(path@),
{
    let n = path.len();
    match find_str(path, "?ed=", 0) {
        None => (sub_chars(path, 0, n), None),
        Some(i) => {
            let clean = sub_chars(path, 0, i);
            proof {
                reveal_strlit("?ed=");
            }
            let seg_end = match find_str(path, "?ed=", i + 4) {
                Some(m) => m,
                None => n,
            };
            assert(i + 4 <= seg_end <= path@.len()) by {
                lemma_find_str_bounds(path@, "?ed="@, i + 4);
            }
            let seg = sub_chars(path, i + 4, seg_end);
            match parse_uint(&seg, 0xFFFFFFFF) {
                Some(v) => (clean, Some(v as u32)),
                None => (clean, None),
            }
        },
    }
}

/// A found occurrence lies within the text.
proof fn lemma_find_str_bounds(s: Seq<char>, pat: Seq<char>, from: int)
    requires
        0 <= from,
    ensures
        spec_find_str(s, pat, from) matches Some(i) ==> from <= i && i + pat.len() <= s.len(),
    decreases s.len() - from,
{
    if from + pat.len() <= s.len() && pat.len() > 0 {
        if !(s.subrange(from, from + pat.len() as int) == pat) {
            lemma_find_str_bounds(s, pat, from + 1);
        }
    }
}

/// The query value under `key`, or the empty run.
pub open spec fn spec_q_or_empty(q: Seq<(Seq<char>, Seq<char>)>, key: Seq<char>) -> Seq<char> {
    match spec_query_get(q, key) {
        Some(v) => v,
        None => Seq::<char>::empty(),
    }
}

/// The query value under `key`, or the empty run.
pub fn q_or_empty(pairs: &Vec<(Vec<char>, Vec<char>)>, key: &str) -> (r: Vec<char>)
    ensures
        r@ == spec_q_or_empty(qpv(pairs@), key@),
{
    match query_get(pairs, key) {
        Some(v) => v,
        None => Vec::<char>::new(),
    }
}

/// Whether the query value under `key` is exactly `val`.
pub fn q_is(pairs: &Vec<(Vec<char>, Vec<char>)>, key: &str, val: &str) -> (r: bool)
    ensures
        r == (spec_query_get(qpv(pairs@), key@) == Some(val@)),
{
    match query_get(pairs, key) {
        Some(v) => crate::text::eq_str(&v, val),
        None => false,
    }
}

/// The tag a decoder derives: the percent-decoded fragment, or
/// `<prefix><host>` when the fragment is empty or absent.
pub open spec fn spec_tag_of(
    frag: Seq<char>,
    prefix: Seq<char>,
    host: Seq<char>,
) -> Result<Seq<char>, ErrKind> {
    match spec_pct_decode(frag) {
        None => Err(ErrKind::Invalid("Fragment decode error"@)),
        Some(t) => {
            if t.len() == 0 {
                Ok(prefix + host)
            } else {
                Ok(t)
            }
        },
    }
}

/// Derives the tag from a fragment, with the `<prefix><host>` fallback.
pub fn tag_of(frag: &Vec<char>, prefix: &str, host: &Vec<char>) -> (r: Result<
    Vec<char>,
    AppError,
>)
    ensures
        match r {
            Ok(t) => spec_tag_of(frag@, prefix@, host@) == Ok::<_, ErrKind>(t@),
            Err(e) => spec_tag_of(frag@, prefix@, host@) == Err::<Seq<char>, _>(kind_of(e)),
        },
{
    match pct_decode(frag) {
        None => Err(AppError::InvalidFormat("Fragment decode error".to_owned())),
        Some(t) => {
            if t.len() == 0 {
                let mut out = to_chars(prefix);
                crate::text::push_all(&mut out, host);
                Ok(out)
            } else {
                Ok(t)
            }
        },
    }
}

/// The username part of a raw userinfo: up to its first `:`.
pub open spec fn spec_username(ui: Seq<char>) -> Seq<char> {
    match spec_find(ui, ':', 0) {
        Some(c) => ui.subrange(0, c),
        None => ui,
    }
}

/// The password part of a raw userinfo: after its first `:`, or empty.
pub open spec fn spec_password(ui: Seq<char>) -> Seq<char> {
    match spec_find(ui, ':', 0) {
        Some(c) => ui.subrange(c + 1, ui.len() as int),
        None => Seq::<char>::empty(),
    }
}

/// The username part of a raw userinfo.
pub fn username_of(ui: &Vec<char>) -> (r: Vec<char>)
    ensures
        r@ == spec_username(ui@),
{
    proof {
        lemma_find_props(ui@, ':', 0);
    }
    let n = ui.len();
    match find_from(ui, ':', 0) {
        Some(c) => sub_chars(ui, 0, c),
        None => {
            let r = sub_chars(ui, 0, n);
            assert(r@ =~= ui@);
            r
        },
    }
}

/// The password part of a raw userinfo.
pub fn password_of(ui: &Vec<char>) -> (r: Vec<char>)
    ensures
        r@ == spec_password(ui@),
{
    proof {
        lemma_find_props(ui@, ':', 0);
    }
    let n = ui.len();
    match find_from(ui, ':', 0) {
        Some(c) => sub_chars(ui, c + 1, n),
        None => Vec::<char>::new(),
    }
}

/// Whether `pat` occurs anywhere in the run.
pub open spec fn spec_contains_str(s: Seq<char>, pat: Seq<char>) -> bool {
    spec_find_str(s, pat, 0) is Some
}

/// Whether `pat` occurs anywhere in the run.
pub fn contains_str(v: &Vec<char>, pat: &str) -> (r: bool)
    ensures
        r == spec_contains_str(v@, pat@),
{
    match find_str(v, pat, 0) {
        Some(_) => true,
        None => false,
    }
}

/// One of the braces trimmed from an `alpn` value.
pub open spec fn is_brace(c: char) -> bool {
    c == '{' || c == '}'
}

/// The run without leading braces.
pub open spec fn spec_trim_braces_front(s: Seq<char>) -> Seq<char>
    decreases s.len(),
{
    if s.len() > 0 && is_brace(s[0]) {
        spec_trim_braces_front(s.drop_first())
    } else {
        s
    }
}

/// The run without trailing braces.
pub open spec fn spec_trim_braces_back(s: Seq<char>) -> Seq<char>
    decreases s.len(),
{
    if s.len() > 0 && is_brace(s[s.len() - 1]) {
        spec_trim_braces_back(s.drop_last())
    } else {
        s
    }
}

/// The run without braces at either end.
pub open spec fn spec_trim_braces(s: Seq<char>) -> Seq<char> {
    spec_trim_braces_back(spec_trim_braces_front(s))
}

proof fn lemma_trim_braces_front_skip(s: Seq<char>, i: int)
    requires
        0 <= i <= s.len(),
        forall|k: int| 0 <= k < i ==> is_brace(s[k]),
    ensures
        spec_trim_braces_front(s) == spec_trim_braces_front(s.subrange(i, s.len() as int)),
    decreases i,
{
    if i > 0 {
        assert(is_brace(s[0]));
        assert(s.drop_first() =~= s.subrange(1, s.len() as int));
        lemma_trim_braces_front_skip(s.drop_first(), i - 1);
        assert(s.drop_first().subrange(i - 1, s.drop_first().len() as int)
            =~= s.subrange(i, s.len() as int));
    } else {
        assert(s.subrange(0, s.len() as int) =~= s);
    }
}

proof fn lemma_trim_braces_back_keep(s: Seq<char>, j: int)
    requires
        0 <= j <= s.len(),
        forall|k: int| j <= k < s.len() ==> is_brace(s[k]),
        j > 0 ==> !is_brace(s[j - 1]),
    ensures
        spec_trim_braces_back(s) == s.subrange(0, j),
    decreases s.len(),
{
    if s.len() == 0 {
        assert(s.subrange(0, 0) =~= s);
    } else if j == s.len() {
        assert(!is_brace(s[s.len() - 1]));
        assert(s.subrange(0, s.len() as int) =~= s);
    } else {
        assert(is_brace(s[s.len() - 1]));
        lemma_trim_braces_back_keep(s.drop_last(), j);
        assert(s.drop_last().subrange(0, j) =~= s.subrange(0, j));
    }
}

fn is_brace_at(v: &Vec<char>, i: usize) -> (r: bool)
    requires
        i < v@.len(),
    ensures
        r == is_brace(v@[i as int]),
{
    let c = v[i];
    c == '{' || c == '}'
}

/// The run without braces at either end.
pub fn trim_braces(v: &Vec<char>) -> (r: Vec<char>)
    ensures
        r@ == spec_trim_braces(v@),
{
    let mut i: usize = 0;
    while i < v.len() && is_brace_at(v, i)
        invariant
            i <= v@.len(),
            forall|k: int| 0 <= k < i ==> is_brace(v@[k]),
        decreases v@.len() - i,
    {
        i += 1;
    }
    let mut j: usize = v.len();
    while j > i && is_brace_at(v, j - 1)
        invariant
            i <= j <= v@.len(),
            forall|k: int| 0 <= k < i ==> is_brace(v@[k]),
            forall|k: int| j <= k < v@.len() ==> is_brace(v@[k]),
        decreases j,
    {
        j -= 1;
    }
    proof {
        lemma_trim_braces_front_skip(v@, i as int);
        let t = v@.subrange(i as int, v@.len() as int);
        lemma_trim_braces_back_keep(t, j - i);
        assert(t.subrange(0, j - i) =~= v@.subrange(i as int, j as int));
    }
    sub_chars(v, i, j)
}

/// A comma-separated value as an array of string documents.
pub open spec fn spec_comma_arr(s: Seq<char>) -> JsonV {
    JsonV::Arr(spec_split(s, ',').map_values(|p: Seq<char>| JsonV::Str(p)))
}

/// Splits a comma-separated value into an array of string documents.
pub fn comma_arr(v: &Vec<char>) -> (r: Json)
    ensures
        jv(r) == spec_comma_arr(v@),
{
    let pieces = split_chars(v, ',');
    let mut out: Vec<Json> = Vec::new();
    let mut i: usize = 0;
    while i < pieces.len()
        invariant
            i <= pieces@.len(),
            pieces@.len() == spec_split(v@, ',').len(),
            forall|k: int| 0 <= k < pieces@.len() ==> pieces@[k]@ == spec_split(v@, ',')[k],
            out@.len() == i,
            forall|k: int| 0 <= k < i ==> jv(out@[k]) == JsonV::Str(spec_split(v@, ',')[k]),
        decreases pieces@.len() - i,
    {
        let piece = mk_str_chars(&pieces[i]);
        out.push(piece);
        i += 1;
    }
    proof {
        crate::json::lemma_jv_arr(out);
        assert(Seq::new(out@.len(), |k: int| jv(out@[k]))
            =~= spec_split(v@, ',').map_values(|p: Seq<char>| JsonV::Str(p)));
    }
    Json::Arr(out)
}


/// What one line decodes to when routed by scheme prefix: failures yield no
/// node.
pub open spec fn spec_parse_node(line: Seq<char>) -> Option<JsonV> {
    if spec_starts_with(line, "vmess://"@) {
        ok_node(crate::parsers::vmess::spec_vmess(line))
    } else if spec_starts_with(line, "vless://"@) {
        ok_node(crate::parsers::vless::spec_vless(line))
    } else if spec_starts_with(line, "trojan://"@) {
        ok_node(crate::parsers::trojan::spec_trojan(line))
    } else if spec_starts_with(line, "ss://"@) {
        ok_node(crate::parsers::shadowsocks::spec_shadowsocks(line))
    } else if spec_starts_with(line, "hysteria2://"@) || spec_starts_with(line, "hy2://"@) {
        ok_node(crate::parsers::hysteria2::spec_hysteria2(line))
    } else if spec_starts_with(line, "tuic://"@) {
        ok_node(crate::parsers::tuic::spec_tuic(line))
    } else {
        None
    }
}

/// A decode outcome with its failure dropped.
pub open spec fn ok_node(r: Result<JsonV, ErrKind>) -> Option<JsonV> {
    match r {
        Ok(n) => Some(n),
        Err(_) => None,
    }
}

/// Routes one line to the decoder its scheme prefix names; unknown prefixes
/// and decode failures both yield no node.
pub fn parse_node(line: &str) -> (r: Option<Json>)
    ensures
        match r {
            Some(n) => spec_parse_node(line@) == Some(jv(n)),
            None => spec_parse_node(line@) is None,
        },
{
    let chars = to_chars(line);
    if starts_with_str(&chars, "vmess://") {
        match crate::parsers::vmess::parse(line) {
            Ok(n) => Some(n),
            Err(_) => None,
        }
    } else if starts_with_str(&chars, "vless://") {
        match crate::parsers::vless::parse(line) {
            Ok(n) => Some(n),
            Err(_) => None,
        }
    } else if starts_with_str(&chars, "trojan://") {
        match crate::parsers::trojan::parse(line) {
            Ok(n) => Some(n),
            Err(_) => None,
        }
    } else if starts_with_str(&chars, "ss://") {
        match crate::parsers::shadowsocks::parse(line) {
            Ok(n) => Some(n),
            Err(_) => None,
        }
    } else if starts_with_str(&chars, "hysteria2://") || starts_with_str(&chars, "hy2://") {
        match crate::parsers::hysteria2::parse(line) {
            Ok(n) => Some(n),
            Err(_) => None,
        }
    } else if starts_with_str(&chars, "tuic://") {
        match crate::parsers::tuic::parse(line) {
            Ok(n) => Some(n),
            Err(_) => None,
        }
    } else {
        None
    }
}

/// The text a subscription body stands for: its own text, or its base64
/// decoding when that succeeds and is valid UTF-8.
pub open spec fn spec_body_text(s: Seq<char>) -> Seq<char> {
    match b64_standard_of(spec_trim(s)) {
        Some(b) => {
            if vstd::utf8::valid_utf8(b) {
                vstd::utf8::decode_utf8(b)
            } else {
                s
            }
        },
        None => s,
    }
}

/// The decoded text of one line, when the line base64-decodes to valid UTF-8.
pub open spec fn spec_line_text(s: Seq<char>) -> Option<Seq<char>> {
    match b64_standard_of(s) {
        Some(b) => {
            if vstd::utf8::valid_utf8(b) {
                Some(vstd::utf8::decode_utf8(b))
            } else {
                None
            }
        },
        None => None,
    }
}

/// The nodes and nested subscription URLs one line yields. A blank or
/// `#`-marked line yields nothing; an `http(s)` line is a nested URL; any
/// other line may first be base64-decoded once (when `deep` holds) into
/// further lines, which are then classified without decoding again.
pub open spec fn spec_line_items(line: Seq<char>, deep: bool) -> (Seq<JsonV>, Seq<Seq<char>>)
    decreases (if deep { 1int } else { 0int }), 0int, 0int,
{
    let t = spec_trim(line);
    if t.len() == 0 || t[0] == '#' {
        (seq![], seq![])
    } else if spec_starts_with(t, "http://"@) || spec_starts_with(t, "https://"@) {
        (seq![], seq![t])
    } else if deep {
        match spec_line_text(t) {
            Some(txt) => spec_lines_items(spec_split(txt, '\n'), 0, false),
            None => (node_items(t), seq![]),
        }
    } else {
        (node_items(t), seq![])
    }
}

/// The nodes a candidate line yields: one or none.
pub open spec fn node_items(t: Seq<char>) -> Seq<JsonV> {
    match spec_parse_node(t) {
        Some(n) => seq![n],
        None => seq![],
    }
}

/// The nodes and nested URLs of the lines from index `i` on.
pub open spec fn spec_lines_items(
    lines: Seq<Seq<char>>,
    i: int,
    deep: bool,
) -> (Seq<JsonV>, Seq<Seq<char>>)
    decreases (if deep { 1int } else { 0int }), 1int, lines.len() - i,
{
    if i < 0 || i >= lines.len() {
        (seq![], seq![])
    } else {
        let head = spec_line_items(lines[i], deep);
        let rest = spec_lines_items(lines, i + 1, deep);
        (head.0 + rest.0, head.1 + rest.1)
    }
}

/// What a whole subscription body yields: the body is base64-decoded when
/// possible, cut into lines, and each line classified, with one further
/// per-line decode allowed.
pub open spec fn spec_subscription(content: Seq<char>) -> (Seq<JsonV>, Seq<Seq<char>>) {
    spec_lines_items(spec_split(spec_body_text(content), '\n'), 0, true)
}

/// The views of built URL strings.
pub open spec fn strs_view(v: Seq<String>) -> Seq<Seq<char>> {
    Seq::new(v.len(), |i: int| v[i]@)
}

fn classify_shallow(
    t: &Vec<char>,
    nodes: &mut Vec<Json>,
    urls: &mut Vec<String>,
)
    ensures
        jv_seq(final(nodes)@) == jv_seq(old(nodes)@) + spec_line_items(t@, false).0,
        strs_view(final(urls)@) == strs_view(old(urls)@) + spec_line_items(t@, false).1,
{
    let tt = trim(t);
    let ghost spec_items = spec_line_items(t@, false);
    if tt.len() == 0 {
        assert(jv_seq(nodes@) =~= jv_seq(nodes@) + spec_items.0);
        assert(strs_view(urls@) =~= strs_view(urls@) + spec_items.1);
        return;
    }
    if tt[0] == '#' {
        assert(jv_seq(nodes@) =~= jv_seq(nodes@) + spec_items.0);
        assert(strs_view(urls@) =~= strs_view(urls@) + spec_items.1);
        return;
    }
    if starts_with_str(&tt, "http://") || starts_with_str(&tt, "https://") {
        let u = crate::text::chars_to_string(&tt);
        urls.push(u);
        assert(strs_view(urls@) =~= strs_view(old(urls)@) + spec_items.1);
        assert(jv_seq(nodes@) =~= jv_seq(nodes@) + spec_items.0);
        return;
    }
    let line = crate::text::chars_to_string(&tt);
    match parse_node(line.as_str()) {
        Some(n) => {
            nodes.push(n);
            assert(jv_seq(nodes@) =~= jv_seq(old(nodes)@) + spec_items.0);
            assert(strs_view(urls@) =~= strs_view(urls@) + spec_items.1);
        },
        None => {
            assert(jv_seq(nodes@) =~= jv_seq(nodes@) + spec_items.0);
            assert(strs_view(urls@) =~= strs_view(urls@) + spec_items.1);
        },
    }
}

fn classify_deep(
    t: &Vec<char>,
    nodes: &mut Vec<Json>,
    urls: &mut Vec<String>,
)
    ensures
        jv_seq(final(nodes)@) == jv_seq(old(nodes)@) + spec_line_items(t@, true).0,
        strs_view(final(urls)@) == strs_view(old(urls)@) + spec_line_items(t@, true).1,
{
    let tt = trim(t);
    let ghost spec_items = spec_line_items(t@, true);
    if tt.len() == 0 {
        assert(jv_seq(nodes@) =~= jv_seq(nodes@) + spec_items.0);
        assert(strs_view(urls@) =~= strs_view(urls@) + spec_items.1);
        return;
    }
    if tt[0] == '#' {
        assert(jv_seq(nodes@) =~= jv_seq(nodes@) + spec_items.0);
        assert(strs_view(urls@) =~= strs_view(urls@) + spec_items.1);
        return;
    }
    if starts_with_str(&tt, "http://") || starts_with_str(&tt, "https://") {
        let u = crate::text::chars_to_string(&tt);
        urls.push(u);
        assert(strs_view(urls@) =~= strs_view(old(urls)@) + spec_items.1);
        assert(jv_seq(nodes@) =~= jv_seq(nodes@) + spec_items.0);
        return;
    }
    let ttext = crate::text::chars_to_string(&tt);
    let decoded: Option<Vec<char>> = match b64_decode_standard(ttext.as_str()) {
        Some(b) => {
            match bytes_to_string(&b) {
                Some(s) => Some(to_chars(s.as_str())),
                None => None,
            }
        },
        None => None,
    };
    match decoded {
        Some(txt) => {
            let sublines = split_chars(&txt, '\n');
            let ghost subsplits = spec_split(txt@, '\n');
            let mut i: usize = 0;
            while i < sublines.len()
                invariant
                    i <= sublines@.len(),
                    sublines@.len() == subsplits.len(),
                    forall|k: int| 0 <= k < subsplits.len() ==> sublines@[k]@ == subsplits[k],
                    jv_seq(nodes@) + spec_lines_items(subsplits, i as int, false).0
                        == jv_seq(old(nodes)@) + spec_lines_items(subsplits, 0, false).0,
                    strs_view(urls@) + spec_lines_items(subsplits, i as int, false).1
                        == strs_view(old(urls)@) + spec_lines_items(subsplits, 0, false).1,
                decreases sublines@.len() - i,
            {
                let ghost pre_nodes = nodes@;
                let ghost pre_urls = urls@;
                classify_shallow(&sublines[i], nodes, urls);
                proof {
                    let head = spec_line_items(subsplits[i as int], false);
                    let rest = spec_lines_items(subsplits, i + 1, false);
                    assert(jv_seq(nodes@) =~= jv_seq(pre_nodes) + head.0);
                    assert(jv_seq(pre_nodes) + (head.0 + rest.0)
                        =~= (jv_seq(pre_nodes) + head.0) + rest.0);
                    assert(strs_view(urls@) =~= strs_view(pre_urls) + head.1);
                    assert(strs_view(pre_urls) + (head.1 + rest.1)
                        =~= (strs_view(pre_urls) + head.1) + rest.1);
                }
                i += 1;
            }
            proof {
                assert(spec_lines_items(subsplits, sublines@.len() as int, false).0 =~= Seq::<
                    JsonV,
                >::empty());
                assert(jv_seq(nodes@) =~= jv_seq(nodes@) + spec_lines_items(
                    subsplits,
                    sublines@.len() as int,
                    false,
                ).0);
                assert(strs_view(urls@) =~= strs_view(urls@) + spec_lines_items(
                    subsplits,
                    sublines@.len() as int,
                    false,
                ).1);
            }
        },
        None => {
            let line = crate::text::chars_to_string(&tt);
            match parse_node(line.as_str()) {
                Some(n) => {
                    nodes.push(n);
                    assert(jv_seq(nodes@) =~= jv_seq(old(nodes)@) + spec_items.0);
                    assert(strs_view(urls@) =~= strs_view(urls@) + spec_items.1);
                },
                None => {
                    assert(jv_seq(nodes@) =~= jv_seq(nodes@) + spec_items.0);
                    assert(strs_view(urls@) =~= strs_view(urls@) + spec_items.1);
                },
            }
        },
    }
}

/// Decodes one subscription body into its nodes (in line order) and the
/// nested subscription URLs it names. Failure to base64-decode is the common
/// case for plain bodies and falls through silently; per-line decode
/// failures drop the line and nothing else.
pub fn parse_subscription(content: &str) -> (r: (Vec<Json>, Vec<String>))
    ensures
        jv_seq(r.0@) == spec_subscription(content@).0,
        strs_view(r.1@) == spec_subscription(content@).1,
{
    let chars = to_chars(content);
    let trimmed = trim(&chars);
    let ttext = crate::text::chars_to_string(&trimmed);
    let body: Vec<char> = match b64_decode_standard(ttext.as_str()) {
        Some(b) => {
            match bytes_to_string(&b) {
                Some(s) => to_chars(s.as_str()),
                None => chars,
            }
        },
        None => chars,
    };
    assert(body@ == spec_body_text(content@));
    let lines = split_chars(&body, '\n');
    let ghost splits = spec_split(body@, '\n');
    let mut nodes: Vec<Json> = Vec::new();
    let mut urls: Vec<String> = Vec::new();
    assert(jv_seq(nodes@) =~= Seq::<JsonV>::empty());
    assert(strs_view(urls@) =~= Seq::<Seq<char>>::empty());
    let mut i: usize = 0;
    while i < lines.len()
        invariant
            i <= lines@.len(),
            lines@.len() == splits.len(),
            forall|k: int| 0 <= k < splits.len() ==> lines@[k]@ == splits[k],
            jv_seq(nodes@) + spec_lines_items(splits, i as int, true).0
                == spec_lines_items(splits, 0, true).0,
            strs_view(urls@) + spec_lines_items(splits, i as int, true).1
                == spec_lines_items(splits, 0, true).1,
        decreases lines@.len() - i,
    {
        let ghost pre_nodes = nodes@;
        let ghost pre_urls = urls@;
        classify_deep(&lines[i], &mut nodes, &mut urls);
        proof {
            let head = spec_line_items(splits[i as int], true);
            let rest = spec_lines_items(splits, i + 1, true);
            assert(jv_seq(nodes@) =~= jv_seq(pre_nodes) + head.0);
            assert(jv_seq(pre_nodes) + (head.0 + rest.0) =~= (jv_seq(pre_nodes) + head.0) + rest.0);
            assert(strs_view(urls@) =~= strs_view(pre_urls) + head.1);
            assert(strs_view(pre_urls) + (head.1 + rest.1)
                =~= (strs_view(pre_urls) + head.1) + rest.1);
        }
        i += 1;
    }
    proof {
        assert(spec_lines_items(splits, lines@.len() as int, true).0 =~= Seq::<JsonV>::empty());
        assert(spec_lines_items(splits, lines@.len() as int, true).1 =~= Seq::<
            Seq<char>,
        >::empty());
        assert(jv_seq(nodes@) =~= jv_seq(nodes@) + spec_lines_items(
            splits,
            lines@.len() as int,
            true,
        ).0);
        assert(strs_view(urls@) =~= strs_view(urls@) + spec_lines_items(
            splits,
            lines@.len() as int,
            true,
        ).1);
    }
    (nodes, urls)
}

} // verus!
