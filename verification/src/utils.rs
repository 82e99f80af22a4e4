//! The tag enricher: country-emoji tagging, a literal prefix, keyword
//! exclusion, and tag-collision deduplication, applied in that fixed order.

use vstd::prelude::*;

use crate::json::{
    Json, JsonV, jv, jv_seq, spec_obj_get, spec_obj_set, obj_get, obj_set, as_str_chars,
    clone_json, mk_str_chars,
};
use crate::outside::{regex_compiles, regex_matches, regex_try_match};
use crate::text::{
    to_chars, chars_to_string, sub_chars, push_all, spec_trim, trim, spec_starts_with, spec_digit_char,
    starts_with_str, spec_dec_of, u64_to_chars, chars_eq,
};

verus! {

/// The ordered country table: an emoji and the pattern whose match earns it.
/// Earlier entries take priority; a pattern the regex engine refuses is
/// skipped.
pub open spec fn spec_emoji_table() -> Seq<(Seq<char>, Seq<char>)> {
    seq![
        ("\u{1F1ED}\u{1F1F0}"@, "香港|沪港|呼港|中港|HKT|HKBN|HGC|WTT|CMI|穗港|广港|京港|\u{1F1ED}\u{1F1F0}|HK|Hongkong|Hong Kong|HongKong|HONG KONG"@),
        ("\u{1F1F9}\u{1F1FC}"@, "台湾|台灣|臺灣|台北|台中|新北|彰化|台|CHT|HINET|TW|Taiwan|TAIWAN"@),
        ("\u{1F1F2}\u{1F1F4}"@, "澳门|澳門|(\\s|-)?MO\\d*|CTM|MAC|Macao|Macau"@),
        ("\u{1F1F8}\u{1F1EC}"@, "新加坡|狮城|獅城|沪新|京新|泉新|穗新|深新|杭新|广新|廣新|滬新|SG|Singapore|SINGAPORE"@),
        ("\u{1F1EF}\u{1F1F5}"@, "日本|东京|東京|大阪|埼玉|京日|苏日|沪日|广日|上日|穗日|川日|中日|泉日|杭日|深日|JP|Japan|JAPAN"@),
        ("\u{1F1FA}\u{1F1F8}"@, "美国|美國|京美|硅谷|凤凰城|洛杉矶|西雅图|圣何塞|芝加哥|哥伦布|纽约|广美|(\\s|-)?US\\d*|USA|America|United States"@),
        ("\u{1F1F0}\u{1F1F7}"@, "韩国|韓國|首尔|首爾|韩|韓|春川|KOR|KR|Kr|Korea"@),
        ("\u{1F1F7}\u{1F1FA}"@, "俄罗斯|俄羅斯|毛子|俄国|RU|RUS|Russia"@),
        ("\u{1F1EE}\u{1F1F3}"@, "印度|孟买|(\\s|-)?IN\\d+|IND|India|INDIA|Mumbai"@),
        ("\u{1F1EC}\u{1F1E7}"@, "英国|英國|伦敦|UK|England|United Kingdom|Britain"@),
        ("\u{1F1E9}\u{1F1EA}"@, "德国|德國|法兰克福|(\\s|-)?DE\\d*|(\\s|-)?GER\\d*|\u{1F1E9}\u{1F1EA}|German|GERMAN"@),
        ("\u{1F1EB}\u{1F1F7}"@, "法国|法國|巴黎|(\\s|-)?FR\\d+|France"@),
        ("\u{1F1E6}\u{1F1FA}"@, "澳大利亚|澳洲|墨尔本|悉尼|(\\s|-)?AU\\d*|Australia|Sydney"@),
        ("\u{1F1E8}\u{1F1E6}"@, "加拿大|蒙特利尔|温哥华|多伦多|多倫多|滑铁卢|楓葉|枫叶|CA|CAN|Waterloo|Canada|CANADA"@),
        ("\u{1F1F2}\u{1F1FE}"@, "马来西亚|马来|馬來|MY|Malaysia|MALAYSIA"@),
        ("\u{1F1F9}\u{1F1F7}"@, "土耳其|伊斯坦布尔|(\\s|-)?TR\\d|TR_|TUR|Turkey"@),
        ("\u{1F1F5}\u{1F1ED}"@, "菲律宾|菲律賓|(\\s|-)?PH\\d*|Philippines"@),
        ("\u{1F1F9}\u{1F1ED}"@, "泰国|泰國|曼谷|(\\s|-)?TH\\d*|Thailand"@),
        ("\u{1F1FB}\u{1F1F3}"@, "越南|胡志明市|(\\s|-)?VN\\d*|Vietnam"@),
        ("\u{1F1EE}\u{1F1E9}"@, "印尼|印度尼西亚|雅加达|ID|IDN|Indonesia"@),
        ("\u{1F1EE}\u{1F1F9}"@, "意大利|義大利|米兰|(\\s|-)?IT\\d*|Italy|Nachash"@),
        ("\u{1F1EA}\u{1F1F8}"@, "西班牙|\\b(\\s|-)?ES\\d*|Spain"@),
        ("\u{1F1F3}\u{1F1F1}"@, "荷兰|荷蘭|尼德蘭|阿姆斯特丹|NL|Netherlands|Amsterdam"@),
        ("\u{1F1F5}\u{1F1F1}"@, "波兰|波蘭|(\\s|-)?PL\\d*|POL|Poland"@),
        ("\u{1F1E7}\u{1F1F7}"@, "巴西|圣保罗|维涅杜|BR|Brazil"@),
        ("\u{1F1E6}\u{1F1F7}"@, "阿根廷|(\\s|-)AR\\d*|Argentina"@),
        ("\u{1F1F2}\u{1F1FD}"@, "墨西哥|MX|MEX|MEXICO"@),
        ("\u{1F1FF}\u{1F1E6}"@, "南非|约翰内斯堡|(\\s|-)?ZA\\d*|South Africa|Johannesburg"@),
        ("\u{1F1E6}\u{1F1EA}"@, "阿联酋|迪拜|(\\s|-)?AE\\d*|Dubai|United Arab Emirates"@),
        ("\u{1F1F8}\u{1F1E6}"@, "沙特|利雅得|吉达|Saudi|Saudi Arabia"@),
        ("\u{1F1E8}\u{1F1F3}"@, "中国|中國|江苏|北京|上海|广州|深圳|杭州|徐州|青岛|宁波|镇江|沈阳|济南|回国|back|(\\s|-)?CN\\d*|China"@),
    ]
}

#[verifier::rlimit(100)]
fn emoji_table() -> (r: Vec<(String, String)>)
    ensures
        r@.len() == spec_emoji_table().len(),
        forall|i: int| 0 <= i < r@.len()
            ==> r@[i].0@ == spec_emoji_table()[i].0 && r@[i].1@ == spec_emoji_table()[i].1,
{
    let mut t: Vec<(String, String)> = Vec::new();
    t.push(("\u{1F1ED}\u{1F1F0}".to_owned(), "香港|沪港|呼港|中港|HKT|HKBN|HGC|WTT|CMI|穗港|广港|京港|\u{1F1ED}\u{1F1F0}|HK|Hongkong|Hong Kong|HongKong|HONG KONG".to_owned()));
    t.push(("\u{1F1F9}\u{1F1FC}".to_owned(), "台湾|台灣|臺灣|台北|台中|新北|彰化|台|CHT|HINET|TW|Taiwan|TAIWAN".to_owned()));
    t.push(("\u{1F1F2}\u{1F1F4}".to_owned(), "澳门|澳門|(\\s|-)?MO\\d*|CTM|MAC|Macao|Macau".to_owned()));
    t.push(("\u{1F1F8}\u{1F1EC}".to_owned(), "新加坡|狮城|獅城|沪新|京新|泉新|穗新|深新|杭新|广新|廣新|滬新|SG|Singapore|SINGAPORE".to_owned()));
    t.push(("\u{1F1EF}\u{1F1F5}".to_owned(), "日本|东京|東京|大阪|埼玉|京日|苏日|沪日|广日|上日|穗日|川日|中日|泉日|杭日|深日|JP|Japan|JAPAN".to_owned()));
    t.push(("\u{1F1FA}\u{1F1F8}".to_owned(), "美国|美國|京美|硅谷|凤凰城|洛杉矶|西雅图|圣何塞|芝加哥|哥伦布|纽约|广美|(\\s|-)?US\\d*|USA|America|United States".to_owned()));
    t.push(("\u{1F1F0}\u{1F1F7}".to_owned(), "韩国|韓國|首尔|首爾|韩|韓|春川|KOR|KR|Kr|Korea".to_owned()));
    t.push(("\u{1F1F7}\u{1F1FA}".to_owned(), "俄罗斯|俄羅斯|毛子|俄国|RU|RUS|Russia".to_owned()));
    t.push(("\u{1F1EE}\u{1F1F3}".to_owned(), "印度|孟买|(\\s|-)?IN\\d+|IND|India|INDIA|Mumbai".to_owned()));
    t.push(("\u{1F1EC}\u{1F1E7}".to_owned(), "英国|英國|伦敦|UK|England|United Kingdom|Britain".to_owned()));
    t.push(("\u{1F1E9}\u{1F1EA}".to_owned(), "德国|德國|法兰克福|(\\s|-)?DE\\d*|(\\s|-)?GER\\d*|\u{1F1E9}\u{1F1EA}|German|GERMAN".to_owned()));
    t.push(("\u{1F1EB}\u{1F1F7}".to_owned(), "法国|法國|巴黎|(\\s|-)?FR\\d+|France".to_owned()));
    t.push(("\u{1F1E6}\u{1F1FA}".to_owned(), "澳大利亚|澳洲|墨尔本|悉尼|(\\s|-)?AU\\d*|Australia|Sydney".to_owned()));
    t.push(("\u{1F1E8}\u{1F1E6}".to_owned(), "加拿大|蒙特利尔|温哥华|多伦多|多倫多|滑铁卢|楓葉|枫叶|CA|CAN|Waterloo|Canada|CANADA".to_owned()));
    t.push(("\u{1F1F2}\u{1F1FE}".to_owned(), "马来西亚|马来|馬來|MY|Malaysia|MALAYSIA".to_owned()));
    t.push(("\u{1F1F9}\u{1F1F7}".to_owned(), "土耳其|伊斯坦布尔|(\\s|-)?TR\\d|TR_|TUR|Turkey".to_owned()));
    t.push(("\u{1F1F5}\u{1F1ED}".to_owned(), "菲律宾|菲律賓|(\\s|-)?PH\\d*|Philippines".to_owned()));
    t.push(("\u{1F1F9}\u{1F1ED}".to_owned(), "泰国|泰國|曼谷|(\\s|-)?TH\\d*|Thailand".to_owned()));
    t.push(("\u{1F1FB}\u{1F1F3}".to_owned(), "越南|胡志明市|(\\s|-)?VN\\d*|Vietnam".to_owned()));
    t.push(("\u{1F1EE}\u{1F1E9}".to_owned(), "印尼|印度尼西亚|雅加达|ID|IDN|Indonesia".to_owned()));
    t.push(("\u{1F1EE}\u{1F1F9}".to_owned(), "意大利|義大利|米兰|(\\s|-)?IT\\d*|Italy|Nachash".to_owned()));
    t.push(("\u{1F1EA}\u{1F1F8}".to_owned(), "西班牙|\\b(\\s|-)?ES\\d*|Spain".to_owned()));
    t.push(("\u{1F1F3}\u{1F1F1}".to_owned(), "荷兰|荷蘭|尼德蘭|阿姆斯特丹|NL|Netherlands|Amsterdam".to_owned()));
    t.push(("\u{1F1F5}\u{1F1F1}".to_owned(), "波兰|波蘭|(\\s|-)?PL\\d*|POL|Poland".to_owned()));
    t.push(("\u{1F1E7}\u{1F1F7}".to_owned(), "巴西|圣保罗|维涅杜|BR|Brazil".to_owned()));
    t.push(("\u{1F1E6}\u{1F1F7}".to_owned(), "阿根廷|(\\s|-)AR\\d*|Argentina".to_owned()));
    t.push(("\u{1F1F2}\u{1F1FD}".to_owned(), "墨西哥|MX|MEX|MEXICO".to_owned()));
    t.push(("\u{1F1FF}\u{1F1E6}".to_owned(), "南非|约翰内斯堡|(\\s|-)?ZA\\d*|South Africa|Johannesburg".to_owned()));
    t.push(("\u{1F1E6}\u{1F1EA}".to_owned(), "阿联酋|迪拜|(\\s|-)?AE\\d*|Dubai|United Arab Emirates".to_owned()));
    t.push(("\u{1F1F8}\u{1F1E6}".to_owned(), "沙特|利雅得|吉达|Saudi|Saudi Arabia".to_owned()));
    t.push(("\u{1F1E8}\u{1F1F3}".to_owned(), "中国|中國|江苏|北京|上海|广州|深圳|杭州|徐州|青岛|宁波|镇江|沈阳|济南|回国|back|(\\s|-)?CN\\d*|China".to_owned()));
    t
}

/// The first table entry whose emoji already begins the name, from `i` on.
pub open spec fn spec_prefix_hit(name: Seq<char>, i: int) -> Option<int>
    decreases spec_emoji_table().len() - i,
{
    let tbl = spec_emoji_table();
    if i < 0 || i >= tbl.len() {
        None
    } else if spec_starts_with(name, tbl[i].0) {
        Some(i)
    } else {
        spec_prefix_hit(name, i + 1)
    }
}

/// The first table entry whose pattern compiles and matches the name, from
/// `i` on.
pub open spec fn spec_match_hit(name: Seq<char>, i: int) -> Option<int>
    decreases spec_emoji_table().len() - i,
{
    let tbl = spec_emoji_table();
    if i < 0 || i >= tbl.len() {
        None
    } else if regex_compiles(tbl[i].1) && regex_matches(tbl[i].1, name) {
        Some(i)
    } else {
        spec_match_hit(name, i + 1)
    }
}

/// The emoji-tagged form of a name: kept as-is (spacing normalized) when an
/// emoji already leads it, else prefixed with the first matching entry's
/// emoji, else unchanged.
pub open spec fn spec_add_emoji(name: Seq<char>) -> Seq<char> {
    let tbl = spec_emoji_table();
    match spec_prefix_hit(name, 0) {
        Some(k) => tbl[k].0 + " "@ + spec_trim(
            name.subrange(tbl[k].0.len() as int, name.len() as int),
        ),
        None => match spec_match_hit(name, 0) {
            Some(k) => tbl[k].0 + " "@ + name,
            None => name,
        },
    }
}

/// Prefixes a node tag with its country emoji, by the fixed ordered table;
/// a tag already led by a table emoji keeps it with one space after it.
pub fn add_emoji(name: &str) -> (r: String)
    ensures
        r@ == spec_add_emoji(name@),
{
    let tbl = emoji_table();
    let name_chars = to_chars(name);
    let mut i: usize = 0;
    while i < tbl.len()
        invariant
            i <= tbl@.len(),
            tbl@.len() == spec_emoji_table().len(),
            forall|k: int| 0 <= k < tbl@.len()
                ==> tbl@[k].0@ == spec_emoji_table()[k].0
                    && tbl@[k].1@ == spec_emoji_table()[k].1,
            name_chars@ == name@,
            spec_prefix_hit(name@, 0) == spec_prefix_hit(name@, i as int),
        decreases tbl@.len() - i,
    {
        if starts_with_str(&name_chars, tbl[i].0.as_str()) {
            let emoji = to_chars(tbl[i].0.as_str());
            let rest = sub_chars(&name_chars, emoji.len(), name_chars.len());
            let trimmed = trim(&rest);
            let mut out = emoji;
            out.push(' ');
            push_all(&mut out, &trimmed);
            proof {
                reveal_strlit(" ");
                assert(" "@ =~= seq![' ']);
                assert(out@ =~= spec_emoji_table()[i as int].0 + " "@ + spec_trim(
                    name@.subrange(
                        spec_emoji_table()[i as int].0.len() as int,
                        name@.len() as int,
                    ),
                ));
            }
            return chars_to_string(&out);
        }
        i += 1;
    }
    let mut i: usize = 0;
    while i < tbl.len()
        invariant
            i <= tbl@.len(),
            tbl@.len() == spec_emoji_table().len(),
            forall|k: int| 0 <= k < tbl@.len()
                ==> tbl@[k].0@ == spec_emoji_table()[k].0
                    && tbl@[k].1@ == spec_emoji_table()[k].1,
            name_chars@ == name@,
            spec_prefix_hit(name@, 0) is None,
            spec_match_hit(name@, 0) == spec_match_hit(name@, i as int),
        decreases tbl@.len() - i,
    {
        let hit = match regex_try_match(tbl[i].1.as_str(), name) {
            Some(m) => m,
            None => false,
        };
        if hit {
            let emoji = to_chars(tbl[i].0.as_str());
            let mut out = emoji;
            out.push(' ');
            push_all(&mut out, &name_chars);
            proof {
                reveal_strlit(" ");
                assert(" "@ =~= seq![' ']);
                assert(out@ =~= spec_emoji_table()[i as int].0 + " "@ + name@);
            }
            return chars_to_string(&out);
        }
        i += 1;
    }
    let r = name.to_owned();
    r
}

/// The tag of a node document, when it carries one as a string.
pub open spec fn node_tag(n: JsonV) -> Option<Seq<char>> {
    if n is Obj {
        match spec_obj_get(n->Obj_0, "tag"@) {
            Some(v) => match v {
                JsonV::Str(s) => Some(s),
                _ => None,
            },
            None => None,
        }
    } else {
        None
    }
}

/// The node with its tag replaced.
pub open spec fn spec_retag(n: JsonV, s: Seq<char>) -> JsonV {
    JsonV::Obj(spec_obj_set(n->Obj_0, "tag"@, JsonV::Str(s)))
}

fn retag(n: &mut Json, s: &Vec<char>)
    requires
        node_tag(jv(*old(n))) is Some,
    ensures
        jv(*final(n)) == spec_retag(jv(*old(n)), s@),
{
    let v = mk_str_chars(s);
    obj_set(n, "tag", v);
}

/// One node with its tag emoji-tagged; a node without a string tag is
/// untouched.
pub open spec fn spec_emoji_node(n: JsonV) -> JsonV {
    match node_tag(n) {
        Some(t) => spec_retag(n, spec_add_emoji(t)),
        None => n,
    }
}

/// Applies emoji tagging to every node tag.
pub fn apply_emoji(nodes: Vec<Json>) -> (r: Vec<Json>)
    ensures
        jv_seq(r@) == jv_seq(nodes@).map_values(|n: JsonV| spec_emoji_node(n)),
{
    let mut out: Vec<Json> = Vec::new();
    let mut i: usize = 0;
    while i < nodes.len()
        invariant
            i <= nodes@.len(),
            out@.len() == i,
            forall|k: int| 0 <= k < i ==> jv(out@[k]) == spec_emoji_node(jv(nodes@[k])),
        decreases nodes@.len() - i,
    {
        let tag_chars = match obj_get(&nodes[i], "tag") {
            Some(v) => as_str_chars(v),
            None => None,
        };
        match tag_chars {
            Some(t) => {
                let ts = chars_to_string(&t);
                let newtag = add_emoji(ts.as_str());
                let ntc = to_chars(newtag.as_str());
                let mut node = clone_json(&nodes[i]);
                retag(&mut node, &ntc);
                out.push(node);
            },
            None => {
                let node = clone_json(&nodes[i]);
                out.push(node);
            },
        }
        i += 1;
    }
    assert(jv_seq(out@) =~= jv_seq(nodes@).map_values(|n: JsonV| spec_emoji_node(n)));
    out
}

/// One node with a literal prefix put before its tag.
pub open spec fn spec_prefix_node(n: JsonV, prefix: Seq<char>) -> JsonV {
    match node_tag(n) {
        Some(t) => spec_retag(n, prefix + t),
        None => n,
    }
}

/// Prepends a literal prefix to every node tag.
pub fn apply_prefix(nodes: Vec<Json>, prefix: &str) -> (r: Vec<Json>)
    ensures
        jv_seq(r@) == jv_seq(nodes@).map_values(|n: JsonV| spec_prefix_node(n, prefix@)),
{
    let mut out: Vec<Json> = Vec::new();
    let mut i: usize = 0;
    while i < nodes.len()
        invariant
            i <= nodes@.len(),
            out@.len() == i,
            forall|k: int| 0 <= k < i ==> jv(out@[k]) == spec_prefix_node(jv(nodes@[k]), prefix@),
        decreases nodes@.len() - i,
    {
        let tag_chars = match obj_get(&nodes[i], "tag") {
            Some(v) => as_str_chars(v),
            None => None,
        };
        match tag_chars {
            Some(t) => {
                let mut nt = to_chars(prefix);
                push_all(&mut nt, &t);
                let mut node = clone_json(&nodes[i]);
                retag(&mut node, &nt);
                out.push(node);
            },
            None => {
                let node = clone_json(&nodes[i]);
                out.push(node);
            },
        }
        i += 1;
    }
    assert(jv_seq(out@) =~= jv_seq(nodes@).map_values(|n: JsonV| spec_prefix_node(n, prefix@)));
    out
}

/// Whether keyword filtering keeps a node: nodes without a string tag stay;
/// otherwise a match keeps the node under `include` and drops it under
/// `exclude`.
pub open spec fn spec_keeps(n: JsonV, kw: Seq<char>, exclude: bool) -> bool {
    match node_tag(n) {
        Some(t) => regex_matches(kw, t) != exclude,
        None => true,
    }
}

/// The node sequence filtered by a `|`-joined keyword pattern. An empty or
/// blank pattern, or one the regex engine refuses, filters nothing.
pub open spec fn spec_filter_by_keywords(
    nodes: Seq<JsonV>,
    kw: Seq<char>,
    exclude: bool,
) -> Seq<JsonV> {
    if kw.len() == 0 || spec_trim(kw).len() == 0 || !regex_compiles(kw) {
        nodes
    } else {
        nodes.filter(|n: JsonV| spec_keeps(n, kw, exclude))
    }
}

/// Filters nodes by tag against a `|`-joined keyword pattern; an unusable
/// pattern leaves the sequence unchanged.
pub fn filter_by_keywords(nodes: Vec<Json>, keywords: &str, exclude: bool) -> (r: Vec<Json>)
    ensures
        jv_seq(r@) == spec_filter_by_keywords(jv_seq(nodes@), keywords@, exclude),
{
    let kw = to_chars(keywords);
    if kw.len() == 0 {
        return nodes;
    }
    let kt = trim(&kw);
    if kt.len() == 0 {
        return nodes;
    }
    let compiles = match regex_try_match(keywords, "") {
        Some(_) => true,
        None => false,
    };
    if !compiles {
        return nodes;
    }
    let mut out: Vec<Json> = Vec::new();
    let mut i: usize = 0;
    proof {
        reveal(Seq::filter);
    }
    assert(jv_seq(nodes@).subrange(0, 0) =~= Seq::<JsonV>::empty());
    assert(Seq::<JsonV>::empty().filter(|n: JsonV| spec_keeps(n, keywords@, exclude)) =~= Seq::<
        JsonV,
    >::empty());
    assert(jv_seq(out@) =~= Seq::<JsonV>::empty());
    while i < nodes.len()
        invariant
            i <= nodes@.len(),
            regex_compiles(keywords@),
            jv_seq(out@) == jv_seq(nodes@).subrange(0, i as int).filter(
                |n: JsonV| spec_keeps(n, keywords@, exclude),
            ),
        decreases nodes@.len() - i,
    {
        let ghost pre = jv_seq(nodes@).subrange(0, i as int);
        let ghost post = jv_seq(nodes@).subrange(0, i + 1);
        proof {
            reveal(Seq::filter);
        }
        assert(post.drop_last() =~= pre);
        assert(post.last() == jv(nodes@[i as int]));
        let tag_chars = match obj_get(&nodes[i], "tag") {
            Some(v) => as_str_chars(v),
            None => None,
        };
        let keep = match &tag_chars {
            Some(t) => {
                let ts = chars_to_string(t);
                let m = match regex_try_match(keywords, ts.as_str()) {
                    Some(m) => m,
                    None => false,
                };
                m != exclude
            },
            None => true,
        };
        assert(keep == spec_keeps(jv(nodes@[i as int]), keywords@, exclude));
        if keep {
            let node = clone_json(&nodes[i]);
            out.push(node);
        }
        assert(jv_seq(out@) =~= post.filter(|n: JsonV| spec_keeps(n, keywords@, exclude)));
        i += 1;
    }
    assert(jv_seq(nodes@).subrange(0, nodes@.len() as int) =~= jv_seq(nodes@));
    out
}

/// How many nodes carry the given tag.
pub open spec fn spec_count_tag(nodes: Seq<JsonV>, t: Seq<char>) -> int
    decreases nodes.len(),
{
    if nodes.len() == 0 {
        0
    } else {
        spec_count_tag(nodes.drop_last(), t) + (if node_tag(nodes.last()) == Some(t) {
            1int
        } else {
            0int
        })
    }
}

/// A tag with a running index appended: `<tag> <n>`.
pub open spec fn spec_indexed_tag(t: Seq<char>, n: int) -> Seq<char> {
    t + " "@ + spec_dec_of(n)
}

/// The node sequence after tag deduplication: among nodes sharing a tag that
/// occurs more than once, the first keeps it bare and each later one gets
/// `<tag> <n>` with n counting from 1 in encounter order.
pub open spec fn spec_dedup(nodes: Seq<JsonV>) -> Seq<JsonV> {
    Seq::new(
        nodes.len(),
        |i: int|
            match node_tag(nodes[i]) {
                Some(t) => {
                    if spec_count_tag(nodes, t) > 1 && spec_count_tag(nodes.subrange(0, i), t)
                        >= 1 {
                        spec_retag(nodes[i], spec_indexed_tag(t, spec_count_tag(nodes.subrange(0, i), t)))
                    } else {
                        nodes[i]
                    }
                },
                None => nodes[i],
            },
    )
}

fn count_tag_upto(nodes: &Vec<Json>, upto: usize, t: &Vec<char>) -> (r: usize)
    requires
        upto <= nodes@.len(),
    ensures
        r as int == spec_count_tag(jv_seq(nodes@).subrange(0, upto as int), t@),
        r <= upto,
{
    let mut c: usize = 0;
    let mut i: usize = 0;
    assert(jv_seq(nodes@).subrange(0, 0) =~= Seq::<JsonV>::empty());
    while i < upto
        invariant
            i <= upto <= nodes@.len(),
            c <= i,
            c as int == spec_count_tag(jv_seq(nodes@).subrange(0, i as int), t@),
        decreases upto - i,
    {
        let ghost pre = jv_seq(nodes@).subrange(0, i as int);
        let ghost post = jv_seq(nodes@).subrange(0, i + 1);
        assert(post.drop_last() =~= pre);
        assert(post.last() == jv(nodes@[i as int]));
        let tag_chars = match obj_get(&nodes[i], "tag") {
            Some(v) => as_str_chars(v),
            None => None,
        };
        match tag_chars {
            Some(tc) => {
                if chars_eq(&tc, t) {
                    c += 1;
                }
            },
            None => {},
        }
        i += 1;
    }
    c
}

/// Deduplicates node tags: every tag that occurs more than once keeps its
/// first occurrence bare and gives each later occurrence a 1-based index.
pub fn dedup_tags(nodes: Vec<Json>) -> (r: Vec<Json>)
    ensures
        jv_seq(r@) == spec_dedup(jv_seq(nodes@)),
{
    let n = nodes.len();
    let mut out: Vec<Json> = Vec::new();
    let mut i: usize = 0;
    while i < n
        invariant
            n == nodes@.len(),
            i <= n,
            out@.len() == i,
            forall|k: int| 0 <= k < i ==> jv(out@[k]) == spec_dedup(jv_seq(nodes@))[k],
        decreases n - i,
    {
        let tag_chars = match obj_get(&nodes[i], "tag") {
            Some(v) => as_str_chars(v),
            None => None,
        };
        match tag_chars {
            Some(t) => {
                let total = count_tag_upto(&nodes, n, &t);
                let prior = count_tag_upto(&nodes, i, &t);
                proof {
                    assert(jv_seq(nodes@).subrange(0, n as int) =~= jv_seq(nodes@));
                }
                if total > 1 && prior >= 1 {
                    let mut nt = sub_chars(&t, 0, t.len());
                    assert(nt@ =~= t@);
                    nt.push(' ');
                    let digits = u64_to_chars(prior as u64);
                    push_all(&mut nt, &digits);
                    proof {
                        reveal_strlit(" ");
                        assert(" "@ =~= seq![' ']);
                    }
                    assert(nt@ =~= spec_indexed_tag(t@, prior as int));
                    let mut node = clone_json(&nodes[i]);
                    retag(&mut node, &nt);
                    out.push(node);
                } else {
                    let node = clone_json(&nodes[i]);
                    out.push(node);
                }
            },
            None => {
                let node = clone_json(&nodes[i]);
                out.push(node);
            },
        }
        i += 1;
    }
    assert(jv_seq(out@) =~= spec_dedup(jv_seq(nodes@)));
    out
}

/// What the whole enrichment step yields: emoji tagging when asked, then the
/// literal prefix when non-empty, then keyword exclusion, then tag
/// deduplication, in that fixed order.
pub open spec fn spec_enrich(
    nodes: Seq<JsonV>,
    emoji: bool,
    prefix: Seq<char>,
    exclude_kw: Seq<char>,
) -> Seq<JsonV> {
    let a = if emoji {
        nodes.map_values(|n: JsonV| spec_emoji_node(n))
    } else {
        nodes
    };
    let b = if prefix.len() > 0 {
        a.map_values(|n: JsonV| spec_prefix_node(n, prefix))
    } else {
        a
    };
    let c = spec_filter_by_keywords(b, exclude_kw, true);
    spec_dedup(c)
}

/// Enriches decoded nodes: optional emoji tagging, optional literal prefix,
/// keyword exclusion, and tag deduplication, in that fixed order.
pub fn enrich_nodes(nodes: Vec<Json>, emoji: bool, prefix: &str, exclude_kw: &str) -> (r: Vec<
    Json,
>)
    ensures
        jv_seq(r@) == spec_enrich(jv_seq(nodes@), emoji, prefix@, exclude_kw@),
{
    let a = if emoji {
        apply_emoji(nodes)
    } else {
        nodes
    };
    let pc = to_chars(prefix);
    let b = if pc.len() > 0 {
        apply_prefix(a, prefix)
    } else {
        a
    };
    let c = filter_by_keywords(b, exclude_kw, true);
    dedup_tags(c)
}


pub proof fn lemma_dec_len(n: int)
    requires
        n >= 0,
    ensures
        spec_dec_of(n).len() >= 1,
    decreases n,
{
    if n >= 10 {
        lemma_dec_len(n / 10);
    }
}

pub proof fn lemma_dec_digits(n: int)
    requires
        n >= 0,
    ensures
        forall|k: int| 0 <= k < spec_dec_of(n).len() ==> crate::text::is_digit(spec_dec_of(n)[k]),
    decreases n,
{
    if n < 10 {
        assert(crate::text::is_digit(spec_digit_char(n)));
        assert(spec_dec_of(n) =~= seq![spec_digit_char(n)]);
    } else {
        lemma_dec_digits(n / 10);
        assert(crate::text::is_digit(spec_digit_char(n % 10)));
        let d = spec_dec_of(n);
        assert(d == spec_dec_of(n / 10).push(spec_digit_char(n % 10)));
        assert forall|k: int| 0 <= k < d.len() implies crate::text::is_digit(d[k]) by {
            if k < d.len() - 1 {
                assert(d[k] == spec_dec_of(n / 10)[k]);
            } else {
                assert(d[k] == spec_digit_char(n % 10));
            }
        }
    }
}

pub proof fn lemma_dec_value(n: int)
    requires
        n >= 0,
    ensures
        crate::text::spec_digits_value(spec_dec_of(n)) == n,
    decreases n,
{
    if n < 10 {
        assert(spec_digit_char(n) as int - '0' as int == n);
        assert(crate::text::spec_digits_value(Seq::<char>::empty()) == 0);
        assert(spec_dec_of(n).drop_last() =~= Seq::<char>::empty());
        assert(spec_dec_of(n).last() == spec_digit_char(n));
        assert(spec_dec_of(n).len() == 1);
    } else {
        lemma_dec_value(n / 10);
        assert(spec_dec_of(n).drop_last() =~= spec_dec_of(n / 10));
        assert(spec_dec_of(n).last() == spec_digit_char(n % 10));
        assert(spec_digit_char(n % 10) as int - '0' as int == n % 10);
        assert(n / 10 * 10 + n % 10 == n);
    }
}

/// Two indexed tags are equal only when their tags and indexes both are.
proof fn lemma_indexed_injective(t1: Seq<char>, n1: int, t2: Seq<char>, n2: int)
    requires
        n1 >= 0,
        n2 >= 0,
        spec_indexed_tag(t1, n1) == spec_indexed_tag(t2, n2),
    ensures
        t1 == t2,
        n1 == n2,
{
    reveal_strlit(" ");
    assert(" "@ =~= seq![' ']);
    assert(" "@.len() == 1 && " "@[0] == ' ');
    let d1 = spec_dec_of(n1);
    let d2 = spec_dec_of(n2);
    let lhs = t1 + " "@ + d1;
    let rhs = t2 + " "@ + d2;
    assert(lhs == rhs);
    assert(lhs.len() == t1.len() + 1 + d1.len());
    assert(rhs.len() == t2.len() + 1 + d2.len());
    lemma_dec_len(n1);
    lemma_dec_len(n2);
    lemma_dec_digits(n1);
    lemma_dec_digits(n2);
    if t1.len() < t2.len() {
        let p = t2.len() as int;
        assert(rhs[p] == (t2 + " "@)[p]);
        assert((t2 + " "@)[p] == " "@[0]);
        assert(p >= t1.len() + 1);
        assert(p < lhs.len());
        assert(lhs[p] == d1[p - (t1.len() + 1)]);
        assert(crate::text::is_digit(d1[p - (t1.len() + 1)]));
        assert(false);
    } else if t2.len() < t1.len() {
        let p = t1.len() as int;
        assert(lhs[p] == (t1 + " "@)[p]);
        assert((t1 + " "@)[p] == " "@[0]);
        assert(p >= t2.len() + 1);
        assert(p < rhs.len());
        assert(rhs[p] == d2[p - (t2.len() + 1)]);
        assert(crate::text::is_digit(d2[p - (t2.len() + 1)]));
        assert(false);
    } else {
        assert(t1 =~= t2) by {
            assert forall|k: int| 0 <= k < t1.len() implies t1[k] == t2[k] by {
                assert(lhs[k] == (t1 + " "@)[k]);
                assert((t1 + " "@)[k] == t1[k]);
                assert(rhs[k] == (t2 + " "@)[k]);
                assert((t2 + " "@)[k] == t2[k]);
            }
        }
        assert(d1 =~= d2) by {
            assert forall|k: int| 0 <= k < d1.len() implies d1[k] == d2[k] by {
                assert(lhs[t1.len() + 1 + k] == d1[k]);
                assert(rhs[t2.len() + 1 + k] == d2[k]);
            }
        }
        lemma_dec_value(n1);
        lemma_dec_value(n2);
    }
}

proof fn lemma_count_at(nodes: Seq<JsonV>, i: int, t: Seq<char>)
    requires
        0 <= i < nodes.len(),
    ensures
        spec_count_tag(nodes.subrange(0, i + 1), t) == spec_count_tag(nodes.subrange(0, i), t) + (
        if node_tag(nodes[i]) == Some(t) {
            1int
        } else {
            0int
        }),
{
    assert(nodes.subrange(0, i + 1).drop_last() =~= nodes.subrange(0, i));
    assert(nodes.subrange(0, i + 1).last() == nodes[i]);
}

proof fn lemma_count_mono(nodes: Seq<JsonV>, a: int, b: int, t: Seq<char>)
    requires
        0 <= a <= b <= nodes.len(),
    ensures
        spec_count_tag(nodes.subrange(0, a), t) <= spec_count_tag(nodes.subrange(0, b), t),
    decreases b - a,
{
    if a < b {
        lemma_count_mono(nodes, a, b - 1, t);
        lemma_count_at(nodes, b - 1, t);
    }
}

/// The tag of a retagged node is the tag it was given.
proof fn lemma_retag_tag(n: JsonV, s: Seq<char>)
    requires
        n is Obj,
    ensures
        node_tag(spec_retag(n, s)) == Some(s),
{
    crate::json::lemma_obj_set_get(n->Obj_0, "tag"@, JsonV::Str(s));
}

/// After deduplication every string tag is unique, as long as no input tag
/// is itself the indexed form of another tag that occurs more than once.
pub proof fn lemma_dedup_unique(nodes: Seq<JsonV>)
    requires
        forall|i: int, j: int, n: int|
            0 <= i < nodes.len() && 0 <= j < nodes.len() && 1 <= n && node_tag(nodes[i]) is Some
                && node_tag(nodes[j]) is Some && spec_count_tag(
                nodes,
                node_tag(nodes[j])->Some_0,
            ) > 1 ==> node_tag(nodes[i])->Some_0 != spec_indexed_tag(
                node_tag(nodes[j])->Some_0,
                n,
            ),
    ensures
        forall|i: int, j: int|
            0 <= i < j < nodes.len() && node_tag(spec_dedup(nodes)[i]) is Some && node_tag(
                spec_dedup(nodes)[j],
            ) is Some ==> node_tag(spec_dedup(nodes)[i]) != node_tag(spec_dedup(nodes)[j]),
{
    assert forall|i: int, j: int|
        0 <= i < j < nodes.len() && node_tag(spec_dedup(nodes)[i]) is Some && node_tag(
            spec_dedup(nodes)[j],
        ) is Some implies node_tag(spec_dedup(nodes)[i]) != node_tag(
        spec_dedup(nodes)[j],
    ) by {
        lemma_dedup_pair(nodes, i, j);
    }
}

proof fn lemma_dedup_pair(nodes: Seq<JsonV>, i: int, j: int)
    requires
        forall|i0: int, j0: int, n: int|
            0 <= i0 < nodes.len() && 0 <= j0 < nodes.len() && 1 <= n && node_tag(
                nodes[i0],
            ) is Some && node_tag(nodes[j0]) is Some && spec_count_tag(
                nodes,
                node_tag(nodes[j0])->Some_0,
            ) > 1 ==> node_tag(nodes[i0])->Some_0 != spec_indexed_tag(
                node_tag(nodes[j0])->Some_0,
                n,
            ),
        0 <= i < j < nodes.len(),
        node_tag(spec_dedup(nodes)[i]) is Some,
        node_tag(spec_dedup(nodes)[j]) is Some,
    ensures
        node_tag(spec_dedup(nodes)[i]) != node_tag(spec_dedup(nodes)[j]),
{
    reveal_strlit(" ");
    if node_tag(nodes[i]) is None {
        assert(spec_dedup(nodes)[i] == nodes[i]);
        assert(false);
    }
    if node_tag(nodes[j]) is None {
        assert(spec_dedup(nodes)[j] == nodes[j]);
        assert(false);
    }
    let ti = node_tag(nodes[i])->Some_0;
    let tj = node_tag(nodes[j])->Some_0;
    let ci = spec_count_tag(nodes, ti);
    let cj = spec_count_tag(nodes, tj);
    let pi = spec_count_tag(nodes.subrange(0, i), ti);
    let pj = spec_count_tag(nodes.subrange(0, j), tj);
    assert(nodes[i] is Obj);
    assert(nodes[j] is Obj);
    let ri = if ci > 1 && pi >= 1 {
        spec_retag(nodes[i], spec_indexed_tag(ti, pi))
    } else {
        nodes[i]
    };
    let rj = if cj > 1 && pj >= 1 {
        spec_retag(nodes[j], spec_indexed_tag(tj, pj))
    } else {
        nodes[j]
    };
    assert(spec_dedup(nodes)[i] == ri);
    assert(spec_dedup(nodes)[j] == rj);
    let gi = if ci > 1 && pi >= 1 {
        lemma_retag_tag(nodes[i], spec_indexed_tag(ti, pi));
        spec_indexed_tag(ti, pi)
    } else {
        ti
    };
    let gj = if cj > 1 && pj >= 1 {
        lemma_retag_tag(nodes[j], spec_indexed_tag(tj, pj));
        spec_indexed_tag(tj, pj)
    } else {
        tj
    };
    assert(node_tag(ri) == Some(gi));
    assert(node_tag(rj) == Some(gj));
    assert(pi >= 0 && pj >= 0) by {
        lemma_count_nonneg(nodes.subrange(0, i), ti);
        lemma_count_nonneg(nodes.subrange(0, j), tj);
    }
    if ti == tj {
        lemma_count_at(nodes, i, ti);
        lemma_count_mono(nodes, i + 1, j, ti);
        assert(pj >= pi + 1);
        lemma_count_at(nodes, j, tj);
        lemma_count_mono(nodes, j + 1, nodes.len() as int, tj);
        assert(nodes.subrange(0, nodes.len() as int) =~= nodes);
        assert(cj >= pj + 1);
        assert(cj > 1);
        assert(gj == spec_indexed_tag(tj, pj));
        if ci > 1 && pi >= 1 {
            if gi == gj {
                lemma_indexed_injective(ti, pi, tj, pj);
                assert(false);
            }
        } else {
            assert(gi == ti);
            if gi == gj {
                lemma_dec_len(pj);
                assert(spec_indexed_tag(tj, pj).len() > tj.len());
                assert(false);
            }
        }
    } else {
        if ci > 1 && pi >= 1 {
            if cj > 1 && pj >= 1 {
                if gi == gj {
                    lemma_indexed_injective(ti, pi, tj, pj);
                    assert(false);
                }
            } else {
                assert(gj == tj);
                if gi == gj {
                    assert(node_tag(nodes[j])->Some_0 == spec_indexed_tag(
                        node_tag(nodes[i])->Some_0,
                        pi,
                    ));
                    assert(false);
                }
            }
        } else {
            assert(gi == ti);
            if cj > 1 && pj >= 1 {
                if gi == gj {
                    assert(node_tag(nodes[i])->Some_0 == spec_indexed_tag(
                        node_tag(nodes[j])->Some_0,
                        pj,
                    ));
                    assert(false);
                }
            } else {
                assert(gi == ti && gj == tj);
            }
        }
    }
}

proof fn lemma_count_nonneg(nodes: Seq<JsonV>, t: Seq<char>)
    ensures
        spec_count_tag(nodes, t) >= 0,
    decreases nodes.len(),
{
    if nodes.len() > 0 {
        lemma_count_nonneg(nodes.drop_last(), t);
    }
}

/// A sequence already free of duplicate tags comes back unchanged.
pub proof fn lemma_dedup_no_duplicates(nodes: Seq<JsonV>)
    requires
        forall|i: int|
            0 <= i < nodes.len() && node_tag(nodes[i]) is Some ==> spec_count_tag(
                nodes,
                node_tag(nodes[i])->Some_0,
            ) <= 1,
    ensures
        spec_dedup(nodes) == nodes,
{
    assert(spec_dedup(nodes) =~= nodes);
}

} // verus!
