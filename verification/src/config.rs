//! The config assembler: expands `{all}` placeholders in outbound groups
//! under their group-local filter rules, strips the pre-emission `filter`
//! keys, prunes dead references to a fixpoint, sweeps empty groups, and
//! appends the decoded nodes to the template's outbounds.

use vstd::prelude::*;

use crate::error::{AppError, ErrKind, kind_of};
use crate::json::{
    Json, JsonV, jv, jv_seq, spec_obj_get, spec_obj_set, spec_obj_remove, obj_get, obj_set,
    obj_remove, as_str_chars, clone_json, mk_str_chars, lemma_jv_arr,
};
use crate::json_text::{spec_parse_json, parse_json_str};
use crate::outside::{regex_compiles, regex_matches, regex_try_match};
use crate::text::{to_chars, chars_to_string, push_all, chars_eq, eq_str};
use crate::utils::node_tag;

verus! {

/// The built-in template: a selector and an auto-test group over every node,
/// plus direct and block outbounds.
pub const TEMPLATE_BASIC: &'static str = "{\"log\":{\"level\":\"info\"},\"outbounds\":[{\"tag\":\"Proxy\",\"type\":\"selector\",\"outbounds\":[\"Auto\",\"{all}\"]},{\"tag\":\"Auto\",\"type\":\"urltest\",\"outbounds\":[\"{all}\"]},{\"tag\":\"direct\",\"type\":\"direct\"},{\"tag\":\"block\",\"type\":\"block\"}]}";

/// The tag-reference list of an entry, when it has one.
pub open spec fn entry_outbounds(e: JsonV) -> Option<Seq<JsonV>> {
    if e is Obj {
        match spec_obj_get(e->Obj_0, "outbounds"@) {
            Some(v) => match v {
                JsonV::Arr(items) => Some(items),
                _ => None,
            },
            None => None,
        }
    } else {
        None
    }
}

/// An entry the pruning rule removes: it has a reference list, and the list
/// is empty. Entries with no `outbounds` key are never candidates.
pub open spec fn removable(e: JsonV) -> bool {
    match entry_outbounds(e) {
        Some(items) => items.len() == 0,
        None => false,
    }
}

/// The tags of the nodes, in order.
pub open spec fn spec_node_tags(nodes: Seq<JsonV>) -> Seq<Seq<char>>
    decreases nodes.len(),
{
    if nodes.len() == 0 {
        seq![]
    } else {
        spec_node_tags(nodes.drop_last()) + (match node_tag(nodes.last()) {
            Some(t) => seq![t],
            None => seq![],
        })
    }
}

/// One keyword item's text; anything but a string counts as empty.
pub open spec fn str_or_empty(v: JsonV) -> Seq<char> {
    match v {
        JsonV::Str(s) => s,
        _ => Seq::<char>::empty(),
    }
}

/// Keyword items joined into one alternation pattern.
pub open spec fn spec_join_kw(ks: Seq<JsonV>) -> Seq<char>
    decreases ks.len(),
{
    if ks.len() == 0 {
        Seq::<char>::empty()
    } else if ks.len() == 1 {
        str_or_empty(ks[0])
    } else {
        spec_join_kw(ks.drop_last()) + "|"@ + str_or_empty(ks.last())
    }
}

/// The pattern of one filter rule: its keyword items `|`-joined.
pub open spec fn spec_rule_pattern(rule: JsonV) -> Seq<char> {
    if rule is Obj {
        match spec_obj_get(rule->Obj_0, "keywords"@) {
            Some(v) => match v {
                JsonV::Arr(ks) => spec_join_kw(ks),
                _ => Seq::<char>::empty(),
            },
            None => Seq::<char>::empty(),
        }
    } else {
        Seq::<char>::empty()
    }
}

/// Whether a rule removes matching tags; any other action retains them.
pub open spec fn spec_rule_excludes(rule: JsonV) -> bool {
    rule is Obj && spec_obj_get(rule->Obj_0, "action"@) == Some(JsonV::Str("exclude"@))
}

/// One rule applied to the surviving tags: a rule whose pattern the regex
/// engine refuses is skipped.
pub open spec fn spec_apply_rule(tags: Seq<Seq<char>>, rule: JsonV) -> Seq<Seq<char>> {
    if !(rule is Obj) {
        tags
    } else {
        let pat = spec_rule_pattern(rule);
        if !regex_compiles(pat) {
            tags
        } else {
            tags.filter(|t: Seq<char>| regex_matches(pat, t) != spec_rule_excludes(rule))
        }
    }
}

/// The rules applied in order from index `i`: each narrows the previous
/// result.
pub open spec fn spec_apply_rules(tags: Seq<Seq<char>>, rules: Seq<JsonV>, i: int) -> Seq<
    Seq<char>,
>
    decreases rules.len() - i,
{
    if i < 0 || i >= rules.len() {
        tags
    } else {
        spec_apply_rules(spec_apply_rule(tags, rules[i]), rules, i + 1)
    }
}

/// The filter rules of an entry, or none.
pub open spec fn spec_entry_rules(e: JsonV) -> Seq<JsonV> {
    if e is Obj {
        match spec_obj_get(e->Obj_0, "filter"@) {
            Some(v) => match v {
                JsonV::Arr(rs) => rs,
                _ => seq![],
            },
            None => seq![],
        }
    } else {
        seq![]
    }
}

/// Whether the reference list holds the placeholder.
pub open spec fn spec_has_all(items: Seq<JsonV>) -> bool {
    exists|k: int| 0 <= k < items.len() && items[k] == JsonV::Str("{all}"@)
}

/// The reference list with every placeholder occurrence replaced in place by
/// the filtered tag list; other references stay as written.
pub open spec fn spec_expand_items(items: Seq<JsonV>, tags: Seq<Seq<char>>) -> Seq<JsonV>
    decreases items.len(),
{
    if items.len() == 0 {
        seq![]
    } else {
        (if items[0] == JsonV::Str("{all}"@) {
            tags.map_values(|t: Seq<char>| JsonV::Str(t))
        } else {
            seq![items[0]]
        }) + spec_expand_items(items.drop_first(), tags)
    }
}

/// One entry with its placeholder expanded under its own filter rules;
/// entries without the placeholder are untouched even when a `filter` key is
/// present.
pub open spec fn spec_expand_entry(e: JsonV, all_tags: Seq<Seq<char>>) -> JsonV {
    match entry_outbounds(e) {
        Some(items) => {
            if spec_has_all(items) {
                let filtered = spec_apply_rules(all_tags, spec_entry_rules(e), 0);
                JsonV::Obj(
                    spec_obj_set(e->Obj_0, "outbounds"@, JsonV::Arr(spec_expand_items(items, filtered))),
                )
            } else {
                e
            }
        },
        None => e,
    }
}

/// One entry with its `filter` key removed; it never reaches the output.
pub open spec fn spec_strip_filter(e: JsonV) -> JsonV {
    if e is Obj {
        JsonV::Obj(spec_obj_remove(e->Obj_0, "filter"@))
    } else {
        e
    }
}

/// Whether some removable entry carries this tag.
pub open spec fn spec_tag_is_removed(entries: Seq<JsonV>, t: Seq<char>) -> bool {
    exists|k: int|
        0 <= k < entries.len() && removable(entries[k]) && node_tag(entries[k]) == Some(t)
}

/// One entry with references to removed tags struck from its list; an entry
/// whose list does not shrink is left as it stands.
pub open spec fn spec_strip_refs(e: JsonV, entries: Seq<JsonV>) -> JsonV {
    match entry_outbounds(e) {
        Some(items) => {
            let ni = items.filter(
                |it: JsonV| !(it is Str && spec_tag_is_removed(entries, it->Str_0)),
            );
            if ni.len() == items.len() {
                e
            } else {
                JsonV::Obj(spec_obj_set(e->Obj_0, "outbounds"@, JsonV::Arr(ni)))
            }
        },
        None => e,
    }
}

/// One pruning pass: drop every entry with an empty reference list, and
/// strike the dropped tags from every remaining list.
pub open spec fn spec_prune_pass(entries: Seq<JsonV>) -> Seq<JsonV> {
    entries.filter(|e: JsonV| !removable(e)).map_values(
        |e: JsonV| spec_strip_refs(e, entries),
    )
}

/// Whether a pass would find anything to remove.
pub open spec fn spec_has_removable(entries: Seq<JsonV>) -> bool {
    exists|k: int| 0 <= k < entries.len() && removable(entries[k])
}

/// The pruning fixpoint, bounded by `fuel` passes as a defensive cap.
pub open spec fn spec_prune(entries: Seq<JsonV>, fuel: int) -> Seq<JsonV>
    decreases fuel,
{
    if fuel <= 0 || !spec_has_removable(entries) {
        entries
    } else {
        spec_prune(spec_prune_pass(entries), fuel - 1)
    }
}

/// What assembling a parsed template with enriched nodes yields: expansion,
/// filter-key stripping, pruning to a fixpoint (100 passes at most), a final
/// sweep of empty groups, and the nodes appended — or the one fatal failure,
/// a template without an `outbounds` array.
pub open spec fn spec_assemble(doc: JsonV, nodes: Seq<JsonV>) -> Result<JsonV, ErrKind> {
    if !(doc is Obj) {
        Err(ErrKind::Missing("outbounds"@))
    } else {
        match spec_obj_get(doc->Obj_0, "outbounds"@) {
            None => Err(ErrKind::Missing("outbounds"@)),
            Some(ob) => {
                if !(ob is Arr) {
                    Err(ErrKind::Invalid("outbounds is not an array"@))
                } else {
                    let tags = spec_node_tags(nodes);
                    let expanded = ob->Arr_0.map_values(
                        |e: JsonV| spec_strip_filter(spec_expand_entry(e, tags)),
                    );
                    let pruned = spec_prune(expanded, 100);
                    let swept = pruned.filter(|e: JsonV| !removable(e));
                    Ok(
                        JsonV::Obj(
                            spec_obj_set(doc->Obj_0, "outbounds"@, JsonV::Arr(swept + nodes)),
                        ),
                    )
                }
            },
        }
    }
}

/// What processing yields: the custom template when it parses, else the
/// built-in one, assembled with the nodes.
pub open spec fn spec_process_config(
    nodes: Seq<JsonV>,
    custom: Option<Seq<char>>,
) -> Result<JsonV, ErrKind> {
    let doc = match custom {
        Some(c) => match spec_parse_json(c) {
            Some(d) => Some(d),
            None => spec_parse_json(TEMPLATE_BASIC@),
        },
        None => spec_parse_json(TEMPLATE_BASIC@),
    };
    match doc {
        None => Err(ErrKind::Json),
        Some(d) => spec_assemble(d, nodes),
    }
}

fn is_removable(e: &Json) -> (r: bool)
    ensures
        r == removable(jv(*e)),
{
    match obj_get(e, "outbounds") {
        Some(v) => {
            match v {
                Json::Arr(a) => {
                    proof {
                        lemma_jv_arr(*a);
                    }
                    a.len() == 0
                },
                _ => false,
            }
        },
        None => false,
    }
}

fn entry_items<'a>(e: &'a Json) -> (r: Option<&'a Vec<Json>>)
    ensures
        match r {
            Some(a) => entry_outbounds(jv(*e)) == Some(jv_seq(a@)),
            None => entry_outbounds(jv(*e)) is None,
        },
{
    match obj_get(e, "outbounds") {
        Some(v) => {
            match v {
                Json::Arr(a) => {
                    proof {
                        lemma_jv_arr(*a);
                        assert(jv_seq(a@) =~= Seq::new(a@.len(), |i: int| jv(a@[i])));
                    }
                    Some(a)
                },
                _ => None,
            }
        },
        None => None,
    }
}

fn node_tag_of(e: &Json) -> (r: Option<Vec<char>>)
    ensures
        match r {
            Some(t) => node_tag(jv(*e)) == Some(t@),
            None => node_tag(jv(*e)) is None,
        },
{
    match obj_get(e, "tag") {
        Some(v) => as_str_chars(v),
        None => None,
    }
}

/// The tags of the nodes, in order.
pub fn node_tags(nodes: &Vec<Json>) -> (r: Vec<Vec<char>>)
    ensures
        tags_view(r@) == spec_node_tags(jv_seq(nodes@)),
{
    let mut out: Vec<Vec<char>> = Vec::new();
    let mut i: usize = 0;
    assert(jv_seq(nodes@).subrange(0, 0) =~= Seq::<JsonV>::empty());
    while i < nodes.len()
        invariant
            i <= nodes@.len(),
            tags_view(out@) == spec_node_tags(jv_seq(nodes@).subrange(0, i as int)),
        decreases nodes@.len() - i,
    {
        let ghost pre = jv_seq(nodes@).subrange(0, i as int);
        let ghost post = jv_seq(nodes@).subrange(0, i + 1);
        assert(post.drop_last() =~= pre);
        assert(post.last() == jv(nodes@[i as int]));
        match node_tag_of(&nodes[i]) {
            Some(t) => {
                out.push(t);
                assert(tags_view(out@) =~= spec_node_tags(post));
            },
            None => {
                assert(tags_view(out@) =~= spec_node_tags(post));
            },
        }
        i += 1;
    }
    assert(jv_seq(nodes@).subrange(0, nodes@.len() as int) =~= jv_seq(nodes@));
    out
}

/// The views of built tag lists.
pub open spec fn tags_view(v: Seq<Vec<char>>) -> Seq<Seq<char>> {
    Seq::new(v.len(), |i: int| v[i]@)
}

fn join_kw(ks: &Vec<Json>) -> (r: Vec<char>)
    ensures
        r@ == spec_join_kw(jv_seq(ks@)),
{
    let mut out: Vec<char> = Vec::new();
    let mut i: usize = 0;
    assert(jv_seq(ks@).subrange(0, 0) =~= Seq::<JsonV>::empty());
    while i < ks.len()
        invariant
            i <= ks@.len(),
            out@ == spec_join_kw(jv_seq(ks@).subrange(0, i as int)),
        decreases ks@.len() - i,
    {
        let ghost pre = jv_seq(ks@).subrange(0, i as int);
        let ghost post = jv_seq(ks@).subrange(0, i + 1);
        assert(post.drop_last() =~= pre);
        assert(post.last() == jv(ks@[i as int]));
        if i > 0 {
            out.push('|');
        }
        match as_str_chars(&ks[i]) {
            Some(s) => {
                push_all(&mut out, &s);
            },
            None => {
                proof {
                    match jv(ks@[i as int]) {
                        JsonV::Null => {},
                        JsonV::Bool(_) => {},
                        JsonV::Num(_) => {},
                        JsonV::Str(_) => {},
                        JsonV::Arr(_) => {},
                        JsonV::Obj(_) => {},
                    }
                }
            },
        }
        proof {
            reveal_strlit("|");
            assert("|"@ =~= seq!['|']);
            if i == 0 {
                assert(out@ =~= spec_join_kw(post));
            } else {
                assert(out@ =~= spec_join_kw(post));
            }
        }
        i += 1;
    }
    assert(jv_seq(ks@).subrange(0, ks@.len() as int) =~= jv_seq(ks@));
    out
}

fn apply_rule(tags: Vec<Vec<char>>, rule: &Json) -> (r: Vec<Vec<char>>)
    ensures
        tags_view(r@) == spec_apply_rule(tags_view(tags@), jv(*rule)),
{
    let is_obj = match rule {
        Json::Obj(_) => true,
        _ => false,
    };
    if !is_obj {
        proof {
            match jv(*rule) {
                JsonV::Null => {},
                JsonV::Bool(_) => {},
                JsonV::Num(_) => {},
                JsonV::Str(_) => {},
                JsonV::Arr(_) => {},
                JsonV::Obj(_) => {},
            }
        }
        return tags;
    }
    let pat_chars = match obj_get(rule, "keywords") {
        Some(v) => {
            match v {
                Json::Arr(ks) => {
                    proof {
                        lemma_jv_arr(*ks);
                        assert(jv_seq(ks@) =~= Seq::new(ks@.len(), |i: int| jv(ks@[i])));
                    }
                    join_kw(ks)
                },
                _ => Vec::<char>::new(),
            }
        },
        None => Vec::<char>::new(),
    };
    assert(pat_chars@ == spec_rule_pattern(jv(*rule)));
    let pat = chars_to_string(&pat_chars);
    let compiles = match regex_try_match(pat.as_str(), "") {
        Some(_) => true,
        None => false,
    };
    if !compiles {
        return tags;
    }
    let excludes = match obj_get(rule, "action") {
        Some(v) => crate::json::is_str(v, "exclude"),
        None => false,
    };
    assert(excludes == spec_rule_excludes(jv(*rule)));
    let mut out: Vec<Vec<char>> = Vec::new();
    let mut i: usize = 0;
    proof {
        reveal(Seq::filter);
    }
    assert(tags_view(tags@).subrange(0, 0) =~= Seq::<Seq<char>>::empty());
    assert(Seq::<Seq<char>>::empty().filter(
        |t: Seq<char>| regex_matches(pat@, t) != spec_rule_excludes(jv(*rule)),
    ) =~= Seq::<Seq<char>>::empty());
    assert(tags_view(out@) =~= Seq::<Seq<char>>::empty());
    while i < tags.len()
        invariant
            i <= tags@.len(),
            pat@ == spec_rule_pattern(jv(*rule)),
            regex_compiles(pat@),
            excludes == spec_rule_excludes(jv(*rule)),
            tags_view(out@) == tags_view(tags@).subrange(0, i as int).filter(
                |t: Seq<char>| regex_matches(pat@, t) != spec_rule_excludes(jv(*rule)),
            ),
        decreases tags@.len() - i,
    {
        let ghost pre = tags_view(tags@).subrange(0, i as int);
        let ghost post = tags_view(tags@).subrange(0, i + 1);
        proof {
            reveal(Seq::filter);
        }
        assert(post.drop_last() =~= pre);
        assert(post.last() == tags@[i as int]@);
        let ts = chars_to_string(&tags[i]);
        let m = match regex_try_match(pat.as_str(), ts.as_str()) {
            Some(m) => m,
            None => false,
        };
        if m != excludes {
            let t = crate::text::sub_chars(&tags[i], 0, tags[i].len());
            assert(t@ =~= tags@[i as int]@);
            out.push(t);
        }
        assert(tags_view(out@) =~= post.filter(
            |t: Seq<char>| regex_matches(pat@, t) != spec_rule_excludes(jv(*rule)),
        ));
        i += 1;
    }
    assert(tags_view(tags@).subrange(0, tags@.len() as int) =~= tags_view(tags@));
    out
}

fn apply_rules(tags: Vec<Vec<char>>, rules: &Vec<Json>) -> (r: Vec<Vec<char>>)
    ensures
        tags_view(r@) == spec_apply_rules(tags_view(tags@), jv_seq(rules@), 0),
{
    let ghost tags0 = tags_view(tags@);
    let mut cur = tags;
    let mut i: usize = 0;
    while i < rules.len()
        invariant
            i <= rules@.len(),
            spec_apply_rules(tags_view(cur@), jv_seq(rules@), i as int) == spec_apply_rules(
                tags0,
                jv_seq(rules@),
                0,
            ),
        decreases rules@.len() - i,
    {
        cur = apply_rule(cur, &rules[i]);
        i += 1;
    }
    cur
}


fn clone_tags(tags: &Vec<Vec<char>>) -> (r: Vec<Vec<char>>)
    ensures
        tags_view(r@) == tags_view(tags@),
{
    let mut out: Vec<Vec<char>> = Vec::new();
    let mut i: usize = 0;
    while i < tags.len()
        invariant
            i <= tags@.len(),
            out@.len() == i,
            forall|k: int| 0 <= k < i ==> out@[k]@ == tags@[k]@,
        decreases tags@.len() - i,
    {
        let t = crate::text::sub_chars(&tags[i], 0, tags[i].len());
        assert(t@ =~= tags@[i as int]@);
        out.push(t);
        i += 1;
    }
    assert(tags_view(out@) =~= tags_view(tags@));
    out
}

fn has_all(items: &Vec<Json>) -> (r: bool)
    ensures
        r == spec_has_all(jv_seq(items@)),
{
    let mut i: usize = 0;
    while i < items.len()
        invariant
            i <= items@.len(),
            forall|k: int| 0 <= k < i ==> jv(items@[k]) != JsonV::Str("{all}"@),
        decreases items@.len() - i,
    {
        if crate::json::is_str(&items[i], "{all}") {
            assert(jv_seq(items@)[i as int] == JsonV::Str("{all}"@));
            return true;
        }
        i += 1;
    }
    assert(forall|k: int| 0 <= k < jv_seq(items@).len() ==> jv_seq(items@)[k] != JsonV::Str(
        "{all}"@,
    ));
    false
}

fn expand_items(items: &Vec<Json>, tags: &Vec<Vec<char>>) -> (r: Vec<Json>)
    ensures
        jv_seq(r@) == spec_expand_items(jv_seq(items@), tags_view(tags@)),
{
    let ghost whole = jv_seq(items@);
    let ghost tv = tags_view(tags@);
    let mut out: Vec<Json> = Vec::new();
    let mut i: usize = 0;
    assert(whole.subrange(0, whole.len() as int) =~= whole);
    assert(jv_seq(out@) =~= Seq::<JsonV>::empty());
    while i < items.len()
        invariant
            i <= items@.len(),
            whole == jv_seq(items@),
            tv == tags_view(tags@),
            spec_expand_items(whole, tv) == jv_seq(out@) + spec_expand_items(
                whole.subrange(i as int, whole.len() as int),
                tv,
            ),
        decreases items@.len() - i,
    {
        let ghost rest = whole.subrange(i as int, whole.len() as int);
        assert(rest[0] == jv(items@[i as int]));
        assert(rest.drop_first() =~= whole.subrange(i + 1, whole.len() as int));
        let ghost out_pre = jv_seq(out@);
        if crate::json::is_str(&items[i], "{all}") {
            let mut j: usize = 0;
            while j < tags.len()
                invariant
                    j <= tags@.len(),
                    tv == tags_view(tags@),
                    jv_seq(out@) == out_pre + tv.subrange(0, j as int).map_values(
                        |t: Seq<char>| JsonV::Str(t),
                    ),
                decreases tags@.len() - j,
            {
                let ghost out_old = out@;
                let s = mk_str_chars(&tags[j]);
                out.push(s);
                proof {
                    assert(tv[j as int] == tags@[j as int]@);
                    assert(out@ == out_old.push(s));
                    assert(jv_seq(out@) =~= jv_seq(out_old).push(JsonV::Str(tv[j as int])));
                    assert(tv.subrange(0, j + 1).drop_last() =~= tv.subrange(0, j as int));
                    assert(tv.subrange(0, j + 1).map_values(|t: Seq<char>| JsonV::Str(t))
                        =~= tv.subrange(0, j as int).map_values(|t: Seq<char>| JsonV::Str(t)).push(
                        JsonV::Str(tv[j as int]),
                    ));
                }
                assert(jv_seq(out@) =~= out_pre + tv.subrange(0, j + 1).map_values(
                    |t: Seq<char>| JsonV::Str(t),
                ));
                j += 1;
            }
            proof {
                assert(tv.subrange(0, tv.len() as int) =~= tv);
                assert(jv_seq(out@) =~= out_pre + tv.map_values(|t: Seq<char>| JsonV::Str(t)));
                assert((out_pre + tv.map_values(|t: Seq<char>| JsonV::Str(t)))
                    + spec_expand_items(rest.drop_first(), tv) =~= out_pre + (tv.map_values(
                    |t: Seq<char>| JsonV::Str(t),
                ) + spec_expand_items(rest.drop_first(), tv)));
            }
        } else {
            let c = clone_json(&items[i]);
            out.push(c);
            proof {
                assert(jv_seq(out@) =~= out_pre + seq![jv(items@[i as int])]);
                assert((out_pre + seq![jv(items@[i as int])]) + spec_expand_items(
                    rest.drop_first(),
                    tv,
                ) =~= out_pre + (seq![jv(items@[i as int])] + spec_expand_items(
                    rest.drop_first(),
                    tv,
                )));
            }
        }
        i += 1;
    }
    proof {
        assert(whole.subrange(whole.len() as int, whole.len() as int) =~= Seq::<JsonV>::empty());
        assert(jv_seq(out@) =~= jv_seq(out@) + Seq::<JsonV>::empty());
    }
    out
}

fn expand_entry(e: &Json, all_tags: &Vec<Vec<char>>) -> (r: Json)
    ensures
        jv(r) == spec_expand_entry(jv(*e), tags_view(all_tags@)),
{
    let items = match entry_items(e) {
        Some(a) => a,
        None => {
            return clone_json(e);
        },
    };
    if !has_all(items) {
        return clone_json(e);
    }
    let cloned = clone_tags(all_tags);
    let filtered = match obj_get(e, "filter") {
        Some(v) => {
            match v {
                Json::Arr(rs) => {
                    proof {
                        lemma_jv_arr(*rs);
                        assert(jv_seq(rs@) =~= Seq::new(rs@.len(), |i: int| jv(rs@[i])));
                    }
                    apply_rules(cloned, rs)
                },
                _ => {
                    assert(spec_entry_rules(jv(*e)) =~= Seq::<JsonV>::empty());
                    cloned
                },
            }
        },
        None => {
            assert(spec_entry_rules(jv(*e)) =~= Seq::<JsonV>::empty());
            cloned
        },
    };
    assert(tags_view(filtered@) == spec_apply_rules(
        tags_view(all_tags@),
        spec_entry_rules(jv(*e)),
        0,
    ));
    let ni = expand_items(items, &filtered);
    proof {
        lemma_jv_arr(ni);
        assert(jv(Json::Arr(ni))->Arr_0 =~= jv_seq(ni@));
    }
    let arr = Json::Arr(ni);
    let mut ne = clone_json(e);
    obj_set(&mut ne, "outbounds", arr);
    ne
}

fn strip_filter(e: &Json) -> (r: Json)
    ensures
        jv(r) == spec_strip_filter(jv(*e)),
{
    let mut c = clone_json(e);
    proof {
        match *e {
            Json::Null => {},
            Json::Bool(_) => {},
            Json::Num(_) => {},
            Json::Str(_) => {},
            Json::Arr(_) => {},
            Json::Obj(_) => {},
        }
    }
    obj_remove(&mut c, "filter");
    c
}

fn tag_is_removed(entries: &Vec<Json>, t: &Vec<char>) -> (r: bool)
    ensures
        r == spec_tag_is_removed(jv_seq(entries@), t@),
{
    let mut k: usize = 0;
    while k < entries.len()
        invariant
            k <= entries@.len(),
            forall|j: int| 0 <= j < k
                ==> !(removable(jv(entries@[j])) && node_tag(jv(entries@[j])) == Some(t@)),
        decreases entries@.len() - k,
    {
        if is_removable(&entries[k]) {
            match node_tag_of(&entries[k]) {
                Some(et) => {
                    if chars_eq(&et, t) {
                        assert(removable(jv_seq(entries@)[k as int]) && node_tag(
                            jv_seq(entries@)[k as int],
                        ) == Some(t@));
                        return true;
                    }
                },
                None => {},
            }
        }
        k += 1;
    }
    assert(forall|j: int| 0 <= j < jv_seq(entries@).len()
        ==> !(removable(jv_seq(entries@)[j]) && node_tag(jv_seq(entries@)[j]) == Some(t@)));
    false
}

fn strip_refs(e: &Json, entries: &Vec<Json>) -> (r: Json)
    ensures
        jv(r) == spec_strip_refs(jv(*e), jv_seq(entries@)),
{
    let items = match entry_items(e) {
        Some(a) => a,
        None => {
            return clone_json(e);
        },
    };
    let ghost ev = jv_seq(entries@);
    let ghost iv = jv_seq(items@);
    let mut ni: Vec<Json> = Vec::new();
    let mut k: usize = 0;
    proof {
        reveal(Seq::filter);
    }
    assert(iv.subrange(0, 0) =~= Seq::<JsonV>::empty());
    assert(Seq::<JsonV>::empty().filter(
        |it: JsonV| !(it is Str && spec_tag_is_removed(ev, it->Str_0)),
    ) =~= Seq::<JsonV>::empty());
    assert(jv_seq(ni@) =~= Seq::<JsonV>::empty());
    while k < items.len()
        invariant
            k <= items@.len(),
            ev == jv_seq(entries@),
            iv == jv_seq(items@),
            jv_seq(ni@) == iv.subrange(0, k as int).filter(
                |it: JsonV| !(it is Str && spec_tag_is_removed(ev, it->Str_0)),
            ),
            ni@.len() <= k,
        decreases items@.len() - k,
    {
        let ghost pre = iv.subrange(0, k as int);
        let ghost post = iv.subrange(0, k + 1);
        proof {
            reveal(Seq::filter);
        }
        assert(post.drop_last() =~= pre);
        assert(post.last() == jv(items@[k as int]));
        let keep = match as_str_chars(&items[k]) {
            Some(t) => !tag_is_removed(entries, &t),
            None => true,
        };
        assert(keep == !(jv(items@[k as int]) is Str && spec_tag_is_removed(
            ev,
            jv(items@[k as int])->Str_0,
        )));
        if keep {
            let c = clone_json(&items[k]);
            ni.push(c);
        }
        assert(jv_seq(ni@) =~= post.filter(
            |it: JsonV| !(it is Str && spec_tag_is_removed(ev, it->Str_0)),
        ));
        k += 1;
    }
    assert(iv.subrange(0, iv.len() as int) =~= iv);
    if ni.len() == items.len() {
        clone_json(e)
    } else {
        proof {
            lemma_jv_arr(ni);
            assert(jv(Json::Arr(ni))->Arr_0 =~= jv_seq(ni@));
        }
        let arr = Json::Arr(ni);
        let mut ne = clone_json(e);
        obj_set(&mut ne, "outbounds", arr);
        ne
    }
}

fn has_removable(entries: &Vec<Json>) -> (r: bool)
    ensures
        r == spec_has_removable(jv_seq(entries@)),
{
    let mut k: usize = 0;
    while k < entries.len()
        invariant
            k <= entries@.len(),
            forall|j: int| 0 <= j < k ==> !removable(jv(entries@[j])),
        decreases entries@.len() - k,
    {
        if is_removable(&entries[k]) {
            assert(removable(jv_seq(entries@)[k as int]));
            return true;
        }
        k += 1;
    }
    assert(forall|j: int| 0 <= j < jv_seq(entries@).len() ==> !removable(jv_seq(entries@)[j]));
    false
}

fn prune_pass(entries: &Vec<Json>) -> (r: Vec<Json>)
    ensures
        jv_seq(r@) == spec_prune_pass(jv_seq(entries@)),
{
    let ghost ev = jv_seq(entries@);
    let mut out: Vec<Json> = Vec::new();
    let mut k: usize = 0;
    proof {
        reveal(Seq::filter);
    }
    assert(ev.subrange(0, 0) =~= Seq::<JsonV>::empty());
    assert(Seq::<JsonV>::empty().filter(|e: JsonV| !removable(e)) =~= Seq::<JsonV>::empty());
    assert(jv_seq(out@) =~= Seq::<JsonV>::empty());
    assert(Seq::<JsonV>::empty().map_values(|e: JsonV| spec_strip_refs(e, ev)) =~= Seq::<
        JsonV,
    >::empty());
    while k < entries.len()
        invariant
            k <= entries@.len(),
            ev == jv_seq(entries@),
            jv_seq(out@) == ev.subrange(0, k as int).filter(|e: JsonV| !removable(e)).map_values(
                |e: JsonV| spec_strip_refs(e, ev),
            ),
        decreases entries@.len() - k,
    {
        let ghost pre = ev.subrange(0, k as int);
        let ghost post = ev.subrange(0, k + 1);
        proof {
            reveal(Seq::filter);
        }
        assert(post.drop_last() =~= pre);
        assert(post.last() == jv(entries@[k as int]));
        if !is_removable(&entries[k]) {
            let s = strip_refs(&entries[k], entries);
            out.push(s);
            assert(post.filter(|e: JsonV| !removable(e)) =~= pre.filter(
                |e: JsonV| !removable(e),
            ).push(jv(entries@[k as int])));
            proof {
                assert(post.filter(|e: JsonV| !removable(e)).map_values(
                    |e: JsonV| spec_strip_refs(e, ev),
                ) =~= pre.filter(|e: JsonV| !removable(e)).map_values(
                    |e: JsonV| spec_strip_refs(e, ev),
                ).push(spec_strip_refs(jv(entries@[k as int]), ev)));
            }
            assert(jv_seq(out@) =~= post.filter(|e: JsonV| !removable(e)).map_values(
                |e: JsonV| spec_strip_refs(e, ev),
            ));
        } else {
            assert(post.filter(|e: JsonV| !removable(e)) =~= pre.filter(
                |e: JsonV| !removable(e),
            ));
        }
        k += 1;
    }
    assert(ev.subrange(0, ev.len() as int) =~= ev);
    out
}

fn sweep(entries: &Vec<Json>) -> (r: Vec<Json>)
    ensures
        jv_seq(r@) == jv_seq(entries@).filter(|e: JsonV| !removable(e)),
{
    let ghost ev = jv_seq(entries@);
    let mut out: Vec<Json> = Vec::new();
    let mut k: usize = 0;
    proof {
        reveal(Seq::filter);
    }
    assert(ev.subrange(0, 0) =~= Seq::<JsonV>::empty());
    assert(Seq::<JsonV>::empty().filter(|e: JsonV| !removable(e)) =~= Seq::<JsonV>::empty());
    assert(jv_seq(out@) =~= Seq::<JsonV>::empty());
    while k < entries.len()
        invariant
            k <= entries@.len(),
            ev == jv_seq(entries@),
            jv_seq(out@) == ev.subrange(0, k as int).filter(|e: JsonV| !removable(e)),
        decreases entries@.len() - k,
    {
        let ghost pre = ev.subrange(0, k as int);
        let ghost post = ev.subrange(0, k + 1);
        proof {
            reveal(Seq::filter);
        }
        assert(post.drop_last() =~= pre);
        assert(post.last() == jv(entries@[k as int]));
        if !is_removable(&entries[k]) {
            let c = clone_json(&entries[k]);
            out.push(c);
        }
        assert(jv_seq(out@) =~= post.filter(|e: JsonV| !removable(e)));
        k += 1;
    }
    assert(ev.subrange(0, ev.len() as int) =~= ev);
    out
}

fn prune(entries: Vec<Json>) -> (r: Vec<Json>)
    ensures
        jv_seq(r@) == spec_prune(jv_seq(entries@), 100),
{
    let ghost orig = jv_seq(entries@);
    let mut cur = entries;
    let mut iter: usize = 0;
    while iter < 100
        invariant
            iter <= 100,
            orig == jv_seq(entries@),
            spec_prune(jv_seq(cur@), 100 - iter) == spec_prune(orig, 100),
        decreases 100 - iter,
    {
        if !has_removable(&cur) {
            assert(spec_prune(jv_seq(cur@), 100 - iter) == jv_seq(cur@));
            return cur;
        }
        let next = prune_pass(&cur);
        assert(spec_prune(jv_seq(next@), 100 - iter - 1) == spec_prune(jv_seq(cur@), 100 - iter));
        cur = next;
        iter += 1;
    }
    assert(spec_prune(jv_seq(cur@), 0) == jv_seq(cur@));
    cur
}

/// Assembles a parsed template with the enriched nodes: placeholder
/// expansion under group-local rules, filter-key stripping, pruning, the
/// final sweep, and the nodes appended. A template without an `outbounds`
/// array is the one fatal failure.
pub fn assemble(doc: &Json, nodes: &Vec<Json>) -> (r: Result<Json, AppError>)
    ensures
        match r {
            Ok(c) => spec_assemble(jv(*doc), jv_seq(nodes@)) == Ok::<_, ErrKind>(jv(c)),
            Err(e) => spec_assemble(jv(*doc), jv_seq(nodes@)) == Err::<JsonV, _>(kind_of(e)),
        },
{
    let is_obj = match doc {
        Json::Obj(_) => true,
        _ => false,
    };
    if !is_obj {
        proof {
            match *doc {
                Json::Null => {},
                Json::Bool(_) => {},
                Json::Num(_) => {},
                Json::Str(_) => {},
                Json::Arr(_) => {},
                Json::Obj(_) => {},
            }
        }
        return Err(AppError::MissingField("outbounds"));
    }
    let entries = match obj_get(doc, "outbounds") {
        Some(v) => {
            match v {
                Json::Arr(a) => {
                    proof {
                        lemma_jv_arr(*a);
                        assert(jv_seq(a@) =~= Seq::new(a@.len(), |i: int| jv(a@[i])));
                    }
                    a
                },
                _ => {
                    return Err(AppError::InvalidFormat("outbounds is not an array".to_owned()));
                },
            }
        },
        None => {
            return Err(AppError::MissingField("outbounds"));
        },
    };
    let tags = node_tags(nodes);
    let ghost tv = spec_node_tags(jv_seq(nodes@));
    let mut expanded: Vec<Json> = Vec::new();
    let mut k: usize = 0;
    while k < entries.len()
        invariant
            k <= entries@.len(),
            tags_view(tags@) == tv,
            expanded@.len() == k,
            forall|j: int| 0 <= j < k
                ==> jv(expanded@[j]) == spec_strip_filter(spec_expand_entry(jv(entries@[j]), tv)),
        decreases entries@.len() - k,
    {
        let x = expand_entry(&entries[k], &tags);
        let y = strip_filter(&x);
        expanded.push(y);
        k += 1;
    }
    proof {
        assert(jv_seq(expanded@) =~= jv_seq(entries@).map_values(
            |e: JsonV| spec_strip_filter(spec_expand_entry(e, tv)),
        ));
    }
    let pruned = prune(expanded);
    let swept = sweep(&pruned);
    let mut final_entries = swept;
    let mut k: usize = 0;
    let ghost swept_v = jv_seq(final_entries@);
    while k < nodes.len()
        invariant
            k <= nodes@.len(),
            jv_seq(final_entries@) == swept_v + jv_seq(nodes@).subrange(0, k as int),
        decreases nodes@.len() - k,
    {
        let ghost fe_old = final_entries@;
        let c = clone_json(&nodes[k]);
        final_entries.push(c);
        proof {
            assert(jv_seq(final_entries@) =~= jv_seq(fe_old).push(jv(nodes@[k as int])));
            assert(jv_seq(nodes@).subrange(0, k + 1).drop_last() =~= jv_seq(nodes@).subrange(
                0,
                k as int,
            ));
            assert(jv_seq(nodes@).subrange(0, k + 1).last() == jv(nodes@[k as int]));
        }
        assert(jv_seq(final_entries@) =~= swept_v + jv_seq(nodes@).subrange(0, k + 1));
        k += 1;
    }
    proof {
        assert(jv_seq(nodes@).subrange(0, nodes@.len() as int) =~= jv_seq(nodes@));
    }
    proof {
        lemma_jv_arr(final_entries);
        assert(jv(Json::Arr(final_entries))->Arr_0 =~= jv_seq(final_entries@));
    }
    let arr = Json::Arr(final_entries);
    let mut result = clone_json(doc);
    obj_set(&mut result, "outbounds", arr);
    Ok(result)
}

/// The view of an optional template text.
pub open spec fn opt_str_view(c: Option<&str>) -> Option<Seq<char>> {
    match c {
        Some(s) => Some(s@),
        None => None,
    }
}

/// Merges decoded nodes into a template: the custom template when given and
/// parseable, else the built-in one (every index names the single built-in).
pub fn process_config(nodes: Vec<Json>, template_index: usize, custom_template: Option<&str>) -> (r:
    Result<Json, AppError>)
    ensures
        match r {
            Ok(c) => spec_process_config(jv_seq(nodes@), opt_str_view(custom_template)) == Ok::<
                _,
                ErrKind,
            >(jv(c)),
            Err(e) => spec_process_config(jv_seq(nodes@), opt_str_view(custom_template)) == Err::<
                JsonV,
                _,
            >(kind_of(e)),
        },
{
    let _ = template_index;
    let doc_opt = match custom_template {
        Some(c) => {
            match parse_json_str(c) {
                Some(d) => Some(d),
                None => parse_json_str(TEMPLATE_BASIC),
            }
        },
        None => parse_json_str(TEMPLATE_BASIC),
    };
    match doc_opt {
        None => Err(AppError::Json),
        Some(d) => assemble(&d, &nodes),
    }
}


/// The nodes all bodies decode to, in body order then line order.
pub open spec fn spec_all_nodes(bodies: Seq<Seq<char>>, i: int) -> Seq<JsonV>
    decreases bodies.len() - i,
{
    if i < 0 || i >= bodies.len() {
        seq![]
    } else {
        crate::parsers::spec_subscription(bodies[i]).0 + spec_all_nodes(bodies, i + 1)
    }
}

/// What the whole conversion yields for given subscription bodies and
/// options: every body decoded and dispatched, the nodes enriched, and the
/// chosen template assembled — or the failure owed: no nodes at all, or a
/// template without an `outbounds` array.
pub open spec fn spec_convert(
    bodies: Seq<Seq<char>>,
    emoji: bool,
    prefix: Seq<char>,
    exclude_kw: Seq<char>,
    custom: Option<Seq<char>>,
) -> Result<JsonV, ErrKind> {
    let all = spec_all_nodes(bodies, 0);
    if all.len() == 0 {
        Err(ErrKind::Invalid("No nodes parsed from any subscription"@))
    } else {
        spec_process_config(crate::utils::spec_enrich(all, emoji, prefix, exclude_kw), custom)
    }
}

/// Runs the whole pipeline on fetched subscription bodies: decode, dispatch,
/// enrich, assemble. A request with no surviving node fails as a whole.
pub fn convert(
    bodies: &Vec<String>,
    emoji: bool,
    prefix: &str,
    exclude_kw: &str,
    template_index: usize,
    custom_template: Option<&str>,
) -> (r: Result<Json, AppError>)
    ensures
        match r {
            Ok(c) => spec_convert(
                crate::parsers::strs_view(bodies@),
                emoji,
                prefix@,
                exclude_kw@,
                opt_str_view(custom_template),
            ) == Ok::<_, ErrKind>(jv(c)),
            Err(e) => spec_convert(
                crate::parsers::strs_view(bodies@),
                emoji,
                prefix@,
                exclude_kw@,
                opt_str_view(custom_template),
            ) == Err::<JsonV, _>(kind_of(e)),
        },
{
    let ghost bv = crate::parsers::strs_view(bodies@);
    let mut all: Vec<Json> = Vec::new();
    let mut i: usize = 0;
    assert(jv_seq(all@) =~= Seq::<JsonV>::empty());
    while i < bodies.len()
        invariant
            i <= bodies@.len(),
            bv == crate::parsers::strs_view(bodies@),
            jv_seq(all@) + spec_all_nodes(bv, i as int) == spec_all_nodes(bv, 0),
        decreases bodies@.len() - i,
    {
        let ghost pre = jv_seq(all@);
        let (mut nodes, _urls) = crate::parsers::parse_subscription(bodies[i].as_str());
        let ghost got = crate::json::jv_seq(nodes@);
        all.append(&mut nodes);
        proof {
            assert(jv_seq(all@) =~= pre + got);
            assert(got == crate::parsers::spec_subscription(bv[i as int]).0);
            let rest = spec_all_nodes(bv, i + 1);
            assert((pre + got) + rest =~= pre + (got + rest));
        }
        i += 1;
    }
    proof {
        assert(spec_all_nodes(bv, bodies@.len() as int) =~= Seq::<JsonV>::empty());
        assert(jv_seq(all@) =~= jv_seq(all@) + Seq::<JsonV>::empty());
    }
    if all.len() == 0 {
        return Err(AppError::InvalidFormat("No nodes parsed from any subscription".to_owned()));
    }
    let enriched = crate::utils::enrich_nodes(all, emoji, prefix, exclude_kw);
    process_config(enriched, template_index, custom_template)
}

/// Expanding a group that holds the placeholder but carries no filter rules
/// substitutes the full, order-preserving node-tag list for the placeholder.
pub proof fn lemma_expand_no_filter(e: JsonV, tags: Seq<Seq<char>>)
    requires
        entry_outbounds(e) is Some,
        spec_has_all(entry_outbounds(e)->Some_0),
        spec_entry_rules(e) == Seq::<JsonV>::empty(),
    ensures
        spec_apply_rules(tags, spec_entry_rules(e), 0) == tags,
        spec_expand_entry(e, tags) == JsonV::Obj(
            spec_obj_set(
                e->Obj_0,
                "outbounds"@,
                JsonV::Arr(spec_expand_items(entry_outbounds(e)->Some_0, tags)),
            ),
        ),
{
}

/// A list that is exactly the placeholder expands to exactly the tag list.
pub proof fn lemma_expand_items_placeholder(tags: Seq<Seq<char>>)
    ensures
        spec_expand_items(seq![JsonV::Str("{all}"@)], tags) == tags.map_values(
            |t: Seq<char>| JsonV::Str(t),
        ),
{
    let items = seq![JsonV::Str("{all}"@)];
    assert(items.drop_first() =~= Seq::<JsonV>::empty());
    assert(spec_expand_items(items.drop_first(), tags) =~= Seq::<JsonV>::empty());
    assert(spec_expand_items(items, tags) =~= tags.map_values(|t: Seq<char>| JsonV::Str(t)));
}

proof fn lemma_apply_rules_shift(tags: Seq<Seq<char>>, r1: Seq<JsonV>, r2: Seq<JsonV>, j: int)
    requires
        0 <= j,
    ensures
        spec_apply_rules(tags, r1 + r2, r1.len() + j) == spec_apply_rules(tags, r2, j),
    decreases r2.len() - j,
{
    if j < r2.len() {
        assert((r1 + r2)[r1.len() + j] == r2[j]);
        lemma_apply_rules_shift(spec_apply_rule(tags, r2[j]), r1, r2, j + 1);
    }
}

proof fn lemma_apply_rules_append_from(
    tags: Seq<Seq<char>>,
    r1: Seq<JsonV>,
    r2: Seq<JsonV>,
    i: int,
)
    requires
        0 <= i <= r1.len(),
    ensures
        spec_apply_rules(tags, r1 + r2, i) == spec_apply_rules(
            spec_apply_rules(tags, r1, i),
            r2,
            0,
        ),
    decreases r1.len() - i,
{
    if i == r1.len() {
        lemma_apply_rules_shift(tags, r1, r2, 0);
    } else {
        assert((r1 + r2)[i] == r1[i]);
        lemma_apply_rules_append_from(spec_apply_rule(tags, r1[i]), r1, r2, i + 1);
    }
}

/// Filter rules compose by sequential narrowing: running one rule list after
/// another equals running their concatenation.
pub proof fn lemma_apply_rules_compose(tags: Seq<Seq<char>>, r1: Seq<JsonV>, r2: Seq<JsonV>)
    ensures
        spec_apply_rules(tags, r1 + r2, 0) == spec_apply_rules(
            spec_apply_rules(tags, r1, 0),
            r2,
            0,
        ),
{
    lemma_apply_rules_append_from(tags, r1, r2, 0);
}

proof fn lemma_filter_removable_len(entries: Seq<JsonV>)
    ensures
        entries.filter(|e: JsonV| !removable(e)).len() <= entries.len(),
        spec_has_removable(entries) ==> entries.filter(|e: JsonV| !removable(e)).len()
            < entries.len(),
    decreases entries.len(),
{
    reveal(Seq::filter);
    if entries.len() > 0 {
        lemma_filter_removable_len(entries.drop_last());
        if spec_has_removable(entries) {
            if !removable(entries.last()) {
                let k = choose|k: int|
                    0 <= k < entries.len() && removable(entries[k]);
                assert(k < entries.len() - 1);
                assert(entries.drop_last()[k] == entries[k]);
                assert(spec_has_removable(entries.drop_last()));
            }
        }
    }
}

proof fn lemma_pass_shorter(entries: Seq<JsonV>)
    requires
        spec_has_removable(entries),
    ensures
        spec_prune_pass(entries).len() < entries.len(),
{
    lemma_filter_removable_len(entries);
}

proof fn lemma_prune_reaches_fixpoint(entries: Seq<JsonV>, fuel: int)
    requires
        fuel >= entries.len(),
        fuel >= 0,
    ensures
        !spec_has_removable(spec_prune(entries, fuel)),
    decreases fuel,
{
    if spec_has_removable(entries) {
        lemma_pass_shorter(entries);
        lemma_prune_reaches_fixpoint(spec_prune_pass(entries), fuel - 1);
    }
}

/// Pruning is idempotent: on a template of at most a hundred entries, the
/// bounded fixpoint leaves nothing for a second run to remove.
pub proof fn lemma_prune_idempotent(entries: Seq<JsonV>)
    requires
        entries.len() <= 100,
    ensures
        spec_prune(spec_prune(entries, 100), 100) == spec_prune(entries, 100),
{
    lemma_prune_reaches_fixpoint(entries, 100);
}

} // verus!
