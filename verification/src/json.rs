//! The document model: an order-preserving JSON value. Object keys keep
//! construction order and numbers keep their written lexeme, so that fields
//! the assembler does not understand pass through to the output verbatim.

use vstd::prelude::*;

use crate::text::{chars_to_string, eq_str, str_eq, to_chars, u64_to_chars, spec_dec_of};

verus! {

broadcast use vstd::std_specs::vec::axiom_vec_index_decreases;

/// The ghost shape of a JSON document.
#[verifier::ext_equal]
pub enum JsonV {
    Null,
    Bool(bool),
    Num(Seq<char>),
    Str(Seq<char>),
    Arr(Seq<JsonV>),
    Obj(Seq<(Seq<char>, JsonV)>),
}

/// A JSON document. Numbers hold their decimal writing unparsed; objects hold
/// their entries in construction order.
pub enum Json {
    Null,
    Bool(bool),
    Num(String),
    Str(String),
    Arr(Vec<Json>),
    Obj(Vec<(String, Json)>),
}

/// The ghost shape of a document.
pub open spec fn jv(j: Json) -> JsonV
    decreases j, 1int,
{
    match j {
        Json::Null => JsonV::Null,
        Json::Bool(b) => JsonV::Bool(b),
        Json::Num(s) => JsonV::Num(s@),
        Json::Str(s) => JsonV::Str(s@),
        Json::Arr(a) => JsonV::Arr(jv_vec(a, 0)),
        Json::Obj(o) => JsonV::Obj(jv_obj(o, 0)),
    }
}

/// The ghost shapes of the documents of `v` from index `i` on.
pub open spec fn jv_vec(v: Vec<Json>, i: int) -> Seq<JsonV>
    decreases v, v.len() - i + 1,
{
    if 0 <= i < v.len() {
        seq![jv(v[i])] + jv_vec(v, i + 1)
    } else {
        seq![]
    }
}

/// The ghost shapes of the object entries of `o` from index `i` on.
pub open spec fn jv_obj(o: Vec<(String, Json)>, i: int) -> Seq<(Seq<char>, JsonV)>
    decreases o, o.len() - i + 1,
{
    if 0 <= i < o.len() {
        seq![(o[i].0@, jv(o[i].1))] + jv_obj(o, i + 1)
    } else {
        seq![]
    }
}

proof fn lemma_jv_vec_from(v: Vec<Json>, i: int)
    requires
        0 <= i <= v@.len(),
    ensures
        jv_vec(v, i).len() == v@.len() - i,
        forall|k: int| i <= k < v@.len() ==> jv_vec(v, i)[k - i] == jv(v@[k]),
    decreases v@.len() - i,
{
    if i < v@.len() {
        lemma_jv_vec_from(v, i + 1);
    }
}

proof fn lemma_jv_obj_from(o: Vec<(String, Json)>, i: int)
    requires
        0 <= i <= o@.len(),
    ensures
        jv_obj(o, i).len() == o@.len() - i,
        forall|k: int| i <= k < o@.len()
            ==> jv_obj(o, i)[k - i] == (o@[k].0@, jv(o@[k].1)),
    decreases o@.len() - i,
{
    if i < o@.len() {
        lemma_jv_obj_from(o, i + 1);
    }
}

/// The shape of an array document, element by element.
pub proof fn lemma_jv_arr(a: Vec<Json>)
    ensures
        jv(Json::Arr(a)) == JsonV::Arr(Seq::new(a@.len(), |i: int| jv(a@[i]))),
{
    lemma_jv_vec_from(a, 0);
    assert(jv_vec(a, 0) =~= Seq::new(a@.len(), |i: int| jv(a@[i])));
}

/// The shape of an object document, entry by entry.
pub proof fn lemma_jv_objv(o: Vec<(String, Json)>)
    ensures
        jv(Json::Obj(o)) == JsonV::Obj(Seq::new(o@.len(), |i: int| (o@[i].0@, jv(o@[i].1)))),
{
    lemma_jv_obj_from(o, 0);
    assert(jv_obj(o, 0) =~= Seq::new(o@.len(), |i: int| (o@[i].0@, jv(o@[i].1))));
}

/// The ghost shapes of a run of documents.
pub open spec fn jv_seq(a: Seq<Json>) -> Seq<JsonV> {
    Seq::new(a.len(), |i: int| jv(a[i]))
}

/// The ghost shapes of a run of object entries.
pub open spec fn jv_entries(o: Seq<(String, Json)>) -> Seq<(Seq<char>, JsonV)> {
    Seq::new(o.len(), |i: int| (o[i].0@, jv(o[i].1)))
}

/// A string document holding exactly `s`.
pub fn mk_str(s: &str) -> (r: Json)
    ensures
        jv(r) == JsonV::Str(s@),
{
    Json::Str(s.to_owned())
}

/// A string document holding exactly the given characters.
pub fn mk_str_chars(v: &Vec<char>) -> (r: Json)
    ensures
        jv(r) == JsonV::Str(v@),
{
    Json::Str(chars_to_string(v))
}

/// A number document holding the decimal writing of `n`.
pub fn mk_num_u64(n: u64) -> (r: Json)
    ensures
        jv(r) == JsonV::Num(spec_dec_of(n as int)),
{
    let digits = u64_to_chars(n);
    Json::Num(chars_to_string(&digits))
}

/// A duplicate of the document, equal in shape.
pub fn clone_json(j: &Json) -> (r: Json)
    ensures
        jv(r) == jv(*j),
    decreases *j, 1int,
{
    match j {
        Json::Null => Json::Null,
        Json::Bool(b) => Json::Bool(*b),
        Json::Num(s) => Json::Num(s.clone()),
        Json::Str(s) => Json::Str(s.clone()),
        Json::Arr(a) => {
            let out = clone_vec(a);
            proof {
                lemma_jv_arr(out);
                lemma_jv_arr(*a);
                assert(Seq::new(out@.len(), |k: int| jv(out@[k]))
                    =~= Seq::new(a@.len(), |k: int| jv(a@[k])));
            }
            Json::Arr(out)
        },
        Json::Obj(o) => {
            let out = clone_entries(o);
            proof {
                lemma_jv_objv(out);
                lemma_jv_objv(*o);
                assert(Seq::new(out@.len(), |k: int| (out@[k].0@, jv(out@[k].1)))
                    =~= Seq::new(o@.len(), |k: int| (o@[k].0@, jv(o@[k].1))));
            }
            Json::Obj(out)
        },
    }
}

/// A duplicate of a run of documents, equal element by element.
pub fn clone_vec(a: &Vec<Json>) -> (out: Vec<Json>)
    ensures
        out@.len() == a@.len(),
        forall|k: int| 0 <= k < a@.len() ==> jv(out@[k]) == jv(a@[k]),
    decreases *a, 0int,
{
    let mut out: Vec<Json> = Vec::new();
    let mut i: usize = 0;
    while i < a.len()
        invariant
            i <= a@.len(),
            out@.len() == i,
            forall|k: int| 0 <= k < i ==> jv(out@[k]) == jv(a@[k]),
        decreases a@.len() - i,
    {
        proof {
            vstd::std_specs::vec::axiom_vec_index_decreases(*a, i as int);
        }
        let c = clone_json(&a[i]);
        out.push(c);
        i += 1;
    }
    out
}

/// A duplicate of a run of object entries, equal entry by entry.
pub fn clone_entries(o: &Vec<(String, Json)>) -> (out: Vec<(String, Json)>)
    ensures
        out@.len() == o@.len(),
        forall|k: int| 0 <= k < o@.len()
            ==> out@[k].0@ == o@[k].0@ && jv(out@[k].1) == jv(o@[k].1),
    decreases *o, 0int,
{
    let mut out: Vec<(String, Json)> = Vec::new();
    let mut i: usize = 0;
    while i < o.len()
        invariant
            i <= o@.len(),
            out@.len() == i,
            forall|k: int| 0 <= k < i
                ==> out@[k].0@ == o@[k].0@ && jv(out@[k].1) == jv(o@[k].1),
        decreases o@.len() - i,
    {
        proof {
            vstd::std_specs::vec::axiom_vec_index_decreases(*o, i as int);
        }
        let key = o[i].0.clone();
        let val = clone_json(&o[i].1);
        out.push((key, val));
        i += 1;
    }
    out
}

/// The first entry with the given key, by index.
fn obj_find_key(o: &Vec<(String, Json)>, key: &str) -> (r: Option<usize>)
    ensures
        match r {
            Some(i) => i < o@.len() && o@[i as int].0@ == key@
                && forall|k: int| 0 <= k < i ==> o@[k].0@ != key@,
            None => forall|k: int| 0 <= k < o@.len() ==> o@[k].0@ != key@,
        },
{
    let mut i: usize = 0;
    while i < o.len()
        invariant
            i <= o@.len(),
            forall|k: int| 0 <= k < i ==> o@[k].0@ != key@,
        decreases o@.len() - i,
    {
        if str_eq(o[i].0.as_str(), key) {
            return Some(i);
        }
        i += 1;
    }
    None
}

/// The value under the first entry with the given key, if the document is an
/// object holding one.
pub open spec fn spec_obj_get(entries: Seq<(Seq<char>, JsonV)>, key: Seq<char>) -> Option<JsonV>
    decreases entries.len(),
{
    if entries.len() == 0 {
        None
    } else if entries[0].0 == key {
        Some(entries[0].1)
    } else {
        spec_obj_get(entries.drop_first(), key)
    }
}

/// Looks a key up in an object document; `None` on any other document.
pub fn obj_get<'a>(j: &'a Json, key: &str) -> (r: Option<&'a Json>)
    ensures
        match r {
            Some(v) => jv(*j) is Obj && spec_obj_get(jv(*j)->Obj_0, key@) == Some(jv(*v)),
            None => !(jv(*j) is Obj) || spec_obj_get(jv(*j)->Obj_0, key@) is None,
        },
{
    match j {
        Json::Obj(o) => {
            proof {
                lemma_jv_objv(*o);
            }
            let ghost entries = jv(*j)->Obj_0;
            match obj_find_key(o, key) {
                Some(i) => {
                    proof {
                        lemma_obj_get_at(entries, key@, i as int);
                    }
                    Some(&o[i].1)
                },
                None => {
                    proof {
                        lemma_obj_get_absent(entries, key@);
                    }
                    None
                },
            }
        },
        _ => None,
    }
}

/// Looking a key up whose first occurrence is at `i` yields that entry's value.
proof fn lemma_obj_get_at(entries: Seq<(Seq<char>, JsonV)>, key: Seq<char>, i: int)
    requires
        0 <= i < entries.len(),
        entries[i].0 == key,
        forall|k: int| 0 <= k < i ==> entries[k].0 != key,
    ensures
        spec_obj_get(entries, key) == Some(entries[i].1),
    decreases i,
{
    if i > 0 {
        assert(entries.drop_first()[i - 1].0 == key);
        lemma_obj_get_at(entries.drop_first(), key, i - 1);
    }
}

/// Looking an absent key up yields nothing.
proof fn lemma_obj_get_absent(entries: Seq<(Seq<char>, JsonV)>, key: Seq<char>)
    requires
        forall|k: int| 0 <= k < entries.len() ==> entries[k].0 != key,
    ensures
        spec_obj_get(entries, key) is None,
    decreases entries.len(),
{
    if entries.len() > 0 {
        lemma_obj_get_absent(entries.drop_first(), key);
    }
}

/// The entries with the first `key` entry's value replaced, or with a new
/// entry appended when the key is absent.
pub open spec fn spec_obj_set(
    entries: Seq<(Seq<char>, JsonV)>,
    key: Seq<char>,
    v: JsonV,
) -> Seq<(Seq<char>, JsonV)>
    decreases entries.len(),
{
    if entries.len() == 0 {
        seq![(key, v)]
    } else if entries[0].0 == key {
        seq![(entries[0].0, v)] + entries.drop_first()
    } else {
        seq![entries[0]] + spec_obj_set(entries.drop_first(), key, v)
    }
}

/// Sets a key in an object document: replaces the first entry with that key
/// in place, else appends a new entry.
pub fn obj_set(j: &mut Json, key: &str, v: Json)
    requires
        jv(*old(j)) is Obj,
    ensures
        jv(*final(j)) is Obj,
        jv(*final(j))->Obj_0 == spec_obj_set(jv(*old(j))->Obj_0, key@, jv(v)),
{
    let ghost vg = v;
    match j {
        Json::Obj(o) => {
            proof {
                lemma_jv_objv(*o);
            }
            let ghost entries = jv(*old(j))->Obj_0;
            match obj_find_key(o, key) {
                Some(i) => {
                    let keep = o[i].0.clone();
                    o[i] = (keep, v);
                    proof {
                        lemma_obj_set_at(entries, key@, jv(vg), i as int);
                        lemma_jv_objv(*o);
                        assert(Seq::new(o@.len(), |k: int| (o@[k].0@, jv(o@[k].1)))
                            =~= spec_obj_set(entries, key@, jv(vg)));
                    }
                },
                None => {
                    let ks = String::from_str(key);
                    o.push((ks, v));
                    proof {
                        lemma_obj_set_absent(entries, key@, jv(vg));
                        lemma_jv_objv(*o);
                        assert(Seq::new(o@.len(), |k: int| (o@[k].0@, jv(o@[k].1)))
                            =~= spec_obj_set(entries, key@, jv(vg)));
                    }
                },
            }
        },
        _ => {
            proof {
                assert(false);
            }
        },
    }
}

/// Setting a key whose first occurrence is at `i` replaces that entry alone.
proof fn lemma_obj_set_at(entries: Seq<(Seq<char>, JsonV)>, key: Seq<char>, v: JsonV, i: int)
    requires
        0 <= i < entries.len(),
        entries[i].0 == key,
        forall|k: int| 0 <= k < i ==> entries[k].0 != key,
    ensures
        spec_obj_set(entries, key, v) =~= entries.update(i, (entries[i].0, v)),
    decreases i,
{
    if i == 0 {
        assert(seq![(entries[0].0, v)] + entries.drop_first()
            =~= entries.update(0, (entries[0].0, v)));
    } else {
        assert(entries.drop_first()[i - 1].0 == key);
        lemma_obj_set_at(entries.drop_first(), key, v, i - 1);
        assert(seq![entries[0]] + entries.drop_first().update(i - 1, (entries[i].0, v))
            =~= entries.update(i, (entries[i].0, v)));
    }
}

/// Setting an absent key appends one entry.
proof fn lemma_obj_set_absent(entries: Seq<(Seq<char>, JsonV)>, key: Seq<char>, v: JsonV)
    requires
        forall|k: int| 0 <= k < entries.len() ==> entries[k].0 != key,
    ensures
        spec_obj_set(entries, key, v) =~= entries.push((key, v)),
    decreases entries.len(),
{
    if entries.len() > 0 {
        lemma_obj_set_absent(entries.drop_first(), key, v);
        assert(seq![entries[0]] + entries.drop_first().push((key, v))
            =~= entries.push((key, v)));
    } else {
        assert(seq![(key, v)] =~= entries.push((key, v)));
    }
}

/// The entries without any entry under the given key.
pub open spec fn spec_obj_remove(
    entries: Seq<(Seq<char>, JsonV)>,
    key: Seq<char>,
) -> Seq<(Seq<char>, JsonV)>
    decreases entries.len(),
{
    if entries.len() == 0 {
        entries
    } else if entries[0].0 == key {
        spec_obj_remove(entries.drop_first(), key)
    } else {
        seq![entries[0]] + spec_obj_remove(entries.drop_first(), key)
    }
}

/// Removes every entry under the given key from an object document; any other
/// document is left unchanged.
pub fn obj_remove(j: &mut Json, key: &str)
    ensures
        jv(*old(j)) is Obj ==> jv(*final(j)) is Obj
            && jv(*final(j))->Obj_0 == spec_obj_remove(jv(*old(j))->Obj_0, key@),
        !(jv(*old(j)) is Obj) ==> jv(*final(j)) == jv(*old(j)),
{
    match j {
        Json::Obj(o) => {
            proof {
                lemma_jv_objv(*o);
            }
            let ghost entries0 = jv(*old(j))->Obj_0;
            let mut out: Vec<(String, Json)> = Vec::new();
            let mut i: usize = 0;
            assert(spec_obj_remove(entries0.subrange(0, 0), key@) =~= Seq::<(
                Seq<char>,
                JsonV,
            )>::empty());
            while i < o.len()
                invariant
                    jv(*old(j)) is Obj,
                    entries0 == jv(*old(j))->Obj_0,
                    i <= o@.len(),
                    entries0.len() == o@.len(),
                    forall|k: int| 0 <= k < o@.len()
                        ==> entries0[k].0 == o@[k].0@ && entries0[k].1 == jv(o@[k].1),
                    Seq::new(out@.len(), |k: int| (out@[k].0@, jv(out@[k].1)))
                        == spec_obj_remove(entries0.subrange(0, i as int), key@),
                decreases o@.len() - i,
            {
                let ghost pre = entries0.subrange(0, i as int);
                let ghost post = entries0.subrange(0, i + 1);
                assert(post =~= pre.push(entries0[i as int]));
                proof {
                    lemma_obj_remove_snoc(pre, entries0[i as int], key@);
                }
                if !str_eq(o[i].0.as_str(), key) {
                    let key_i = o[i].0.clone();
                    let val_i = clone_json(&o[i].1);
                    out.push((key_i, val_i));
                    assert(Seq::new(out@.len(), |k: int| (out@[k].0@, jv(out@[k].1)))
                        =~= spec_obj_remove(post, key@));
                } else {
                    assert(Seq::new(out@.len(), |k: int| (out@[k].0@, jv(out@[k].1)))
                        =~= spec_obj_remove(post, key@));
                }
                i += 1;
            }
            assert(entries0.subrange(0, o@.len() as int) =~= entries0);
            proof {
                lemma_jv_objv(out);
            }
            *j = Json::Obj(out);
        },
        _ => {},
    }
}

/// Removing from `entries + [last]` removes from `entries`, then from the one
/// appended entry.
proof fn lemma_obj_remove_snoc(
    entries: Seq<(Seq<char>, JsonV)>,
    last: (Seq<char>, JsonV),
    key: Seq<char>,
)
    ensures
        spec_obj_remove(entries.push(last), key)
            == if last.0 == key {
                spec_obj_remove(entries, key)
            } else {
                spec_obj_remove(entries, key).push(last)
            },
    decreases entries.len(),
{
    if entries.len() == 0 {
        assert(entries.push(last).drop_first() =~= Seq::<(Seq<char>, JsonV)>::empty());
        if last.0 != key {
            assert(seq![last] + spec_obj_remove(Seq::<(Seq<char>, JsonV)>::empty(), key)
                =~= spec_obj_remove(entries, key).push(last));
        }
    } else {
        assert(entries.push(last).drop_first() =~= entries.drop_first().push(last));
        lemma_obj_remove_snoc(entries.drop_first(), last, key);
        if entries[0].0 != key {
            if last.0 == key {
                assert(seq![entries[0]] + spec_obj_remove(entries.drop_first(), key)
                    =~= spec_obj_remove(entries, key));
            } else {
                assert(seq![entries[0]] + spec_obj_remove(entries.drop_first(), key).push(last)
                    =~= spec_obj_remove(entries, key).push(last));
            }
        }
    }
}

/// Whether the document is the string `s`.
pub fn is_str(j: &Json, s: &str) -> (r: bool)
    ensures
        r == (jv(*j) == JsonV::Str(s@)),
{
    match j {
        Json::Str(t) => {
            let tc = to_chars(t.as_str());
            eq_str(&tc, s)
        },
        _ => {
            proof {
                match *j {
                    Json::Null => {},
                    Json::Bool(_) => {},
                    Json::Num(_) => {},
                    Json::Str(_) => {},
                    Json::Arr(_) => {},
                    Json::Obj(_) => {},
                }
            }
            false
        },
    }
}

/// The characters of a string document, if it is one.
pub fn as_str_chars(j: &Json) -> (r: Option<Vec<char>>)
    ensures
        match r {
            Some(v) => jv(*j) == JsonV::Str(v@),
            None => !(jv(*j) is Str),
        },
{
    match j {
        Json::Str(t) => Some(to_chars(t.as_str())),
        _ => None,
    }
}


/// Looking up a key just set yields the set value.
pub proof fn lemma_obj_set_get(entries: Seq<(Seq<char>, JsonV)>, key: Seq<char>, v: JsonV)
    ensures
        spec_obj_get(spec_obj_set(entries, key, v), key) == Some(v),
    decreases entries.len(),
{
    if entries.len() == 0 {
    } else if entries[0].0 == key {
    } else {
        let built = seq![entries[0]] + spec_obj_set(entries.drop_first(), key, v);
        assert(built.drop_first() =~= spec_obj_set(entries.drop_first(), key, v));
        lemma_obj_set_get(entries.drop_first(), key, v);
    }
}

} // verus!
