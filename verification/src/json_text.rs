//! A JSON text parser: one spec grammar, one executable parser proved to
//! follow it. Strings take the eight short escapes and `\u` escapes with
//! surrogate pairs; numbers are kept as their lexeme; objects keep their
//! entries in source order.

use vstd::prelude::*;

use crate::json::{Json, JsonV, jv, jv_seq, jv_entries, lemma_jv_arr, lemma_jv_objv};
use crate::text::{is_digit, spec_hex_val, hex_val, sub_chars, push_all, chars_to_string};

verus! {

/// JSON insignificant whitespace.
pub open spec fn is_jws(c: char) -> bool {
    c == ' ' || c == '\t' || c == '\n' || c == '\r'
}

/// The first index at or after `i` holding no whitespace.
pub open spec fn sp_ws(s: Seq<char>, i: int) -> int
    decreases s.len() - i,
{
    if 0 <= i < s.len() && is_jws(s[i]) {
        sp_ws(s, i + 1)
    } else {
        i
    }
}

proof fn lemma_ws_bounds(s: Seq<char>, i: int)
    requires
        0 <= i <= s.len(),
    ensures
        i <= sp_ws(s, i) <= s.len(),
    decreases s.len() - i,
{
    if i < s.len() && is_jws(s[i]) {
        lemma_ws_bounds(s, i + 1);
    }
}

fn is_jws_at(v: &Vec<char>, k: usize) -> (r: bool)
    requires
        k < v@.len(),
    ensures
        r == is_jws(v@[k as int]),
{
    let c = v[k];
    c == ' ' || c == '\t' || c == '\n' || c == '\r'
}

fn ex_ws(v: &Vec<char>, i: usize) -> (r: usize)
    requires
        i <= v@.len(),
    ensures
        r as int == sp_ws(v@, i as int),
        i <= r <= v@.len(),
{
    let mut k: usize = i;
    while k < v.len() && is_jws_at(v, k)
        invariant
            i <= k <= v@.len(),
            sp_ws(v@, i as int) == sp_ws(v@, k as int),
        decreases v@.len() - k,
    {
        k += 1;
    }
    k
}

fn is_digit_at(v: &Vec<char>, k: usize) -> (r: bool)
    requires
        k < v@.len(),
    ensures
        r == is_digit(v@[k as int]),
{
    let c = v[k];
    '0' <= c && c <= '9'
}

/// The first index at or after `i` holding no decimal digit.
pub open spec fn sp_digits_end(s: Seq<char>, i: int) -> int
    decreases s.len() - i,
{
    if 0 <= i < s.len() && is_digit(s[i]) {
        sp_digits_end(s, i + 1)
    } else {
        i
    }
}

fn ex_digits_end(v: &Vec<char>, i: usize) -> (r: usize)
    requires
        i <= v@.len(),
    ensures
        r as int == sp_digits_end(v@, i as int),
        i <= r <= v@.len(),
{
    let mut k: usize = i;
    while k < v.len() && is_digit_at(v, k)
        invariant
            i <= k <= v@.len(),
            sp_digits_end(v@, i as int) == sp_digits_end(v@, k as int),
        decreases v@.len() - k,
    {
        k += 1;
    }
    k
}

/// What a short escape stands for.
pub open spec fn spec_escape_char(e: char) -> Option<char> {
    if e == '"' {
        Some('"')
    } else if e == '\\' {
        Some('\\')
    } else if e == '/' {
        Some('/')
    } else if e == 'b' {
        Some('\u{0008}')
    } else if e == 'f' {
        Some('\u{000C}')
    } else if e == 'n' {
        Some('\n')
    } else if e == 'r' {
        Some('\r')
    } else if e == 't' {
        Some('\t')
    } else {
        None
    }
}

fn ex_escape_char(e: char) -> (r: Option<char>)
    ensures
        r == spec_escape_char(e),
{
    if e == '"' {
        Some('"')
    } else if e == '\\' {
        Some('\\')
    } else if e == '/' {
        Some('/')
    } else if e == 'b' {
        Some('\u{0008}')
    } else if e == 'f' {
        Some('\u{000C}')
    } else if e == 'n' {
        Some('\n')
    } else if e == 'r' {
        Some('\r')
    } else if e == 't' {
        Some('\t')
    } else {
        None
    }
}

/// The value of four hexadecimal digits at `i`.
pub open spec fn sp_hex4(s: Seq<char>, i: int) -> Option<int> {
    if 0 <= i && i + 4 <= s.len() {
        match (spec_hex_val(s[i]), spec_hex_val(s[i + 1]), spec_hex_val(s[i + 2]), spec_hex_val(
            s[i + 3],
        )) {
            (Some(a), Some(b), Some(c), Some(d)) => Some(a * 4096 + b * 256 + c * 16 + d),
            _ => None,
        }
    } else {
        None
    }
}

fn ex_hex4(v: &Vec<char>, i: usize) -> (r: Option<u32>)
    requires
        i <= v@.len(),
    ensures
        match r {
            Some(n) => sp_hex4(v@, i as int) == Some(n as int) && n < 0x10000,
            None => sp_hex4(v@, i as int) is None,
        },
{
    if v.len() - i < 4 {
        return None;
    }
    let a = hex_val(v[i]);
    let b = hex_val(v[i + 1]);
    let c = hex_val(v[i + 2]);
    let d = hex_val(v[i + 3]);
    match (a, b, c, d) {
        (Some(a), Some(b), Some(c), Some(d)) => Some(a * 4096 + b * 256 + c * 16 + d),
        _ => None,
    }
}

/// The body of a string from `i` (just past the opening quote) to its closing
/// quote: the decoded characters and the index just past the quote.
pub open spec fn sp_string(s: Seq<char>, i: int) -> Option<(Seq<char>, int)>
    decreases s.len() - i,
{
    if i < 0 || i >= s.len() {
        None
    } else if s[i] == '"' {
        Some((seq![], i + 1))
    } else if s[i] == '\\' {
        if i + 2 > s.len() {
            None
        } else if s[i + 1] == 'u' {
            match sp_hex4(s, i + 2) {
                Some(cp) => {
                    if 0xD800 <= cp < 0xDC00 {
                        if i + 12 <= s.len() && s[i + 6] == '\\' && s[i + 7] == 'u' {
                            match sp_hex4(s, i + 8) {
                                Some(lo) => {
                                    if 0xDC00 <= lo < 0xE000 {
                                        let c = (0x10000 + (cp - 0xD800) * 0x400 + (lo - 0xDC00)) as char;
                                        match sp_string(s, i + 12) {
                                            Some(p) => Some((seq![c] + p.0, p.1)),
                                            None => None,
                                        }
                                    } else {
                                        None
                                    }
                                },
                                None => None,
                            }
                        } else {
                            None
                        }
                    } else if 0xDC00 <= cp < 0xE000 {
                        None
                    } else {
                        let c = cp as char;
                        match sp_string(s, i + 6) {
                            Some(p) => Some((seq![c] + p.0, p.1)),
                            None => None,
                        }
                    }
                },
                None => None,
            }
        } else {
            match spec_escape_char(s[i + 1]) {
                Some(c) => match sp_string(s, i + 2) {
                    Some(p) => Some((seq![c] + p.0, p.1)),
                    None => None,
                },
                None => None,
            }
        }
    } else if (s[i] as u32) < 32 {
        None
    } else {
        match sp_string(s, i + 1) {
            Some(p) => Some((seq![s[i]] + p.0, p.1)),
            None => None,
        }
    }
}

proof fn lemma_string_bounds(s: Seq<char>, i: int)
    ensures
        sp_string(s, i) matches Some(p) ==> i < p.1 <= s.len(),
    decreases s.len() - i,
{
    if 0 <= i < s.len() {
        if s[i] == '"' {
        } else if s[i] == '\\' {
            if i + 2 <= s.len() {
                lemma_string_bounds(s, i + 2);
            }
            if i + 6 <= s.len() {
                lemma_string_bounds(s, i + 6);
            }
            if i + 12 <= s.len() {
                lemma_string_bounds(s, i + 12);
            }
        } else {
            lemma_string_bounds(s, i + 1);
        }
    }
}

fn ex_string(v: &Vec<char>, i: usize) -> (r: Option<(Vec<char>, usize)>)
    requires
        i <= v@.len(),
    ensures
        match r {
            Some(p) => sp_string(v@, i as int) == Some((p.0@, p.1 as int))
                && i < p.1 <= v@.len(),
            None => sp_string(v@, i as int) is None,
        },
    decreases v@.len() - i,
{
    proof {
        lemma_string_bounds(v@, i as int);
    }
    if i >= v.len() {
        return None;
    }
    let c0 = v[i];
    if c0 == '"' {
        let out: Vec<char> = Vec::new();
        assert(out@ =~= Seq::<char>::empty());
        return Some((out, i + 1));
    }
    if c0 == '\\' {
        if v.len() - i < 2 {
            return None;
        }
        let e = v[i + 1];
        if e == 'u' {
            match ex_hex4(v, i + 2) {
                Some(cp) => {
                    if 0xD800 <= cp && cp < 0xDC00 {
                        if v.len() - i >= 12 && v[i + 6] == '\\' && v[i + 7] == 'u' {
                            match ex_hex4(v, i + 8) {
                                Some(lo) => {
                                    if 0xDC00 <= lo && lo < 0xE000 {
                                        let code: u32 = 0x10000 + (cp - 0xD800) * 0x400 + (lo
                                            - 0xDC00);
                                        let c = match char::from_u32(code) {
                                            Some(c) => c,
                                            None => {
                                                proof {
                                                    assert(false);
                                                }
                                                ' '
                                            },
                                        };
                                        proof {
                                            let spec_c = (0x10000 + (cp as int - 0xD800) * 0x400
                                                + (lo as int - 0xDC00)) as char;
                                            assert(code as int == 0x10000 + (cp as int - 0xD800)
                                                * 0x400 + (lo as int - 0xDC00));
                                            assert(spec_c as int == code as int);
                                            assert(c as int == code as int);
                                            assert(c == spec_c);
                                        }
                                        match ex_string(v, i + 12) {
                                            Some(p) => {
                                                let (tail, k) = p;
                                                let mut out: Vec<char> = Vec::new();
                                                out.push(c);
                                                push_all(&mut out, &tail);
                                                assert(out@ =~= seq![c] + tail@);
                                                Some((out, k))
                                            },
                                            None => None,
                                        }
                                    } else {
                                        None
                                    }
                                },
                                None => None,
                            }
                        } else {
                            None
                        }
                    } else if 0xDC00 <= cp && cp < 0xE000 {
                        None
                    } else {
                        let c = match char::from_u32(cp) {
                            Some(c) => c,
                            None => {
                                proof {
                                    assert(false);
                                }
                                ' '
                            },
                        };
                        proof {
                            let spec_c = (cp as int) as char;
                            assert(spec_c as int == cp as int);
                            assert(c as int == cp as int);
                            assert(c == spec_c);
                        }
                        match ex_string(v, i + 6) {
                            Some(p) => {
                                let (tail, k) = p;
                                let mut out: Vec<char> = Vec::new();
                                out.push(c);
                                push_all(&mut out, &tail);
                                assert(out@ =~= seq![c] + tail@);
                                Some((out, k))
                            },
                            None => None,
                        }
                    }
                },
                None => None,
            }
        } else {
            match ex_escape_char(e) {
                Some(c) => {
                    match ex_string(v, i + 2) {
                        Some(p) => {
                            let (tail, k) = p;
                            let mut out: Vec<char> = Vec::new();
                            out.push(c);
                            push_all(&mut out, &tail);
                            assert(out@ =~= seq![c] + tail@);
                            Some((out, k))
                        },
                        None => None,
                    }
                },
                None => None,
            }
        }
    } else if (c0 as u32) < 32 {
        None
    } else {
        match ex_string(v, i + 1) {
            Some(p) => {
                let (tail, k) = p;
                let mut out: Vec<char> = Vec::new();
                out.push(c0);
                push_all(&mut out, &tail);
                assert(out@ =~= seq![c0] + tail@);
                Some((out, k))
            },
            None => None,
        }
    }
}

/// A number lexeme from `i`: optional sign, integer part without a stray
/// leading zero, optional fraction, optional exponent.
pub open spec fn sp_number(s: Seq<char>, i: int) -> Option<(Seq<char>, int)> {
    if i < 0 || i > s.len() {
        None
    } else {
        let j = if i < s.len() && s[i] == '-' {
            i + 1
        } else {
            i
        };
        let d1 = sp_digits_end(s, j);
        if d1 == j || d1 < j {
            None
        } else if s[j] == '0' && d1 > j + 1 {
            None
        } else {
            let k1 = if d1 < s.len() && s[d1] == '.' {
                sp_digits_end(s, d1 + 1)
            } else {
                d1
            };
            if d1 < s.len() && s[d1] == '.' && k1 == d1 + 1 {
                None
            } else {
                let e0 = if k1 < s.len() && (s[k1] == 'e' || s[k1] == 'E') {
                    if k1 + 1 < s.len() && (s[k1 + 1] == '+' || s[k1 + 1] == '-') {
                        k1 + 2
                    } else {
                        k1 + 1
                    }
                } else {
                    k1
                };
                let k2 = if e0 == k1 {
                    k1
                } else {
                    sp_digits_end(s, e0)
                };
                if e0 != k1 && k2 == e0 {
                    None
                } else {
                    Some((s.subrange(i, k2), k2))
                }
            }
        }
    }
}

proof fn lemma_digits_end_bounds(s: Seq<char>, i: int)
    requires
        0 <= i <= s.len(),
    ensures
        i <= sp_digits_end(s, i) <= s.len(),
    decreases s.len() - i,
{
    if i < s.len() && is_digit(s[i]) {
        lemma_digits_end_bounds(s, i + 1);
    }
}

fn ex_number(v: &Vec<char>, i: usize) -> (r: Option<(Vec<char>, usize)>)
    requires
        i <= v@.len(),
    ensures
        match r {
            Some(p) => sp_number(v@, i as int) == Some((p.0@, p.1 as int))
                && i < p.1 <= v@.len(),
            None => sp_number(v@, i as int) is None,
        },
{
    let j = if i < v.len() && v[i] == '-' {
        i + 1
    } else {
        i
    };
    let d1 = ex_digits_end(v, j);
    if d1 == j {
        return None;
    }
    if v[j] == '0' && d1 > j + 1 {
        return None;
    }
    let mut k1 = d1;
    let mut frac_bad = false;
    if d1 < v.len() && v[d1] == '.' {
        let d2 = ex_digits_end(v, d1 + 1);
        if d2 == d1 + 1 {
            frac_bad = true;
        }
        k1 = d2;
    }
    if frac_bad {
        return None;
    }
    let mut k2 = k1;
    let mut exp_bad = false;
    if k1 < v.len() && { let c = v[k1]; c == 'e' || c == 'E' } {
        let e0 = if k1 + 1 < v.len() && { let c = v[k1 + 1]; c == '+' || c == '-' } {
            k1 + 2
        } else {
            k1 + 1
        };
        let d3 = ex_digits_end(v, e0);
        if d3 == e0 {
            exp_bad = true;
        }
        k2 = d3;
    }
    if exp_bad {
        return None;
    }
    let lex = sub_chars(v, i, k2);
    Some((lex, k2))
}

/// A value from `i`: leading whitespace, then a literal, string, number,
/// array or object; the index returned is just past the value.
pub open spec fn sp_value(s: Seq<char>, i: int) -> Option<(JsonV, int)>
    decreases s.len() - i, 2int,
{
    if i < 0 || i > s.len() {
        None
    } else {
        let j = sp_ws(s, i);
        if j < i || j >= s.len() {
            None
        } else if s[j] == 'n' {
            if j + 4 <= s.len() && s[j + 1] == 'u' && s[j + 2] == 'l' && s[j + 3] == 'l' {
                Some((JsonV::Null, j + 4))
            } else {
                None
            }
        } else if s[j] == 't' {
            if j + 4 <= s.len() && s[j + 1] == 'r' && s[j + 2] == 'u' && s[j + 3] == 'e' {
                Some((JsonV::Bool(true), j + 4))
            } else {
                None
            }
        } else if s[j] == 'f' {
            if j + 5 <= s.len() && s[j + 1] == 'a' && s[j + 2] == 'l' && s[j + 3] == 's' && s[j + 4]
                == 'e' {
                Some((JsonV::Bool(false), j + 5))
            } else {
                None
            }
        } else if s[j] == '"' {
            match sp_string(s, j + 1) {
                Some(p) => Some((JsonV::Str(p.0), p.1)),
                None => None,
            }
        } else if s[j] == '[' {
            match sp_elems(s, j + 1) {
                Some(p) => Some((JsonV::Arr(p.0), p.1)),
                None => None,
            }
        } else if s[j] == '{' {
            match sp_members(s, j + 1) {
                Some(p) => Some((JsonV::Obj(p.0), p.1)),
                None => None,
            }
        } else {
            match sp_number(s, j) {
                Some(p) => Some((JsonV::Num(p.0), p.1)),
                None => None,
            }
        }
    }
}

/// Array elements after `[`: either a closing bracket, or values separated by
/// commas up to the bracket.
pub open spec fn sp_elems(s: Seq<char>, i: int) -> Option<(Seq<JsonV>, int)>
    decreases s.len() - i, 3int,
{
    if i < 0 || i > s.len() {
        None
    } else {
        let j = sp_ws(s, i);
        if j < i || j >= s.len() {
            None
        } else if s[j] == ']' {
            Some((seq![], j + 1))
        } else {
            match sp_value(s, i) {
                Some(p) => {
                    if p.1 <= i || p.1 > s.len() {
                        None
                    } else {
                        match sp_elems_rest(s, p.1) {
                            Some(q) => Some((seq![p.0] + q.0, q.1)),
                            None => None,
                        }
                    }
                },
                None => None,
            }
        }
    }
}

/// After one array element: a closing bracket, or a comma and another element.
pub open spec fn sp_elems_rest(s: Seq<char>, i: int) -> Option<(Seq<JsonV>, int)>
    decreases s.len() - i, 4int,
{
    if i < 0 || i > s.len() {
        None
    } else {
        let j = sp_ws(s, i);
        if j < i || j >= s.len() {
            None
        } else if s[j] == ']' {
            Some((seq![], j + 1))
        } else if s[j] == ',' {
            match sp_value(s, j + 1) {
                Some(p) => {
                    if p.1 <= j + 1 || p.1 > s.len() {
                        None
                    } else {
                        match sp_elems_rest(s, p.1) {
                            Some(q) => Some((seq![p.0] + q.0, q.1)),
                            None => None,
                        }
                    }
                },
                None => None,
            }
        } else {
            None
        }
    }
}

/// Object members after `{`: either a closing brace, or `"key": value` pairs
/// separated by commas up to the brace.
pub open spec fn sp_members(s: Seq<char>, i: int) -> Option<(Seq<(Seq<char>, JsonV)>, int)>
    decreases s.len() - i, 3int,
{
    if i < 0 || i > s.len() {
        None
    } else {
        let j = sp_ws(s, i);
        if j < i || j >= s.len() {
            None
        } else if s[j] == '}' {
            Some((seq![], j + 1))
        } else if s[j] == '"' {
            match sp_string(s, j + 1) {
                Some(kp) => {
                    if kp.1 <= j + 1 {
                        None
                    } else {
                        let m = sp_ws(s, kp.1);
                        if m < kp.1 || m >= s.len() || s[m] != ':' {
                            None
                        } else {
                            match sp_value(s, m + 1) {
                                Some(p) => {
                                    if p.1 <= m || p.1 > s.len() {
                                        None
                                    } else {
                                        match sp_members_rest(s, p.1) {
                                            Some(q) => Some((seq![(kp.0, p.0)] + q.0, q.1)),
                                            None => None,
                                        }
                                    }
                                },
                                None => None,
                            }
                        }
                    }
                },
                None => None,
            }
        } else {
            None
        }
    }
}

/// After one object member: a closing brace, or a comma and another member.
pub open spec fn sp_members_rest(s: Seq<char>, i: int) -> Option<(Seq<(Seq<char>, JsonV)>, int)>
    decreases s.len() - i, 4int,
{
    if i < 0 || i > s.len() {
        None
    } else {
        let j = sp_ws(s, i);
        if j < i || j >= s.len() {
            None
        } else if s[j] == '}' {
            Some((seq![], j + 1))
        } else if s[j] == ',' {
            let m2 = sp_ws(s, j + 1);
            if m2 < j + 1 || m2 >= s.len() || s[m2] != '"' {
                None
            } else {
                match sp_string(s, m2 + 1) {
                    Some(kp) => {
                        if kp.1 <= m2 + 1 {
                            None
                        } else {
                            let m = sp_ws(s, kp.1);
                            if m < kp.1 || m >= s.len() || s[m] != ':' {
                                None
                            } else {
                                match sp_value(s, m + 1) {
                                    Some(p) => {
                                        if p.1 <= m || p.1 > s.len() {
                                            None
                                        } else {
                                            match sp_members_rest(s, p.1) {
                                                Some(q) => Some((seq![(kp.0, p.0)] + q.0, q.1)),
                                                None => None,
                                            }
                                        }
                                    },
                                    None => None,
                                }
                            }
                        }
                    },
                    None => None,
                }
            }
        } else {
            None
        }
    }
}

/// What a whole text denotes: one value with nothing but whitespace after it.
pub open spec fn spec_parse_json(s: Seq<char>) -> Option<JsonV> {
    match sp_value(s, 0) {
        Some(p) => {
            if sp_ws(s, p.1) == s.len() {
                Some(p.0)
            } else {
                None
            }
        },
        None => None,
    }
}

fn ex_value(v: &Vec<char>, i: usize) -> (r: Option<(Json, usize)>)
    requires
        i <= v@.len(),
    ensures
        match r {
            Some(p) => sp_value(v@, i as int) == Some((jv(p.0), p.1 as int))
                && i < p.1 <= v@.len(),
            None => sp_value(v@, i as int) is None,
        },
    decreases v@.len() - i, 2int,
{
    let j = ex_ws(v, i);
    if j >= v.len() {
        return None;
    }
    let c0 = v[j];
    if c0 == 'n' {
        if v.len() - j >= 4 && v[j + 1] == 'u' && v[j + 2] == 'l' && v[j + 3] == 'l' {
            Some((Json::Null, j + 4))
        } else {
            None
        }
    } else if c0 == 't' {
        if v.len() - j >= 4 && v[j + 1] == 'r' && v[j + 2] == 'u' && v[j + 3] == 'e' {
            Some((Json::Bool(true), j + 4))
        } else {
            None
        }
    } else if c0 == 'f' {
        if v.len() - j >= 5 && v[j + 1] == 'a' && v[j + 2] == 'l' && v[j + 3] == 's' && v[j + 4]
            == 'e' {
            Some((Json::Bool(false), j + 5))
        } else {
            None
        }
    } else if c0 == '"' {
        match ex_string(v, j + 1) {
            Some(p) => {
                let (chars, k) = p;
                Some((Json::Str(chars_to_string(&chars)), k))
            },
            None => None,
        }
    } else if c0 == '[' {
        match ex_elems(v, j + 1) {
            Some(p) => {
                let (items, k) = p;
                proof {
                    lemma_jv_arr(p.0);
                }
                Some((Json::Arr(items), k))
            },
            None => None,
        }
    } else if c0 == '{' {
        match ex_members(v, j + 1) {
            Some(p) => {
                let (entries, k) = p;
                proof {
                    lemma_jv_objv(p.0);
                }
                Some((Json::Obj(entries), k))
            },
            None => None,
        }
    } else {
        match ex_number(v, j) {
            Some(p) => {
                let (lex, k) = p;
                Some((Json::Num(chars_to_string(&lex)), k))
            },
            None => None,
        }
    }
}

fn ex_elems(v: &Vec<char>, i: usize) -> (r: Option<(Vec<Json>, usize)>)
    requires
        i <= v@.len(),
    ensures
        match r {
            Some(p) => sp_elems(v@, i as int) == Some((jv_seq(p.0@), p.1 as int))
                && i < p.1 <= v@.len(),
            None => sp_elems(v@, i as int) is None,
        },
    decreases v@.len() - i, 3int,
{
    let j = ex_ws(v, i);
    if j >= v.len() {
        return None;
    }
    if v[j] == ']' {
        let out: Vec<Json> = Vec::new();
        assert(jv_seq(out@) =~= Seq::<JsonV>::empty());
        return Some((out, j + 1));
    }
    match ex_value(v, i) {
        Some(p) => {
            let (head, k) = p;
            match ex_elems_rest(v, k) {
                Some(q) => {
                    let (mut tail, m) = q;
                    let mut out: Vec<Json> = Vec::new();
                    out.push(head);
                    out.append(&mut tail);
                    proof {
                        assert(jv_seq(out@) =~= seq![jv(p.0)] + jv_seq(q.0@));
                    }
                    Some((out, m))
                },
                None => None,
            }
        },
        None => None,
    }
}

fn ex_elems_rest(v: &Vec<char>, i: usize) -> (r: Option<(Vec<Json>, usize)>)
    requires
        i <= v@.len(),
    ensures
        match r {
            Some(p) => sp_elems_rest(v@, i as int) == Some((jv_seq(p.0@), p.1 as int))
                && i < p.1 <= v@.len(),
            None => sp_elems_rest(v@, i as int) is None,
        },
    decreases v@.len() - i, 4int,
{
    let j = ex_ws(v, i);
    if j >= v.len() {
        return None;
    }
    if v[j] == ']' {
        let out: Vec<Json> = Vec::new();
        assert(jv_seq(out@) =~= Seq::<JsonV>::empty());
        return Some((out, j + 1));
    }
    if v[j] != ',' {
        return None;
    }
    match ex_value(v, j + 1) {
        Some(p) => {
            let (head, k) = p;
            match ex_elems_rest(v, k) {
                Some(q) => {
                    let (mut tail, m) = q;
                    let mut out: Vec<Json> = Vec::new();
                    out.push(head);
                    out.append(&mut tail);
                    proof {
                        assert(jv_seq(out@) =~= seq![jv(p.0)] + jv_seq(q.0@));
                    }
                    Some((out, m))
                },
                None => None,
            }
        },
        None => None,
    }
}

fn ex_members(v: &Vec<char>, i: usize) -> (r: Option<(Vec<(String, Json)>, usize)>)
    requires
        i <= v@.len(),
    ensures
        match r {
            Some(p) => sp_members(v@, i as int) == Some((jv_entries(p.0@), p.1 as int))
                && i < p.1 <= v@.len(),
            None => sp_members(v@, i as int) is None,
        },
    decreases v@.len() - i, 3int,
{
    let j = ex_ws(v, i);
    if j >= v.len() {
        return None;
    }
    if v[j] == '}' {
        let out: Vec<(String, Json)> = Vec::new();
        assert(jv_entries(out@) =~= Seq::<(Seq<char>, JsonV)>::empty());
        return Some((out, j + 1));
    }
    if v[j] != '"' {
        return None;
    }
    match ex_string(v, j + 1) {
        Some(kp) => {
            let (key_chars, k) = kp;
            let m = ex_ws(v, k);
            if m >= v.len() {
                return None;
            }
            if v[m] != ':' {
                return None;
            }
            match ex_value(v, m + 1) {
                Some(p) => {
                    let (val, k2) = p;
                    match ex_members_rest(v, k2) {
                        Some(q) => {
                            let (mut tail, m2) = q;
                            let key = chars_to_string(&key_chars);
                            let mut out: Vec<(String, Json)> = Vec::new();
                            out.push((key, val));
                            out.append(&mut tail);
                            proof {
                                assert(jv_entries(out@) =~= seq![(kp.0@, jv(p.0))] + jv_entries(
                                    q.0@,
                                ));
                            }
                            Some((out, m2))
                        },
                        None => None,
                    }
                },
                None => None,
            }
        },
        None => None,
    }
}

fn ex_members_rest(v: &Vec<char>, i: usize) -> (r: Option<(Vec<(String, Json)>, usize)>)
    requires
        i <= v@.len(),
    ensures
        match r {
            Some(p) => sp_members_rest(v@, i as int) == Some((jv_entries(p.0@), p.1 as int))
                && i < p.1 <= v@.len(),
            None => sp_members_rest(v@, i as int) is None,
        },
    decreases v@.len() - i, 4int,
{
    let j = ex_ws(v, i);
    if j >= v.len() {
        return None;
    }
    if v[j] == '}' {
        let out: Vec<(String, Json)> = Vec::new();
        assert(jv_entries(out@) =~= Seq::<(Seq<char>, JsonV)>::empty());
        return Some((out, j + 1));
    }
    if v[j] != ',' {
        return None;
    }
    let m2 = ex_ws(v, j + 1);
    if m2 >= v.len() {
        return None;
    }
    if v[m2] != '"' {
        return None;
    }
    match ex_string(v, m2 + 1) {
        Some(kp) => {
            let (key_chars, k) = kp;
            let m = ex_ws(v, k);
            if m >= v.len() {
                return None;
            }
            if v[m] != ':' {
                return None;
            }
            match ex_value(v, m + 1) {
                Some(p) => {
                    let (val, k2) = p;
                    match ex_members_rest(v, k2) {
                        Some(q) => {
                            let (mut tail, m3) = q;
                            let key = chars_to_string(&key_chars);
                            let mut out: Vec<(String, Json)> = Vec::new();
                            out.push((key, val));
                            out.append(&mut tail);
                            proof {
                                assert(jv_entries(out@) =~= seq![(kp.0@, jv(p.0))] + jv_entries(
                                    q.0@,
                                ));
                            }
                            Some((out, m3))
                        },
                        None => None,
                    }
                },
                None => None,
            }
        },
        None => None,
    }
}

/// Parses a whole JSON text into a document, exactly when the grammar admits
/// it.
pub fn parse_json_chars(v: &Vec<char>) -> (r: Option<Json>)
    ensures
        match r {
            Some(j) => spec_parse_json(v@) == Some(jv(j)),
            None => spec_parse_json(v@) is None,
        },
{
    match ex_value(v, 0) {
        Some(p) => {
            let (doc, k) = p;
            let m = ex_ws(v, k);
            if m == v.len() {
                Some(doc)
            } else {
                None
            }
        },
        None => None,
    }
}

/// Parses a whole JSON text given as a string slice.
pub fn parse_json_str(s: &str) -> (r: Option<Json>)
    ensures
        match r {
            Some(j) => spec_parse_json(s@) == Some(jv(j)),
            None => spec_parse_json(s@) is None,
        },
{
    let v = crate::text::to_chars(s);
    parse_json_chars(&v)
}

} // verus!
