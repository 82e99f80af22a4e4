//! Character-level text utilities: conversions between `str`/`String` and
//! `Vec<char>`, searching, slicing, trimming, splitting, and decimal
//! numbers. All contracts are stated over `Seq<char>`.

use vstd::prelude::*;
use vstd::string::StrSliceExecFns;
use vstd::string::StringExecFns;

verus! {

/// Blank characters stripped by trimming: space, tab, carriage return, newline.
pub open spec fn is_space(c: char) -> bool {
    c == ' ' || c == '\t' || c == '\r' || c == '\n'
}

/// One decimal digit.
pub open spec fn is_digit(c: char) -> bool {
    '0' <= c && c <= '9'
}

/// The characters of a string slice, in order.
pub fn to_chars(s: &str) -> (r: Vec<char>)
    ensures
        r@ == s@,
{
    let n = s.unicode_len();
    let mut r: Vec<char> = Vec::new();
    let mut i: usize = 0;
    while i < n
        invariant
            i <= n,
            n == s@.len(),
            r@ == s@.subrange(0, i as int),
        decreases n - i,
    {
        r.push(s.get_char(i));
        assert(s@.subrange(0, i + 1) =~= s@.subrange(0, i as int).push(s@[i as int]));
        i += 1;
    }
    assert(s@.subrange(0, n as int) =~= s@);
    r
}

/// A `String` holding exactly the given characters.
pub fn chars_to_string(v: &Vec<char>) -> (r: String)
    ensures
        r@ == v@,
{
    let mut r = String::new();
    let mut i: usize = 0;
    while i < v.len()
        invariant
            i <= v@.len(),
            r@ == v@.subrange(0, i as int),
        decreases v@.len() - i,
    {
        r.push(v[i]);
        assert(v@.subrange(0, i + 1) =~= v@.subrange(0, i as int).push(v@[i as int]));
        i += 1;
    }
    assert(v@.subrange(0, v@.len() as int) =~= v@);
    r
}

/// Whether two character runs are equal.
pub fn chars_eq(a: &Vec<char>, b: &Vec<char>) -> (r: bool)
    ensures
        r == (a@ == b@),
{
    if a.len() != b.len() {
        return false;
    }
    let mut i: usize = 0;
    while i < a.len()
        invariant
            i <= a@.len(),
            a@.len() == b@.len(),
            forall|j: int| 0 <= j < i ==> a@[j] == b@[j],
        decreases a@.len() - i,
    {
        if a[i] != b[i] {
            return false;
        }
        i += 1;
    }
    assert(a@ =~= b@);
    true
}

/// Whether a character run equals a string slice.
pub fn eq_str(a: &Vec<char>, b: &str) -> (r: bool)
    ensures
        r == (a@ == b@),
{
    let bc = to_chars(b);
    chars_eq(a, &bc)
}

/// Whether two string slices hold the same characters.
pub fn str_eq(a: &str, b: &str) -> (r: bool)
    ensures
        r == (a@ == b@),
{
    let ac = to_chars(a);
    eq_str(&ac, b)
}

/// `p` is a prefix of `s`.
pub open spec fn spec_starts_with(s: Seq<char>, p: Seq<char>) -> bool {
    p.len() <= s.len() && s.subrange(0, p.len() as int) == p
}

/// Whether the run begins with the characters of `p`.
pub fn starts_with_str(v: &Vec<char>, p: &str) -> (r: bool)
    ensures
        r == spec_starts_with(v@, p@),
{
    let pc = to_chars(p);
    if v.len() < pc.len() {
        assert(!spec_starts_with(v@, p@));
        return false;
    }
    let mut i: usize = 0;
    while i < pc.len()
        invariant
            i <= pc@.len(),
            pc@.len() <= v@.len(),
            pc@ == p@,
            forall|j: int| 0 <= j < i ==> v@[j] == pc@[j],
        decreases pc@.len() - i,
    {
        if v[i] != pc[i] {
            assert(v@.subrange(0, p@.len() as int)[i as int] != p@[i as int]);
            return false;
        }
        i += 1;
    }
    assert(v@.subrange(0, p@.len() as int) =~= p@);
    true
}

/// The first index at or after `from` holding `c`.
pub open spec fn spec_find(s: Seq<char>, c: char, from: int) -> Option<int>
    decreases s.len() - from,
{
    if from < 0 || from >= s.len() {
        None
    } else if s[from] == c {
        Some(from)
    } else {
        spec_find(s, c, from + 1)
    }
}

/// What a successful or failed find means, spelled out.
pub proof fn lemma_find_props(s: Seq<char>, c: char, from: int)
    requires
        0 <= from,
    ensures
        match spec_find(s, c, from) {
            Some(i) => from <= i < s.len() && s[i] == c
                && forall|j: int| from <= j < i ==> s[j] != c,
            None => forall|j: int| from <= j < s.len() ==> s[j] != c,
        },
    decreases s.len() - from,
{
    if from < s.len() && s[from] != c {
        lemma_find_props(s, c, from + 1);
    }
}

/// Finding in a suffix is finding in the whole, shifted.
pub proof fn lemma_find_shift(s: Seq<char>, c: char, start: int, from: int)
    requires
        0 <= start <= from <= s.len(),
    ensures
        spec_find(s, c, from) == match spec_find(s.subrange(start, s.len() as int), c, from - start) {
            Some(i) => Some(i + start),
            None => None::<int>,
        },
    decreases s.len() - from,
{
    if from < s.len() {
        if s[from] != c {
            lemma_find_shift(s, c, start, from + 1);
        }
    }
}

/// The first index at or after `from` holding `c`, if any.
pub fn find_from(v: &Vec<char>, c: char, from: usize) -> (r: Option<usize>)
    ensures
        match r {
            Some(i) => spec_find(v@, c, from as int) == Some(i as int),
            None => spec_find(v@, c, from as int) is None,
        },
{
    let mut i: usize = from;
    while i < v.len()
        invariant
            from <= i,
            i <= v@.len() || from >= v@.len(),
            spec_find(v@, c, from as int) == spec_find(v@, c, i as int),
        decreases v@.len() - i,
    {
        if v[i] == c {
            return Some(i);
        }
        i += 1;
    }
    None
}

/// The last index holding `c`, if any.
pub open spec fn spec_rfind(s: Seq<char>, c: char) -> Option<int>
    decreases s.len(),
{
    if s.len() == 0 {
        None
    } else if s[s.len() - 1] == c {
        Some(s.len() - 1)
    } else {
        spec_rfind(s.drop_last(), c)
    }
}

/// What a successful or failed reverse find means, spelled out.
pub proof fn lemma_rfind_props(s: Seq<char>, c: char)
    ensures
        match spec_rfind(s, c) {
            Some(i) => 0 <= i < s.len() && s[i] == c
                && forall|j: int| i < j < s.len() ==> s[j] != c,
            None => forall|j: int| 0 <= j < s.len() ==> s[j] != c,
        },
    decreases s.len(),
{
    if s.len() > 0 && s[s.len() - 1] != c {
        lemma_rfind_props(s.drop_last(), c);
        assert(forall|j: int| 0 <= j < s.len() - 1 ==> s.drop_last()[j] == s[j]);
    }
}

/// The last index holding `c`, if any.
pub fn rfind(v: &Vec<char>, c: char) -> (r: Option<usize>)
    ensures
        match r {
            Some(i) => spec_rfind(v@, c) == Some(i as int),
            None => spec_rfind(v@, c) is None,
        },
{
    let mut i: usize = v.len();
    assert(v@.subrange(0, v@.len() as int) =~= v@);
    while i > 0
        invariant
            i <= v@.len(),
            spec_rfind(v@, c) == spec_rfind(v@.subrange(0, i as int), c),
        decreases i,
    {
        i -= 1;
        assert(v@.subrange(0, i + 1).drop_last() =~= v@.subrange(0, i as int));
        if v[i] == c {
            return Some(i);
        }
    }
    assert(v@.subrange(0, 0) =~= Seq::<char>::empty());
    None
}

/// A copy of the characters in `[i, j)`.
pub fn sub_chars(v: &Vec<char>, i: usize, j: usize) -> (r: Vec<char>)
    requires
        i <= j <= v@.len(),
    ensures
        r@ == v@.subrange(i as int, j as int),
{
    let mut r: Vec<char> = Vec::new();
    let mut k: usize = i;
    while k < j
        invariant
            i <= k <= j <= v@.len(),
            r@ == v@.subrange(i as int, k as int),
        decreases j - k,
    {
        r.push(v[k]);
        assert(v@.subrange(i as int, k + 1) =~= v@.subrange(i as int, k as int).push(v@[k as int]));
        k += 1;
    }
    r
}

/// Appends all of `src` to `dst`.
pub fn push_all(dst: &mut Vec<char>, src: &Vec<char>)
    ensures
        final(dst)@ == old(dst)@ + src@,
{
    let mut k: usize = 0;
    while k < src.len()
        invariant
            k <= src@.len(),
            dst@ == old(dst)@ + src@.subrange(0, k as int),
        decreases src@.len() - k,
    {
        dst.push(src[k]);
        assert(old(dst)@ + src@.subrange(0, k + 1)
            =~= (old(dst)@ + src@.subrange(0, k as int)).push(src@[k as int]));
        k += 1;
    }
    assert(old(dst)@ + src@.subrange(0, src@.len() as int) =~= old(dst)@ + src@);
}

/// The run without its leading blanks.
pub open spec fn spec_trim_front(s: Seq<char>) -> Seq<char>
    decreases s.len(),
{
    if s.len() > 0 && is_space(s[0]) {
        spec_trim_front(s.drop_first())
    } else {
        s
    }
}

/// The run without its trailing blanks.
pub open spec fn spec_trim_back(s: Seq<char>) -> Seq<char>
    decreases s.len(),
{
    if s.len() > 0 && is_space(s[s.len() - 1]) {
        spec_trim_back(s.drop_last())
    } else {
        s
    }
}

/// The run without leading and trailing blanks.
pub open spec fn spec_trim(s: Seq<char>) -> Seq<char> {
    spec_trim_back(spec_trim_front(s))
}

proof fn lemma_trim_front_skip(s: Seq<char>, i: int)
    requires
        0 <= i <= s.len(),
        forall|k: int| 0 <= k < i ==> is_space(s[k]),
    ensures
        spec_trim_front(s) == spec_trim_front(s.subrange(i, s.len() as int)),
    decreases i,
{
    if i > 0 {
        assert(is_space(s[0]));
        assert(s.drop_first() =~= s.subrange(1, s.len() as int));
        lemma_trim_front_skip(s.drop_first(), i - 1);
        assert(s.drop_first().subrange(i - 1, s.drop_first().len() as int)
            =~= s.subrange(i, s.len() as int));
    } else {
        assert(s.subrange(0, s.len() as int) =~= s);
    }
}

proof fn lemma_trim_back_keep(s: Seq<char>, j: int)
    requires
        0 <= j <= s.len(),
        forall|k: int| j <= k < s.len() ==> is_space(s[k]),
        j > 0 ==> !is_space(s[j - 1]),
    ensures
        spec_trim_back(s) == s.subrange(0, j),
    decreases s.len(),
{
    if s.len() == 0 {
        assert(s.subrange(0, 0) =~= s);
    } else if j == s.len() {
        assert(!is_space(s[s.len() - 1]));
        assert(s.subrange(0, s.len() as int) =~= s);
    } else {
        assert(is_space(s[s.len() - 1]));
        lemma_trim_back_keep(s.drop_last(), j);
        assert(s.drop_last().subrange(0, j) =~= s.subrange(0, j));
    }
}

fn is_space_at(v: &Vec<char>, i: usize) -> (r: bool)
    requires
        i < v@.len(),
    ensures
        r == is_space(v@[i as int]),
{
    let c = v[i];
    c == ' ' || c == '\t' || c == '\r' || c == '\n'
}

/// The run without leading and trailing blanks.
pub fn trim(v: &Vec<char>) -> (r: Vec<char>)
    ensures
        r@ == spec_trim(v@),
{
    let mut i: usize = 0;
    while i < v.len() && is_space_at(v, i)
        invariant
            i <= v@.len(),
            forall|k: int| 0 <= k < i ==> is_space(v@[k]),
        decreases v@.len() - i,
    {
        i += 1;
    }
    let mut j: usize = v.len();
    while j > i && is_space_at(v, j - 1)
        invariant
            i <= j <= v@.len(),
            forall|k: int| 0 <= k < i ==> is_space(v@[k]),
            forall|k: int| j <= k < v@.len() ==> is_space(v@[k]),
        decreases j,
    {
        j -= 1;
    }
    proof {
        lemma_trim_front_skip(v@, i as int);
        let t = v@.subrange(i as int, v@.len() as int);
        lemma_trim_back_keep(t, j - i);
        assert(t.subrange(0, j - i) =~= v@.subrange(i as int, j as int));
    }
    sub_chars(v, i, j)
}

/// Numeric value of a run of decimal digits (most significant first).
pub open spec fn spec_digits_value(s: Seq<char>) -> int
    decreases s.len(),
{
    if s.len() == 0 {
        0
    } else {
        spec_digits_value(s.drop_last()) * 10 + (s.last() as int - '0' as int)
    }
}

/// The value of a run of digits is non-negative.
pub proof fn lemma_digits_value_nonneg(s: Seq<char>)
    requires
        forall|j: int| 0 <= j < s.len() ==> is_digit(s[j]),
    ensures
        spec_digits_value(s) >= 0,
    decreases s.len(),
{
    if s.len() > 0 {
        lemma_digits_value_nonneg(s.drop_last());
    }
}

/// Extending a run of digits never shrinks its value.
pub proof fn lemma_digits_value_monotone(s: Seq<char>, i: int)
    requires
        0 <= i <= s.len(),
        forall|j: int| 0 <= j < s.len() ==> is_digit(s[j]),
    ensures
        spec_digits_value(s.subrange(0, i)) <= spec_digits_value(s),
    decreases s.len() - i,
{
    if i == s.len() {
        assert(s.subrange(0, i) =~= s);
    } else {
        lemma_digits_value_monotone(s, i + 1);
        let p = s.subrange(0, i + 1);
        assert(p.drop_last() =~= s.subrange(0, i));
        lemma_digits_value_nonneg(s.subrange(0, i));
    }
}

/// Every character of the run is a decimal digit.
pub open spec fn all_digits(s: Seq<char>) -> bool {
    forall|j: int| 0 <= j < s.len() ==> is_digit(s[j])
}

/// What a run of characters denotes as an unsigned number no greater than
/// `max`: defined exactly when, after an optional leading `+`, the run is one
/// or more decimal digits whose value is within bounds.
pub open spec fn spec_parse_uint(s: Seq<char>, max: int) -> Option<int> {
    let t = if s.len() > 0 && s[0] == '+' { s.drop_first() } else { s };
    if t.len() > 0 && all_digits(t) && spec_digits_value(t) <= max {
        Some(spec_digits_value(t))
    } else {
        None
    }
}

/// Parses an unsigned decimal number of at most `max`, mirroring how the
/// standard numeric parser treats an optional leading `+`.
#[verifier::rlimit(50)]
pub fn parse_uint(digits: &Vec<char>, max: u64) -> (r: Option<u64>)
    ensures
        match r {
            Some(n) => spec_parse_uint(digits@, max as int) == Some(n as int),
            None => spec_parse_uint(digits@, max as int) is None,
        },
{
    let start: usize = if digits.len() > 0 && digits[0] == '+' { 1 } else { 0 };
    let ghost t = if digits@.len() > 0 && digits@[0] == '+' { digits@.drop_first() } else { digits@ };
    assert(t =~= digits@.subrange(start as int, digits@.len() as int));
    if digits.len() == start {
        return None;
    }
    let mut acc: u64 = 0;
    let mut i: usize = start;
    while i < digits.len()
        invariant
            start <= i <= digits@.len(),
            start < digits@.len(),
            t == (if digits@.len() > 0 && digits@[0] == '+' { digits@.drop_first() } else { digits@ }),
            t == digits@.subrange(start as int, digits@.len() as int),
            acc as int == spec_digits_value(t.subrange(0, i - start)),
            forall|j: int| 0 <= j < i - start ==> is_digit(t[j]),
            acc <= max,
        decreases digits@.len() - i,
    {
        let c = digits[i];
        if !('0' <= c && c <= '9') {
            proof {
                let idx = i as int - start as int;
                assert(0 <= idx < t.len());
                assert(!is_digit(t[idx]));
                assert(!all_digits(t));
                assert(spec_parse_uint(digits@, max as int) is None);
            }
            return None;
        }
        let d: u64 = ((c as u32) - ('0' as u32)) as u64;
        let ghost p = t.subrange(0, i + 1 - start);
        assert(p.drop_last() =~= t.subrange(0, i - start));
        let wide: u128 = (acc as u128) * 10 + (d as u128);
        assert(spec_digits_value(p) == wide as int);
        if wide > max as u128 {
            proof {
                if all_digits(t) {
                    lemma_digits_value_monotone(t, i + 1 - start);
                    assert(spec_digits_value(t) >= spec_digits_value(p) > max as int);
                }
                assert(spec_parse_uint(digits@, max as int) is None);
            }
            return None;
        }
        acc = wide as u64;
        i += 1;
    }
    assert(t.subrange(0, t.len() as int) =~= t);
    Some(acc)
}

/// The decimal digit character for `d`.
pub open spec fn spec_digit_char(d: int) -> char {
    if d == 0 { '0' } else if d == 1 { '1' } else if d == 2 { '2' } else if d == 3 { '3' }
    else if d == 4 { '4' } else if d == 5 { '5' } else if d == 6 { '6' } else if d == 7 { '7' }
    else if d == 8 { '8' } else { '9' }
}

/// The decimal writing of `n`, most significant digit first.
pub open spec fn spec_dec_of(n: int) -> Seq<char>
    decreases n,
{
    if n < 10 {
        seq![spec_digit_char(n)]
    } else {
        spec_dec_of(n / 10).push(spec_digit_char(n % 10))
    }
}

fn digit_char(d: u64) -> (r: char)
    requires
        d < 10,
    ensures
        r == spec_digit_char(d as int),
{
    if d == 0 { '0' } else if d == 1 { '1' } else if d == 2 { '2' } else if d == 3 { '3' }
    else if d == 4 { '4' } else if d == 5 { '5' } else if d == 6 { '6' } else if d == 7 { '7' }
    else if d == 8 { '8' } else { '9' }
}

/// The decimal writing of `n`.
pub fn u64_to_chars(n: u64) -> (r: Vec<char>)
    ensures
        r@ == spec_dec_of(n as int),
    decreases n,
{
    if n < 10 {
        let mut r: Vec<char> = Vec::new();
        r.push(digit_char(n));
        assert(r@ =~= seq![spec_digit_char(n as int)]);
        r
    } else {
        let mut r = u64_to_chars(n / 10);
        r.push(digit_char(n % 10));
        r
    }
}

/// ASCII upper-case letters mapped to lower case; all else unchanged.
pub open spec fn spec_lower_char(c: char) -> char {
    if 'A' <= c && c <= 'Z' {
        ((c as u8) + 32) as char
    } else {
        c
    }
}

/// The run with ASCII letters lowered.
pub open spec fn spec_lower(s: Seq<char>) -> Seq<char> {
    Seq::new(s.len(), |i: int| spec_lower_char(s[i]))
}

/// Whether the run, ASCII-lowered, equals `b`.
pub fn eq_lower_str(v: &Vec<char>, b: &str) -> (r: bool)
    ensures
        r == (spec_lower(v@) == b@),
{
    let mut low: Vec<char> = Vec::new();
    let mut i: usize = 0;
    while i < v.len()
        invariant
            i <= v@.len(),
            low@ == spec_lower(v@).subrange(0, i as int),
        decreases v@.len() - i,
    {
        let c = v[i];
        if 'A' <= c && c <= 'Z' {
            low.push(((c as u8) + 32) as char);
        } else {
            low.push(c);
        }
        assert(spec_lower(v@).subrange(0, i + 1)
            =~= spec_lower(v@).subrange(0, i as int).push(spec_lower_char(v@[i as int])));
        i += 1;
    }
    assert(spec_lower(v@).subrange(0, v@.len() as int) =~= spec_lower(v@));
    eq_str(&low, b)
}

/// The run cut at every `sep`; a run with no separator is one piece, and a
/// separator at the edge yields an empty piece, as with the standard `split`.
pub open spec fn spec_split(s: Seq<char>, sep: char) -> Seq<Seq<char>>
    decreases s.len(),
{
    match spec_find(s, sep, 0) {
        None => seq![s],
        Some(i) => {
            if 0 <= i < s.len() {
                seq![s.subrange(0, i)] + spec_split(s.subrange(i + 1, s.len() as int), sep)
            } else {
                seq![s]
            }
        },
    }
}

/// The pieces of the run, cut at every `sep`.
pub fn split_chars(v: &Vec<char>, sep: char) -> (r: Vec<Vec<char>>)
    ensures
        r@.len() == spec_split(v@, sep).len(),
        forall|i: int| 0 <= i < r@.len() ==> r@[i]@ == spec_split(v@, sep)[i],
{
    let mut r: Vec<Vec<char>> = Vec::new();
    let mut start: usize = 0;
    let n = v.len();
    assert(v@.len() == n);
    assert(v@.subrange(0, n as int) =~= v@);
    loop
        invariant
            v@.len() <= usize::MAX,
            start <= v@.len(),
            spec_split(v@, sep).len() == r@.len() + spec_split(v@.subrange(start as int, v@.len() as int), sep).len(),
            forall|i: int| 0 <= i < r@.len() ==> r@[i]@ == spec_split(v@, sep)[i],
            forall|i: int| r@.len() <= i < spec_split(v@, sep).len()
                ==> spec_split(v@, sep)[i]
                    == spec_split(v@.subrange(start as int, v@.len() as int), sep)[i - r@.len()],
        decreases v@.len() - start + 1,
    {
        let ghost rest = v@.subrange(start as int, v@.len() as int);
        proof {
            lemma_find_shift(v@, sep, start as int, start as int);
            lemma_find_props(v@, sep, start as int);
        }
        match find_from(v, sep, start) {
            Some(i) => {
                assert((i as int) < v@.len());
                assert(spec_find(rest, sep, 0) == Some(i - start));
                assert(spec_split(rest, sep) =~= seq![rest.subrange(0, i - start)]
                    + spec_split(rest.subrange(i - start + 1, rest.len() as int), sep));
                let piece = sub_chars(v, start, i);
                assert(piece@ =~= rest.subrange(0, i - start));
                assert(rest.subrange(i - start + 1, rest.len() as int)
                    =~= v@.subrange(i + 1, v@.len() as int));
                r.push(piece);
                start = i + 1;
            },
            None => {
                assert(spec_find(rest, sep, 0) is None);
                assert(spec_split(rest, sep) =~= seq![rest]);
                let piece = sub_chars(v, start, v.len());
                r.push(piece);
                return r;
            },
        }
    }
}


/// The value of one hexadecimal digit, upper or lower case.
pub open spec fn spec_hex_val(c: char) -> Option<int> {
    if '0' <= c && c <= '9' {
        Some(c as int - '0' as int)
    } else if 'a' <= c && c <= 'f' {
        Some(c as int - 'a' as int + 10)
    } else if 'A' <= c && c <= 'F' {
        Some(c as int - 'A' as int + 10)
    } else {
        None
    }
}

/// The value of one hexadecimal digit, if it is one.
pub fn hex_val(c: char) -> (r: Option<u32>)
    ensures
        match r {
            Some(d) => spec_hex_val(c) == Some(d as int),
            None => spec_hex_val(c) is None,
        },
{
    if '0' <= c && c <= '9' {
        Some((c as u32) - ('0' as u32))
    } else if 'a' <= c && c <= 'f' {
        Some((c as u32) - ('a' as u32) + 10)
    } else if 'A' <= c && c <= 'F' {
        Some((c as u32) - ('A' as u32) + 10)
    } else {
        None
    }
}

} // verus!