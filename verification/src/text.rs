//! Text as sequences of characters: the operations on strings that the rest
//! of the library is written with, each stated over `Seq<char>`.

use vstd::prelude::*;
use vstd::std_specs::iter::IteratorSpec;
use vstd::utf8::encode_utf8;

verus! {

/// `String::push` appends one character at the end of the string.
pub assume_specification[ String::push ](s: &mut String, c: char)
    ensures
        final(s)@ == old(s)@.push(c),
;

/// `char::is_whitespace`, by name: whether a character has the Unicode
/// property White_Space.
pub uninterp spec fn whitespace(c: char) -> bool;

/// `char::is_whitespace` is a function of the character alone; of the ASCII
/// range only the blank, the tab, the line feed, the vertical tab, the form
/// feed and the carriage return have the property.
pub assume_specification[ char::is_whitespace ](c: char) -> (r: bool)
    ensures
        r == whitespace(c),
        (c as u32) < 128 ==> r == (c == ' ' || (9 <= c as u32 && c as u32 <= 13)),
;

pub open spec fn is_lower(c: char) -> bool {
    'a' <= c && c <= 'z'
}

pub open spec fn is_upper(c: char) -> bool {
    'A' <= c && c <= 'Z'
}

pub open spec fn is_digit(c: char) -> bool {
    '0' <= c && c <= '9'
}

pub open spec fn is_alpha(c: char) -> bool {
    is_lower(c) || is_upper(c)
}

pub open spec fn is_alnum(c: char) -> bool {
    is_alpha(c) || is_digit(c)
}

/// The ASCII lower case of `c`; other characters are their own.
pub open spec fn lower(c: char) -> char {
    if is_upper(c) {
        ((c as u32) + 32) as char
    } else {
        c
    }
}

/// The ASCII upper case of `c`; other characters are their own.
pub open spec fn upper(c: char) -> char {
    if is_lower(c) {
        ((c as u32) - 32) as char
    } else {
        c
    }
}

pub fn lower_char(c: char) -> (r: char)
    ensures
        r == lower(c),
{
    if c >= 'A' && c <= 'Z' {
        ((c as u8) + 32) as char
    } else {
        c
    }
}

pub fn upper_char(c: char) -> (r: char)
    ensures
        r == upper(c),
{
    if c >= 'a' && c <= 'z' {
        ((c as u8) - 32) as char
    } else {
        c
    }
}

pub fn lower_alpha(c: char) -> (r: bool)
    ensures
        r == is_lower(c),
{
    c >= 'a' && c <= 'z'
}

pub fn digit(c: char) -> (r: bool)
    ensures
        r == is_digit(c),
{
    c >= '0' && c <= '9'
}

pub fn alpha(c: char) -> (r: bool)
    ensures
        r == is_alpha(c),
{
    (c >= 'a' && c <= 'z') || (c >= 'A' && c <= 'Z')
}

pub fn alnum(c: char) -> (r: bool)
    ensures
        r == is_alnum(c),
{
    alpha(c) || digit(c)
}

/// The characters of `s`.
pub fn chars_of(s: &str) -> (r: Vec<char>)
    ensures
        r@ == s@,
{
    let mut out: Vec<char> = Vec::new();
    let mut it = s.chars();
    proof {
        assert(out@ + it.remaining() =~= s@);
    }
    loop
        invariant
            out@ + it.remaining() == s@,
            it.obeys_prophetic_iter_laws(),
        ensures
            out@ == s@,
        decreases s@.len() - out@.len(),
    {
        match it.next() {
            Some(c) => {
                out.push(c);
                proof {
                    assert(out@ + it.remaining() =~= s@);
                }
            },
            None => {
                proof {
                    assert(out@ =~= s@);
                }
                break;
            },
        }
    }
    out
}

/// The string made of the characters of `v` from `from` up to `to`.
pub fn text_between(v: &Vec<char>, from: usize, to: usize) -> (r: String)
    requires
        from <= to <= v@.len(),
    ensures
        r@ == v@.subrange(from as int, to as int),
{
    let mut out: String = String::new();
    let mut i: usize = from;
    while i < to
        invariant
            from <= i <= to <= v@.len(),
            out@ == v@.subrange(from as int, i as int),
        decreases to - i,
    {
        out.push(v[i]);
        i = i + 1;
        proof {
            assert(out@ =~= v@.subrange(from as int, i as int));
        }
    }
    proof {
        assert(out@ =~= v@.subrange(from as int, to as int));
    }
    out
}

/// The string made of the characters of `v`.
pub fn text_of(v: &Vec<char>) -> (r: String)
    ensures
        r@ == v@,
{
    let r: String = text_between(v, 0, v.len());
    proof {
        assert(v@.subrange(0, v@.len() as int) =~= v@);
    }
    r
}

pub fn str_eq(a: &str, b: &str) -> (r: bool)
    ensures
        r == (a@ == b@),
{
    a.to_owned() == b.to_owned()
}

pub fn cat2(a: &str, b: &str) -> (r: String)
    ensures
        r@ == a@ + b@,
{
    let mut s: String = a.to_owned();
    s.append(b);
    s
}

pub fn cat3(a: &str, b: &str, c: &str) -> (r: String)
    ensures
        r@ == a@ + b@ + c@,
{
    let mut s: String = cat2(a, b);
    s.append(c);
    s
}

pub fn cat4(a: &str, b: &str, c: &str, d: &str) -> (r: String)
    ensures
        r@ == a@ + b@ + c@ + d@,
{
    let mut s: String = cat3(a, b, c);
    s.append(d);
    s
}

pub fn cat5(a: &str, b: &str, c: &str, d: &str, e: &str) -> (r: String)
    ensures
        r@ == a@ + b@ + c@ + d@ + e@,
{
    let mut s: String = cat4(a, b, c, d);
    s.append(e);
    s
}

pub fn cat7(a: &str, b: &str, c: &str, d: &str, e: &str, f: &str, g: &str) -> (r: String)
    ensures
        r@ == a@ + b@ + c@ + d@ + e@ + f@ + g@,
{
    let mut s: String = cat5(a, b, c, d, e);
    s.append(f);
    s.append(g);
    s
}

/// Whether `p` stands in `s` at position `at`.
pub open spec fn stands_at(s: Seq<char>, p: Seq<char>, at: int) -> bool {
    0 <= at && at + p.len() <= s.len() && s.subrange(at, at + p.len()) =~= p
}

/// Whether `p` occurs somewhere in `s`.
pub open spec fn occurs(s: Seq<char>, p: Seq<char>) -> bool {
    exists|at: int| stands_at(s, p, at)
}

pub open spec fn has_prefix(s: Seq<char>, p: Seq<char>) -> bool {
    stands_at(s, p, 0)
}

pub open spec fn has_suffix(s: Seq<char>, p: Seq<char>) -> bool {
    stands_at(s, p, s.len() - p.len())
}

/// `stands_at` on character vectors.
pub fn matches_at(s: &Vec<char>, p: &Vec<char>, at: usize) -> (r: bool)
    ensures
        r == stands_at(s@, p@, at as int),
{
    let n: usize = s.len();
    if at > n || p.len() > n - at {
        return false;
    }
    let mut i: usize = 0;
    while i < p.len()
        invariant
            n == s@.len(),
            at + p@.len() <= n,
            i <= p@.len(),
            forall|j: int| 0 <= j < i ==> s@[at + j] == p@[j],
        decreases p@.len() - i,
    {
        if s[at + i] != p[i] {
            proof {
                assert(s@.subrange(at as int, at + p@.len())[i as int] == s@[at + i]);
            }
            return false;
        }
        i = i + 1;
    }
    true
}

pub fn starts_with(s: &str, p: &str) -> (r: bool)
    ensures
        r == has_prefix(s@, p@),
{
    matches_at(&chars_of(s), &chars_of(p), 0)
}

pub fn ends_with(s: &str, p: &str) -> (r: bool)
    ensures
        r == has_suffix(s@, p@),
{
    let sv: Vec<char> = chars_of(s);
    let pv: Vec<char> = chars_of(p);
    if pv.len() > sv.len() {
        return false;
    }
    matches_at(&sv, &pv, sv.len() - pv.len())
}

pub fn contains(s: &str, p: &str) -> (r: bool)
    ensures
        r == occurs(s@, p@),
{
    let sv: Vec<char> = chars_of(s);
    let pv: Vec<char> = chars_of(p);
    let mut at: usize = 0;
    while at < sv.len()
        invariant
            sv@ == s@,
            pv@ == p@,
            at <= sv@.len(),
            forall|j: int| 0 <= j < at ==> !#[trigger] stands_at(s@, p@, j),
        decreases sv@.len() - at,
    {
        if matches_at(&sv, &pv, at) {
            return true;
        }
        at = at + 1;
    }
    let last: bool = matches_at(&sv, &pv, at);
    proof {
        assert(forall|j: int| stands_at(s@, p@, j) ==> 0 <= j <= s@.len());
    }
    last
}

/// What is left of `s` behind the prefix `p`, where it has that prefix.
pub open spec fn after_prefix(s: Seq<char>, p: Seq<char>) -> Option<Seq<char>> {
    if has_prefix(s, p) {
        Some(s.subrange(p.len() as int, s.len() as int))
    } else {
        None
    }
}

/// What is left of `s` before the suffix `p`, where it has that suffix.
pub open spec fn before_suffix(s: Seq<char>, p: Seq<char>) -> Option<Seq<char>> {
    if has_suffix(s, p) {
        Some(s.subrange(0, s.len() - p.len()))
    } else {
        None
    }
}

/// The contents of an optional string.
pub open spec fn opt_text(o: Option<String>) -> Option<Seq<char>> {
    match o {
        Some(s) => Some(s@),
        None => None,
    }
}

pub fn strip_prefix(s: &str, p: &str) -> (r: Option<String>)
    ensures
        opt_text(r) == after_prefix(s@, p@),
{
    let sv: Vec<char> = chars_of(s);
    let pv: Vec<char> = chars_of(p);
    if matches_at(&sv, &pv, 0) {
        Some(text_between(&sv, pv.len(), sv.len()))
    } else {
        None
    }
}

pub fn strip_suffix(s: &str, p: &str) -> (r: Option<String>)
    ensures
        opt_text(r) == before_suffix(s@, p@),
{
    let sv: Vec<char> = chars_of(s);
    let pv: Vec<char> = chars_of(p);
    if pv.len() <= sv.len() && matches_at(&sv, &pv, sv.len() - pv.len()) {
        Some(text_between(&sv, 0, sv.len() - pv.len()))
    } else {
        None
    }
}

/// The number of characters at the front of `s` that satisfy `f`.
pub open spec fn lead(s: Seq<char>, f: spec_fn(char) -> bool) -> nat
    decreases s.len(),
{
    if s.len() > 0 && f(s[0]) {
        1 + lead(s.drop_first(), f)
    } else {
        0
    }
}

/// The number of characters at the end of `s` that satisfy `f`.
pub open spec fn tail(s: Seq<char>, f: spec_fn(char) -> bool) -> nat
    decreases s.len(),
{
    if s.len() > 0 && f(s.last()) {
        1 + tail(s.drop_last(), f)
    } else {
        0
    }
}

pub proof fn lemma_lead(s: Seq<char>, f: spec_fn(char) -> bool, n: int)
    requires
        0 <= n <= s.len(),
        forall|i: int| 0 <= i < n ==> f(#[trigger] s[i]),
        n < s.len() ==> !f(s[n]),
    ensures
        lead(s, f) == n,
    decreases s.len(),
{
    if n > 0 {
        let t = s.drop_first();
        assert(forall|i: int| 0 <= i < n - 1 ==> t[i] == #[trigger] s[i + 1]);
        assert(forall|i: int| 0 <= i < n - 1 ==> f(#[trigger] t[i]));
        assert(n < s.len() ==> t[n - 1] == s[n]);
        lemma_lead(t, f, n - 1);
    }
}

pub proof fn lemma_lead_bounds(s: Seq<char>, f: spec_fn(char) -> bool)
    ensures
        lead(s, f) <= s.len(),
        forall|i: int| 0 <= i < lead(s, f) ==> f(#[trigger] s[i]),
        lead(s, f) < s.len() ==> !f(s[lead(s, f) as int]),
    decreases s.len(),
{
    if s.len() > 0 && f(s[0]) {
        let t = s.drop_first();
        lemma_lead_bounds(t, f);
        assert forall|i: int| 0 <= i < lead(s, f) implies f(#[trigger] s[i]) by {
            if i > 0 {
                assert(t[i - 1] == s[i]);
            }
        }
    }
}

pub proof fn lemma_tail(s: Seq<char>, f: spec_fn(char) -> bool, n: int)
    requires
        0 <= n <= s.len(),
        forall|i: int| s.len() - n <= i < s.len() ==> f(#[trigger] s[i]),
        n < s.len() ==> !f(s[s.len() - n - 1]),
    ensures
        tail(s, f) == n,
    decreases s.len(),
{
    if n > 0 {
        let t = s.drop_last();
        assert(forall|i: int| 0 <= i < t.len() ==> t[i] == #[trigger] s[i]);
        lemma_tail(t, f, n - 1);
    }
}

pub proof fn lemma_tail_bounds(s: Seq<char>, f: spec_fn(char) -> bool)
    ensures
        tail(s, f) <= s.len(),
        forall|i: int| s.len() - tail(s, f) <= i < s.len() ==> f(#[trigger] s[i]),
        tail(s, f) < s.len() ==> !f(s[s.len() - tail(s, f) - 1]),
    decreases s.len(),
{
    if s.len() > 0 && f(s.last()) {
        let t = s.drop_last();
        lemma_tail_bounds(t, f);
        assert forall|i: int| s.len() - tail(s, f) <= i < s.len() implies f(#[trigger] s[i]) by {
            if i < s.len() - 1 {
                assert(t[i] == s[i]);
            }
        }
    }
}

/// `s` without the characters at its front that satisfy `f`.
pub open spec fn trim_start_by(s: Seq<char>, f: spec_fn(char) -> bool) -> Seq<char> {
    s.subrange(lead(s, f) as int, s.len() as int)
}

/// `s` without the characters at its end that satisfy `f`.
pub open spec fn trim_end_by(s: Seq<char>, f: spec_fn(char) -> bool) -> Seq<char> {
    s.subrange(0, s.len() - tail(s, f))
}

/// `s` without the characters at both ends that satisfy `f`.
pub open spec fn trim_by(s: Seq<char>, f: spec_fn(char) -> bool) -> Seq<char> {
    trim_end_by(trim_start_by(s, f), f)
}

pub open spec fn is_char(c: char) -> spec_fn(char) -> bool {
    |d: char| d == c
}

pub open spec fn not_char(c: char) -> spec_fn(char) -> bool {
    |d: char| d != c
}

pub open spec fn is_space() -> spec_fn(char) -> bool {
    |d: char| whitespace(d)
}

pub fn trim_start_char(s: &str, c: char) -> (r: String)
    ensures
        r@ == trim_start_by(s@, is_char(c)),
{
    let v: Vec<char> = chars_of(s);
    let mut i: usize = 0;
    while i < v.len() && v[i] == c
        invariant
            v@ == s@,
            i <= v@.len(),
            forall|j: int| 0 <= j < i ==> #[trigger] v@[j] == c,
        decreases v@.len() - i,
    {
        i = i + 1;
    }
    proof {
        lemma_lead(s@, is_char(c), i as int);
    }
    text_between(&v, i, v.len())
}

pub fn trim_end_char(s: &str, c: char) -> (r: String)
    ensures
        r@ == trim_end_by(s@, is_char(c)),
{
    let v: Vec<char> = chars_of(s);
    let mut n: usize = v.len();
    while n > 0 && v[n - 1] == c
        invariant
            v@ == s@,
            n <= v@.len(),
            forall|j: int| n <= j < v@.len() ==> #[trigger] v@[j] == c,
        decreases n,
    {
        n = n - 1;
    }
    proof {
        lemma_tail(s@, is_char(c), v@.len() - n);
    }
    text_between(&v, 0, n)
}

pub fn trim_char(s: &str, c: char) -> (r: String)
    ensures
        r@ == trim_by(s@, is_char(c)),
{
    let t: String = trim_start_char(s, c);
    trim_end_char(t.as_str(), c)
}

/// `s` without white space at its ends.
pub fn trim(s: &str) -> (r: String)
    ensures
        r@ == trim_by(s@, is_space()),
{
    let v: Vec<char> = chars_of(s);
    let mut i: usize = 0;
    while i < v.len() && v[i].is_whitespace()
        invariant
            v@ == s@,
            i <= v@.len(),
            forall|j: int| 0 <= j < i ==> whitespace(#[trigger] v@[j]),
        decreases v@.len() - i,
    {
        i = i + 1;
    }
    proof {
        lemma_lead(s@, is_space(), i as int);
    }
    let ghost t = s@.subrange(i as int, s@.len() as int);
    let mut n: usize = v.len();
    while n > i && v[n - 1].is_whitespace()
        invariant
            v@ == s@,
            i <= n <= v@.len(),
            forall|j: int| n <= j < v@.len() ==> whitespace(#[trigger] v@[j]),
        decreases n,
    {
        n = n - 1;
    }
    proof {
        assert forall|j: int| t.len() - (v@.len() - n) <= j < t.len() implies is_space()(
            #[trigger] t[j],
        ) by {
            assert(t[j] == v@[j + i]);
        }
        lemma_tail(t, is_space(), v@.len() - n);
        assert(t.subrange(0, n - i) =~= s@.subrange(i as int, n as int));
    }
    text_between(&v, i, n)
}

/// The position of the first `c` in `s`.
pub open spec fn first_at(s: Seq<char>, c: char) -> int {
    lead(s, not_char(c)) as int
}

/// `s` split at its first `c`, which belongs to neither half.
pub open spec fn halves(s: Seq<char>, c: char) -> Option<(Seq<char>, Seq<char>)> {
    let n = first_at(s, c);
    if n < s.len() {
        Some((s.subrange(0, n), s.subrange(n + 1, s.len() as int)))
    } else {
        None
    }
}

pub open spec fn opt_pair(o: Option<(String, String)>) -> Option<(Seq<char>, Seq<char>)> {
    match o {
        Some(p) => Some((p.0@, p.1@)),
        None => None,
    }
}

pub fn split_once(s: &str, c: char) -> (r: Option<(String, String)>)
    ensures
        opt_pair(r) == halves(s@, c),
{
    let v: Vec<char> = chars_of(s);
    let mut i: usize = 0;
    while i < v.len() && v[i] != c
        invariant
            v@ == s@,
            i <= v@.len(),
            forall|j: int| 0 <= j < i ==> #[trigger] v@[j] != c,
        decreases v@.len() - i,
    {
        i = i + 1;
    }
    proof {
        lemma_lead(s@, not_char(c), i as int);
    }
    if i < v.len() {
        Some((text_between(&v, 0, i), text_between(&v, i + 1, v.len())))
    } else {
        None
    }
}

/// The decimal digits of `n`.
pub open spec fn dec(n: nat) -> Seq<char>
    decreases n,
{
    if n < 10 {
        seq![digit_char(n)]
    } else {
        dec(n / 10).push(digit_char(n % 10))
    }
}

pub open spec fn digit_char(n: nat) -> char {
    (n + 48) as char
}

/// The decimal form of `n`.
pub fn decimal(n: u128) -> (r: String)
    ensures
        r@ == dec(n as nat),
    decreases n,
{
    let d: u8 = ((n % 10) as u8) + 48;
    if n < 10 {
        let mut s: String = String::new();
        s.push(d as char);
        proof {
            assert(s@ =~= dec(n as nat));
        }
        s
    } else {
        let mut s: String = decimal(n / 10);
        s.push(d as char);
        s
    }
}

/// The value of a digit sequence, read from the left.
pub open spec fn dec_value(s: Seq<char>) -> nat
    decreases s.len(),
{
    if s.len() == 0 {
        0
    } else {
        dec_value(s.drop_last()) * 10 + (s.last() as nat - 48) as nat
    }
}

pub open spec fn all_digits(s: Seq<char>) -> bool {
    s.len() > 0 && forall|i: int| 0 <= i < s.len() ==> is_digit(#[trigger] s[i])
}

pub proof fn lemma_dec_value_prefix(s: Seq<char>, n: int)
    requires
        0 <= n <= s.len(),
    ensures
        dec_value(s.take(n)) <= dec_value(s),
    decreases s.len(),
{
    if n < s.len() {
        assert(s.take(n) =~= s.drop_last().take(n));
        lemma_dec_value_prefix(s.drop_last(), n);
    } else {
        assert(s.take(n) =~= s);
    }
}

/// The number that a digit sequence writes, where it is one and fits in a
/// `u64`.
pub fn parse_u64(s: &str) -> (r: Option<u64>)
    ensures
        match r {
            Some(n) => all_digits(s@) && n as nat == dec_value(s@),
            None => !all_digits(s@) || dec_value(s@) > u64::MAX,
        },
{
    let v: Vec<char> = chars_of(s);
    if v.len() == 0 {
        return None;
    }
    let mut n: u64 = 0;
    let mut i: usize = 0;
    proof {
        assert(v@.take(0) =~= Seq::<char>::empty());
    }
    while i < v.len()
        invariant
            v@ == s@,
            i <= v@.len(),
            forall|j: int| 0 <= j < i ==> is_digit(#[trigger] v@[j]),
            n as nat == dec_value(v@.take(i as int)),
        decreases v@.len() - i,
    {
        if !digit(v[i]) {
            return None;
        }
        let d: u64 = (v[i] as u64) - 48;
        proof {
            let t = v@.take(i + 1);
            assert(t.drop_last() =~= v@.take(i as int));
            assert(t.last() == v@[i as int]);
            lemma_dec_value_prefix(v@, i + 1);
        }
        if n > (u64::MAX - d) / 10 {
            return None;
        }
        n = n * 10 + d;
        i = i + 1;
    }
    proof {
        assert(v@.take(i as int) =~= v@);
    }
    Some(n)
}

/// The concatenation of `parts` with `sep` between neighbours.
pub open spec fn joined(parts: Seq<Seq<char>>, sep: Seq<char>) -> Seq<char>
    decreases parts.len(),
{
    if parts.len() == 0 {
        Seq::empty()
    } else if parts.len() == 1 {
        parts[0]
    } else {
        joined(parts.drop_last(), sep) + sep + parts.last()
    }
}

pub fn join(parts: &Vec<String>, sep: &str) -> (r: String)
    ensures
        r@ == joined(parts.deep_view(), sep@),
{
    if parts.len() == 0 {
        return String::new();
    }
    let mut out: String = parts[0].clone();
    let mut i: usize = 1;
    proof {
        assert(parts.deep_view().take(1)[0] == parts@[0]@);
    }
    while i < parts.len()
        invariant
            1 <= i <= parts@.len(),
            out@ == joined(parts.deep_view().take(i as int), sep@),
        decreases parts@.len() - i,
    {
        out.append(sep);
        out.append(parts[i].as_str());
        proof {
            let t = parts.deep_view().take(i + 1);
            assert(t.drop_last() =~= parts.deep_view().take(i as int));
            assert(t.last() == parts@[i as int]@);
        }
        i = i + 1;
    }
    proof {
        assert(parts.deep_view().take(i as int) =~= parts.deep_view());
    }
    out
}

/// Whether `s` is one of `v`.
pub fn has_str(v: &Vec<String>, s: &str) -> (r: bool)
    ensures
        r == v.deep_view().contains(s@),
{
    let mut i: usize = 0;
    while i < v.len()
        invariant
            i <= v@.len(),
            forall|j: int| 0 <= j < i ==> #[trigger] v.deep_view()[j] != s@,
        decreases v@.len() - i,
    {
        if str_eq(v[i].as_str(), s) {
            proof {
                assert(v.deep_view()[i as int] == s@);
            }
            return true;
        }
        i = i + 1;
    }
    false
}

/// Lexicographic order by code point.
pub open spec fn text_less(a: Seq<char>, b: Seq<char>) -> bool
    decreases a.len(),
{
    if b.len() == 0 {
        false
    } else if a.len() == 0 {
        true
    } else if a[0] != b[0] {
        a[0] < b[0]
    } else {
        text_less(a.drop_first(), b.drop_first())
    }
}

pub open spec fn text_leq(a: Seq<char>, b: Seq<char>) -> bool {
    a == b || text_less(a, b)
}

pub proof fn lemma_text_less_total(a: Seq<char>, b: Seq<char>)
    ensures
        text_less(a, b) || text_less(b, a) || a == b,
        !(text_less(a, b) && text_less(b, a)),
        !text_less(a, a),
    decreases a.len(),
{
    if a.len() > 0 {
        lemma_text_less_total(a.drop_first(), a.drop_first());
    }
    if a.len() > 0 && b.len() > 0 && a[0] == b[0] {
        lemma_text_less_total(a.drop_first(), b.drop_first());
        if a.drop_first() == b.drop_first() {
            assert(a =~= seq![a[0]] + a.drop_first());
            assert(b =~= seq![b[0]] + b.drop_first());
        }
    } else if a.len() == 0 && b.len() == 0 {
        assert(a =~= b);
    }
}

pub proof fn lemma_text_less_trans(a: Seq<char>, b: Seq<char>, c: Seq<char>)
    requires
        text_less(a, b),
        text_less(b, c),
    ensures
        text_less(a, c),
    decreases a.len(),
{
    if a.len() > 0 && a[0] == b[0] && b[0] == c[0] {
        lemma_text_less_trans(a.drop_first(), b.drop_first(), c.drop_first());
    }
}

pub fn less(a: &str, b: &str) -> (r: bool)
    ensures
        r == text_less(a@, b@),
{
    let x: Vec<char> = chars_of(a);
    let y: Vec<char> = chars_of(b);
    let mut i: usize = 0;
    proof {
        assert(a@.skip(0) =~= a@);
        assert(b@.skip(0) =~= b@);
    }
    while i < x.len() && i < y.len()
        invariant
            x@ == a@,
            y@ == b@,
            i <= x@.len(),
            i <= y@.len(),
            text_less(a@, b@) == text_less(a@.skip(i as int), b@.skip(i as int)),
        decreases x@.len() - i,
    {
        if x[i] != y[i] {
            return x[i] < y[i];
        }
        proof {
            assert(a@.skip(i as int).drop_first() =~= a@.skip(i + 1));
            assert(b@.skip(i as int).drop_first() =~= b@.skip(i + 1));
        }
        i = i + 1;
    }
    i < y.len()
}

/// The pieces of `s` between the occurrences of `c`.
pub open spec fn pieces(s: Seq<char>, c: char) -> Seq<Seq<char>>
    decreases s.len(),
{
    match halves(s, c) {
        Some((a, b)) => if b.len() < s.len() {
            seq![a] + pieces(b, c)
        } else {
            seq![s]
        },
        None => seq![s],
    }
}

pub fn split_on(s: &str, c: char) -> (r: Vec<String>)
    ensures
        r.deep_view() == pieces(s@, c),
        r@.len() > 0,
{
    let mut out: Vec<String> = Vec::new();
    let mut rest: String = s.to_owned();
    let ghost mut n: nat = s@.len() + 1;
    proof {
        assert(out.deep_view() + pieces(rest@, c) =~= pieces(s@, c));
    }
    loop
        invariant_except_break
            out.deep_view() + pieces(rest@, c) == pieces(s@, c),
            rest@.len() < n,
        ensures
            out.deep_view() == pieces(s@, c),
            out@.len() > 0,
        decreases n,
    {
        let ghost before = out.deep_view();
        let ghost here = rest@;
        proof {
            lemma_lead_bounds(rest@, not_char(c));
        }
        match split_once(rest.as_str(), c) {
            Some((a, b)) => {
                out.push(a);
                proof {
                    assert(out.deep_view() =~= before.push(a@));
                    assert(out.deep_view() + pieces(b@, c) =~= before + (seq![a@] + pieces(b@, c)));
                    n = here.len();
                }
                rest = b;
            },
            None => {
                out.push(rest.clone());
                proof {
                    assert(out.deep_view() =~= before + seq![here]);
                }
                break;
            },
        }
    }
    out
}

/// `s` split at its last `c`, which belongs to neither half.
pub open spec fn last_halves(s: Seq<char>, c: char) -> Option<(Seq<char>, Seq<char>)> {
    let n = tail(s, not_char(c)) as int;
    if n < s.len() {
        Some((s.subrange(0, s.len() - n - 1), s.subrange(s.len() - n, s.len() as int)))
    } else {
        None
    }
}

pub fn rsplit_once(s: &str, c: char) -> (r: Option<(String, String)>)
    ensures
        opt_pair(r) == last_halves(s@, c),
{
    let v: Vec<char> = chars_of(s);
    let mut n: usize = v.len();
    while n > 0 && v[n - 1] != c
        invariant
            v@ == s@,
            n <= v@.len(),
            forall|j: int| n <= j < v@.len() ==> #[trigger] v@[j] != c,
        decreases n,
    {
        n = n - 1;
    }
    proof {
        lemma_tail(s@, not_char(c), v@.len() - n);
    }
    if n > 0 {
        Some((text_between(&v, 0, n - 1), text_between(&v, n, v.len())))
    } else {
        None
    }
}

/// The number of bytes of `s` in UTF-8.
pub fn byte_count(s: &str) -> (r: usize)
    ensures
        r == encode_utf8(s@).len(),
{
    let b = s.as_bytes();
    b.len()
}

/// `s` with every occurrence of `p`, from the left, written as `w`.
pub open spec fn replaced(s: Seq<char>, p: Seq<char>, w: Seq<char>) -> Seq<char>
    decreases s.len(),
{
    if p.len() == 0 || s.len() < p.len() {
        s
    } else if has_prefix(s, p) {
        w + replaced(s.skip(p.len() as int), p, w)
    } else {
        seq![s[0]] + replaced(s.drop_first(), p, w)
    }
}

pub fn replace(s: &str, p: &str, w: &str) -> (r: String)
    ensures
        r@ == replaced(s@, p@, w@),
{
    let sv: Vec<char> = chars_of(s);
    let pv: Vec<char> = chars_of(p);
    let n: usize = sv.len();
    let m: usize = pv.len();
    if m == 0 {
        return s.to_owned();
    }
    let mut out: String = String::new();
    let mut i: usize = 0;
    proof {
        assert(s@.skip(0) =~= s@);
        assert(out@ + replaced(s@.skip(0), p@, w@) =~= replaced(s@, p@, w@));
    }
    while i < n && m <= n - i
        invariant
            sv@ == s@,
            pv@ == p@,
            n == sv@.len(),
            m == pv@.len(),
            m > 0,
            i <= n,
            out@ + replaced(s@.skip(i as int), p@, w@) == replaced(s@, p@, w@),
        decreases n - i,
    {
        let ghost rest = s@.skip(i as int);
        let ghost o0 = out@;
        proof {
            assert(stands_at(s@, p@, i as int) == has_prefix(rest, p@)) by {
                assert(s@.subrange(i as int, i + p@.len()) =~= rest.subrange(0, p@.len() as int));
            }
        }
        if matches_at(&sv, &pv, i) {
            out.append(w);
            i = i + m;
            proof {
                assert(rest.skip(m as int) =~= s@.skip(i as int));
                assert(o0 + (w@ + replaced(s@.skip(i as int), p@, w@)) =~= out@ + replaced(
                    s@.skip(i as int),
                    p@,
                    w@,
                ));
            }
        } else {
            out.push(sv[i]);
            i = i + 1;
            proof {
                assert(rest.drop_first() =~= s@.skip(i as int));
                assert(o0 + (seq![rest[0]] + replaced(s@.skip(i as int), p@, w@)) =~= out@
                    + replaced(s@.skip(i as int), p@, w@));
            }
        }
    }
    let tail_text: String = text_between(&sv, i, n);
    out.append(tail_text.as_str());
    proof {
        assert(tail_text@ =~= s@.skip(i as int));
    }
    out
}

} // verus!
