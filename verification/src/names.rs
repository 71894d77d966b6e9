//! Names that are safe on the wire.

use crate::munge::{dns_label, kebab, kebab_of, tag_char};
use crate::text::{
    alnum, alpha, byte_count, cat3, cat5, chars_of, dec, decimal, digit, is_alnum, is_alpha,
    last_halves, lead, lemma_lead, lemma_lead_bounds, lower, lower_alpha, lower_char, pieces,
    rsplit_once, split_on, str_eq, text_of,
};
use vstd::prelude::*;
use vstd::utf8::{encode_utf8, is_ascii_chars, is_ascii_chars_encode_utf8};

verus! {

pub open spec fn lowercase(s: Seq<char>) -> Seq<char> {
    Seq::new(s.len(), |i: int| lower(s[i]))
}

/// `s` with its ASCII letters in lower case.
pub fn to_lower(s: &str) -> (r: String)
    ensures
        r@ == lowercase(s@),
{
    let v: Vec<char> = chars_of(s);
    let mut out: Vec<char> = Vec::new();
    let mut i: usize = 0;
    while i < v.len()
        invariant
            v@ == s@,
            i <= v@.len(),
            out@ == lowercase(s@).take(i as int),
        decreases v@.len() - i,
    {
        out.push(lower_char(v[i]));
        i = i + 1;
        proof {
            assert(out@ =~= lowercase(s@).take(i as int));
        }
    }
    proof {
        assert(out@ =~= lowercase(s@));
    }
    text_of(&out)
}

/// How a YAML 1.1 parser reads the bare word `s`, where it does not read it as
/// a string.
pub open spec fn misread(s: Seq<char>) -> Option<Seq<char>> {
    let w = lowercase(s);
    if w == "y"@ || w == "yes"@ || w == "n"@ || w == "no"@ || w == "true"@ || w == "false"@ || w
        == "on"@ || w == "off"@ {
        Some("a YAML 1.1 boolean"@)
    } else if w == "null"@ || w == "~"@ {
        Some("a YAML 1.1 null"@)
    } else {
        None
    }
}

/// How a YAML 1.1 parser would mistake the bare word `s`.
pub fn yaml_ambiguous(s: &str) -> (r: Option<&'static str>)
    ensures
        match r {
            Some(why) => misread(s@) == Some(why@),
            None => misread(s@) is None,
        },
{
    let w: String = to_lower(s);
    let t: &str = w.as_str();
    if str_eq(t, "y") || str_eq(t, "yes") || str_eq(t, "n") || str_eq(t, "no") || str_eq(t, "true")
        || str_eq(t, "false") || str_eq(t, "on") || str_eq(t, "off") {
        Some("a YAML 1.1 boolean")
    } else if str_eq(t, "null") || str_eq(t, "~") {
        Some("a YAML 1.1 null")
    } else {
        None
    }
}

// ---- DNS-1123 ------------------------------------------------------------------
pub open spec fn label_char() -> spec_fn(char) -> bool {
    |c: char| tag_char(c) || c == '-'
}

/// The number of bytes of `s` in UTF-8.
pub open spec fn byte_len(s: Seq<char>) -> nat {
    encode_utf8(s).len()
}

/// Why `l` is no DNS-1123 label.
pub open spec fn label_problem(l: Seq<char>) -> Option<Seq<char>> {
    let n = lead(l, label_char()) as int;
    if l.len() == 0 {
        Some("it has an empty dot-separated label (leading, trailing, or doubled `.`)"@)
    } else if byte_len(l) > 63 {
        Some("label `"@ + l + "` is "@ + dec(byte_len(l)) + " chars (max 63)"@)
    } else if n < l.len() {
        Some(
            "it contains `"@ + seq![l[n]] + "` (allowed: lowercase alphanumeric, `-`, `.`)"@,
        )
    } else if l[0] == '-' || l.last() == '-' {
        Some("label `"@ + l + "` starts or ends with `-`"@)
    } else {
        None
    }
}

/// The first problem among labels.
pub open spec fn first_problem(labels: Seq<Seq<char>>) -> Option<Seq<char>>
    decreases labels.len(),
{
    if labels.len() == 0 {
        None
    } else {
        match first_problem(labels.drop_last()) {
            Some(m) => Some(m),
            None => label_problem(labels.last()),
        }
    }
}

/// Why `s` is no DNS-1123 subdomain.
pub open spec fn subdomain_problem(s: Seq<char>) -> Option<Seq<char>> {
    if s.len() == 0 {
        Some("it is empty"@)
    } else if byte_len(s) > 253 {
        Some("it is "@ + dec(byte_len(s)) + " chars (max 253)"@)
    } else {
        first_problem(pieces(s, '.'))
    }
}

fn one_char(c: char) -> (r: String)
    ensures
        r@ == seq![c],
{
    let mut s: String = String::new();
    s.push(c);
    proof {
        assert(s@ =~= seq![c]);
    }
    s
}

fn label_violation(l: &str) -> (r: Option<String>)
    ensures
        r.deep_view() == label_problem(l@),
{
    let v: Vec<char> = chars_of(l);
    if v.len() == 0 {
        return Some(
            "it has an empty dot-separated label (leading, trailing, or doubled `.`)".to_owned(),
        );
    }
    if byte_count(l) > 63 {
        let d: String = decimal(byte_count(l) as u128);
        return Some(cat5("label `", l, "` is ", d.as_str(), " chars (max 63)"));
    }
    let mut i: usize = 0;
    while i < v.len() && (lower_alpha(v[i]) || digit(v[i]) || v[i] == '-')
        invariant
            v@ == l@,
            i <= v@.len(),
            forall|j: int| 0 <= j < i ==> label_char()(#[trigger] v@[j]),
        decreases v@.len() - i,
    {
        i = i + 1;
    }
    proof {
        lemma_lead(l@, label_char(), i as int);
    }
    if i < v.len() {
        let c: String = one_char(v[i]);
        return Some(
            cat3("it contains `", c.as_str(), "` (allowed: lowercase alphanumeric, `-`, `.`)"),
        );
    }
    if v[0] == '-' || v[v.len() - 1] == '-' {
        return Some(cat3("label `", l, "` starts or ends with `-`"));
    }
    None
}

proof fn lemma_first_problem(labels: Seq<Seq<char>>, n: int)
    requires
        0 <= n <= labels.len(),
        first_problem(labels.take(n)) is Some,
    ensures
        first_problem(labels) == first_problem(labels.take(n)),
    decreases labels.len(),
{
    if n < labels.len() {
        assert(labels.drop_last().take(n) =~= labels.take(n));
        lemma_first_problem(labels.drop_last(), n);
    } else {
        assert(labels.take(n) =~= labels);
    }
}

/// Why `name` is no DNS-1123 subdomain: at most 253 characters, in labels of 1 to
/// 63 lower-case letters, digits and `-` with no `-` at an end.
pub fn dns1123_violation(name: &str) -> (r: Option<String>)
    ensures
        r.deep_view() == subdomain_problem(name@),
{
    if name.is_empty() {
        return Some("it is empty".to_owned());
    }
    if byte_count(name) > 253 {
        let d: String = decimal(byte_count(name) as u128);
        return Some(cat3("it is ", d.as_str(), " chars (max 253)"));
    }
    let labels: Vec<String> = split_on(name, '.');
    let ghost all = labels.deep_view();
    let mut i: usize = 0;
    proof {
        assert(all.take(0) =~= Seq::<Seq<char>>::empty());
    }
    while i < labels.len()
        invariant
            all == labels.deep_view(),
            all == pieces(name@, '.'),
            i <= labels@.len(),
            first_problem(all.take(i as int)) is None,
            name@.len() > 0,
            byte_len(name@) <= 253,
        decreases labels@.len() - i,
    {
        proof {
            assert(all.take(i + 1).drop_last() =~= all.take(i as int));
            assert(all.take(i + 1).last() == labels@[i as int]@);
        }
        match label_violation(labels[i].as_str()) {
            Some(m) => {
                proof {
                    lemma_first_problem(all, i + 1);
                }
                return Some(m);
            },
            None => {},
        }
        i = i + 1;
    }
    proof {
        assert(all.take(i as int) =~= all);
    }
    None
}

proof fn lemma_label(l: Seq<char>)
    ensures
        label_problem(l) is None <==> dns_label(l),
{
    let f = label_char();
    lemma_lead_bounds(l, f);
    let n = lead(l, f) as int;
    if l.len() > 0 && n == l.len() {
        assert forall|i: int| 0 <= i < l.len() implies '\0' <= #[trigger] l[i] <= '\x7f' by {
            assert(f(l[i]));
        }
        lemma_ascii_len(l);
    }
    if dns_label(l) {
        assert forall|i: int| 0 <= i < l.len() implies f(#[trigger] l[i]) by {}
        lemma_lead(l, f, l.len() as int);
        assert forall|i: int| 0 <= i < l.len() implies '\0' <= #[trigger] l[i] <= '\x7f' by {
            assert(f(l[i]));
        }
        lemma_ascii_len(l);
    }
}

proof fn lemma_ascii_len(s: Seq<char>)
    requires
        forall|i: int| 0 <= i < s.len() ==> '\0' <= #[trigger] s[i] <= '\x7f',
    ensures
        byte_len(s) == s.len(),
{
    assert(is_ascii_chars(s));
    is_ascii_chars_encode_utf8(s);
}

proof fn lemma_labels(labels: Seq<Seq<char>>)
    ensures
        first_problem(labels) is None <==> forall|i: int|
            0 <= i < labels.len() ==> dns_label(#[trigger] labels[i]),
    decreases labels.len(),
{
    if labels.len() > 0 {
        let front = labels.drop_last();
        lemma_labels(front);
        lemma_label(labels.last());
        assert(forall|i: int| 0 <= i < front.len() ==> front[i] == #[trigger] labels[i]);
        assert(labels.last() == labels[labels.len() - 1]);
        if first_problem(labels) is None {
            assert forall|i: int| 0 <= i < labels.len() implies dns_label(
                #[trigger] labels[i],
            ) by {
                if i < front.len() {
                    assert(dns_label(front[i]));
                }
            }
        }
        if forall|i: int| 0 <= i < labels.len() ==> dns_label(#[trigger] labels[i]) {
            assert forall|i: int| 0 <= i < front.len() implies dns_label(#[trigger] front[i]) by {
                assert(dns_label(labels[i]));
            }
        }
    }
}

/// A name has no violation exactly where it is a DNS-1123 subdomain: not empty,
/// at most 253 bytes, and every dot-separated label a DNS-1123 label.
pub proof fn law_subdomain_iff(s: Seq<char>)
    ensures
        subdomain_problem(s) is None <==> {
            &&& 0 < s.len()
            &&& byte_len(s) <= 253
            &&& forall|i: int|
                0 <= i < pieces(s, '.').len() ==> dns_label(#[trigger] pieces(s, '.')[i])
        },
{
    lemma_labels(pieces(s, '.'));
}

pub open spec fn name_problem(v: Seq<char>) -> Option<Seq<char>> {
    match subdomain_problem(v) {
        Some(why) => Some(
            "`name = \""@ + v + "\"` is not a valid DNS-1123 subdomain ("@ + why
                + "); k8s would reject the emitted resource at admission"@,
        ),
        None => None,
    }
}

/// Checks a `name = "…"` override.
pub fn check_dns1123_name(v: &str) -> (r: Result<(), String>)
    ensures
        match r {
            Ok(_) => name_problem(v@) is None,
            Err(m) => name_problem(v@) == Some(m@),
        },
{
    match dns1123_violation(v) {
        None => Ok(()),
        Some(why) => Err(
            cat5(
                "`name = \"",
                v,
                "\"` is not a valid DNS-1123 subdomain (",
                why.as_str(),
                "); k8s would reject the emitted resource at admission",
            ),
        ),
    }
}

// ---- environment variables and annotations -----------------------------------------
pub open spec fn env_head(c: char) -> bool {
    is_alpha(c) || c == '-' || c == '.' || c == '_'
}

pub open spec fn env_tail() -> spec_fn(char) -> bool {
    |c: char| is_alnum(c) || c == '-' || c == '.' || c == '_'
}

/// Why `s` is no environment-variable name.
pub open spec fn env_problem(s: Seq<char>) -> Option<Seq<char>> {
    if s.len() == 0 {
        Some("it is empty"@)
    } else if !env_head(s[0]) {
        Some("it starts with `"@ + seq![s[0]] + "` (must be a letter, `-`, `.`, or `_`)"@)
    } else {
        let rest = s.drop_first();
        let n = lead(rest, env_tail()) as int;
        if n < rest.len() {
            Some("it contains `"@ + seq![rest[n]] + "` (allowed: alphanumeric, `-`, `.`, `_`)"@)
        } else {
            None
        }
    }
}

fn inner_char(c: char) -> (r: bool)
    ensures
        r == env_tail()(c),
{
    alnum(c) || c == '-' || c == '.' || c == '_'
}

/// Why `name` is no environment-variable name of the form
/// `[-._a-zA-Z][-._a-zA-Z0-9]*`.
pub fn env_var_name_violation(name: &str) -> (r: Option<String>)
    ensures
        r.deep_view() == env_problem(name@),
{
    let v: Vec<char> = chars_of(name);
    if v.len() == 0 {
        return Some("it is empty".to_owned());
    }
    if !(alpha(v[0]) || v[0] == '-' || v[0] == '.' || v[0] == '_') {
        let c: String = one_char(v[0]);
        return Some(
            cat3("it starts with `", c.as_str(), "` (must be a letter, `-`, `.`, or `_`)"),
        );
    }
    let ghost rest = name@.drop_first();
    let mut i: usize = 1;
    while i < v.len() && inner_char(v[i])
        invariant
            v@ == name@,
            rest == name@.drop_first(),
            1 <= i <= v@.len(),
            forall|j: int| 0 <= j < i - 1 ==> env_tail()(#[trigger] rest[j]),
        decreases v@.len() - i,
    {
        proof {
            assert(rest[i - 1] == v@[i as int]);
        }
        i = i + 1;
    }
    proof {
        if i < v@.len() {
            assert(rest[i - 1] == v@[i as int]);
        }
        lemma_lead(rest, env_tail(), i - 1);
    }
    if i < v.len() {
        let c: String = one_char(v[i]);
        return Some(
            cat3("it contains `", c.as_str(), "` (allowed: alphanumeric, `-`, `.`, `_`)"),
        );
    }
    None
}

/// Why `n` is no name part of an annotation key.
pub open spec fn key_name_problem(n: Seq<char>) -> Option<Seq<char>> {
    let k = lead(n, env_tail()) as int;
    if n.len() == 0 {
        Some("its name part is empty"@)
    } else if byte_len(n) > 63 {
        Some("its name part is "@ + dec(byte_len(n)) + " chars (max 63)"@)
    } else if !is_alnum(n[0]) || !is_alnum(n.last()) {
        Some("its name part must start and end alphanumeric"@)
    } else if k < n.len() {
        Some("it contains `"@ + seq![n[k]] + "` (allowed: alphanumeric, `-`, `_`, `.`)"@)
    } else {
        None
    }
}

/// Why `key` is no annotation key.
pub open spec fn annotation_problem(key: Seq<char>) -> Option<Seq<char>> {
    match last_halves(key, '/') {
        Some((p, n)) => if p.len() == 0 {
            Some("its `/`-prefix is empty"@)
        } else {
            match subdomain_problem(p) {
                Some(why) => Some(
                    "its prefix `"@ + p + "` is not a DNS-1123 subdomain ("@ + why + ")"@,
                ),
                None => key_name_problem(n),
            }
        },
        None => key_name_problem(key),
    }
}

fn key_name_violation(n: &str) -> (r: Option<String>)
    ensures
        r.deep_view() == key_name_problem(n@),
{
    let v: Vec<char> = chars_of(n);
    if v.len() == 0 {
        return Some("its name part is empty".to_owned());
    }
    if byte_count(n) > 63 {
        let d: String = decimal(byte_count(n) as u128);
        return Some(cat3("its name part is ", d.as_str(), " chars (max 63)"));
    }
    if !alnum(v[0]) || !alnum(v[v.len() - 1]) {
        return Some("its name part must start and end alphanumeric".to_owned());
    }
    let mut i: usize = 0;
    while i < v.len() && inner_char(v[i])
        invariant
            v@ == n@,
            i <= v@.len(),
            forall|j: int| 0 <= j < i ==> env_tail()(#[trigger] v@[j]),
        decreases v@.len() - i,
    {
        i = i + 1;
    }
    proof {
        lemma_lead(n@, env_tail(), i as int);
    }
    if i < v.len() {
        let c: String = one_char(v[i]);
        return Some(
            cat3("it contains `", c.as_str(), "` (allowed: alphanumeric, `-`, `_`, `.`)"),
        );
    }
    None
}

/// Why `key` is no annotation key: an optional DNS-1123 subdomain and `/`, then
/// 1 to 63 letters, digits, `-`, `_` and `.` that start and end alphanumeric.
pub fn annotation_key_violation(key: &str) -> (r: Option<String>)
    ensures
        r.deep_view() == annotation_problem(key@),
{
    match rsplit_once(key, '/') {
        Some((p, n)) => {
            if p.as_str().is_empty() {
                return Some("its `/`-prefix is empty".to_owned());
            }
            match dns1123_violation(p.as_str()) {
                Some(why) => Some(
                    cat5(
                        "its prefix `",
                        p.as_str(),
                        "` is not a DNS-1123 subdomain (",
                        why.as_str(),
                        ")",
                    ),
                ),
                None => key_name_violation(n.as_str()),
            }
        },
        None => key_name_violation(key),
    }
}

// ---- template names --------------------------------------------------------------
/// The name of a template: the override, else `<crate>-<fn>` in kebab form.
pub open spec fn argo_name(over: Option<Seq<char>>, krate: Seq<char>, rust: Seq<char>) -> Seq<char> {
    match over {
        Some(n) => n,
        None => kebab_of(krate) + "-"@ + kebab_of(rust),
    }
}

/// The name of a template in the crate `krate`: the override, else
/// `<crate>-<fn>` in kebab form.
pub fn make_argo_name(over: &Option<String>, krate: &str, rust_name: &str) -> (r: String)
    ensures
        r@ == argo_name(over.deep_view(), krate@, rust_name@),
{
    match over {
        Some(n) => n.clone(),
        None => {
            let a: String = kebab(krate);
            let b: String = kebab(rust_name);
            cat3(a.as_str(), "-", b.as_str())
        },
    }
}

} // verus!
