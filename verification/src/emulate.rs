//! Running one container on this machine: what it is given, and how the
//! container runtime is called.

use crate::distance::{nearest, suggest};
use crate::json::{json_entries, parse_value, read_json_entries, value_or_text, Json, JsonView};
use crate::maps::{key_list, TextMap};
use crate::node::agrees;
use crate::outside::{debug_str, debug_text};
use crate::run_meta::{
    ArtifactRef, ContainerRunMeta, ContainerRunMetaView, ParamRef, ParamRefView, S3Ref, S3RefView,
};
use crate::sorted::{insert_text, sorted_once, text_lt};
use crate::text::{
    after_prefix, before_suffix, cat2, cat3, cat5, cat7, chars_of, contains, ends_with, halves,
    has_prefix, has_str, has_suffix, is_char, join, joined, occurs, split_once, starts_with, str_eq,
    strip_prefix, strip_suffix, text_between, text_of, trim, trim_by, trim_start_by,
    trim_start_char, is_space, whitespace,
};
use vstd::prelude::*;
use vstd::utf8::{encode_scalar, encode_utf8};

verus! {

/// `cargo athena emulate`.
pub struct EmulateArgs {
    pub template: String,
    pub package: Option<String>,
    pub bin: Option<String>,
    pub params: Vec<String>,
    pub input_file: Option<String>,
    pub build: bool,
    pub tarball: Option<String>,
    pub runtime: Option<String>,
    pub skip_artifacts: bool,
}

// ---- what is given -----------------------------------------------------------------------
/// A file that was to be read: its path, and its text or why it could not be read.
pub struct FileText {
    pub path: String,
    pub text: Result<String, String>,
}

#[verifier::ext_equal]
pub struct FileTextView {
    pub path: Seq<char>,
    pub text: Result<Seq<char>, Seq<char>>,
}

impl DeepView for FileText {
    type V = FileTextView;

    open spec fn deep_view(&self) -> FileTextView {
        FileTextView {
            path: self.path@,
            text: match self.text {
                Ok(s) => Ok(s@),
                Err(e) => Err(e@),
            },
        }
    }
}

pub type Values = Map<Seq<char>, JsonView>;

/// The value of an entry whose text is `t`.
pub open spec fn entry_value(t: Seq<char>) -> JsonView {
    JsonView { text: t, ..value_or_text(t) }
}

pub open spec fn with_entries(m: Values, entries: Seq<(Seq<char>, Seq<char>)>) -> Values
    decreases entries.len(),
{
    if entries.len() == 0 {
        m
    } else {
        with_entries(m, entries.drop_last()).insert(
            entries.last().0,
            entry_value(entries.last().1),
        )
    }
}

pub const NOT_AN_OBJECT: &'static str = "--input-file must be a JSON object";

/// The values of an input file, from the entries of its text.
pub open spec fn values_of_entries(entries: Option<Seq<(Seq<char>, Seq<char>)>>) -> Result<
    Values,
    Seq<char>,
> {
    match entries {
        Some(es) => Ok(with_entries(Map::empty(), es)),
        None => Err(NOT_AN_OBJECT@),
    }
}

/// The values that an input file gives.
pub open spec fn file_values(f: Option<FileTextView>) -> Result<Values, Seq<char>> {
    match f {
        None => Ok(Map::empty()),
        Some(f) => match f.text {
            Err(e) => Err("--input-file "@ + f.path + ": "@ + e),
            Ok(t) => values_of_entries(json_entries(t)),
        },
    }
}

/// The values of an input file, from the entries of its text.
pub fn entries_to_values(entries: &Option<Vec<(String, String)>>) -> (r: Result<
    TextMap<Json>,
    String,
>)
    ensures
        agrees(r, values_of_entries(entries.deep_view())),
{
    match entries {
        None => Err(NOT_AN_OBJECT.to_owned()),
        Some(es) => {
            let ghost all = es.deep_view();
            let mut m: TextMap<Json> = TextMap::new();
            let mut i: usize = 0;
            proof {
                assert(all.take(0) =~= Seq::<(Seq<char>, Seq<char>)>::empty());
            }
            while i < es.len()
                invariant
                    all == es.deep_view(),
                    i <= es@.len(),
                    m.deep_view() == with_entries(Map::empty(), all.take(i as int)),
                decreases es@.len() - i,
            {
                proof {
                    assert(all.take(i + 1).drop_last() =~= all.take(i as int));
                    assert(all.take(i + 1).last() == es@[i as int].deep_view());
                }
                let mut v: Json = parse_value(es[i].1.as_str());
                v.text = es[i].1.clone();
                m.insert(es[i].0.clone(), v);
                i = i + 1;
            }
            proof {
                assert(all.take(i as int) =~= all);
            }
            Ok(m)
        },
    }
}

/// The values that an input file gives.
pub fn read_input_file(f: &Option<FileText>) -> (r: Result<TextMap<Json>, String>)
    ensures
        agrees(r, file_values(f.deep_view())),
{
    match f {
        None => {
            let m: TextMap<Json> = TextMap::new();
            Ok(m)
        },
        Some(f) => match &f.text {
            Err(e) => {
                let head: String = cat3("--input-file ", f.path.as_str(), ": ");
                Err(cat2(head.as_str(), e.as_str()))
            },
            Ok(t) => entries_to_values(&read_json_entries(t.as_str())),
        },
    }
}

/// The values after the `name=value` texts of the option `flag`, and the names that
/// they set.
pub open spec fn with_pairs_given(m: Values, pairs: Seq<Seq<char>>, flag: Seq<char>) -> Result<
    (Values, Seq<Seq<char>>),
    Seq<char>,
>
    decreases pairs.len(),
{
    if pairs.len() == 0 {
        Ok((m, Seq::empty()))
    } else {
        match with_pairs_given(m, pairs.drop_last(), flag) {
            Err(e) => Err(e),
            Ok((m2, names)) => match halves(pairs.last(), '=') {
                None => Err(flag + " expects name=value, got "@ + debug_text(pairs.last())),
                Some((k, v)) => Ok((m2.insert(k, value_or_text(v)), names.push(k))),
            },
        }
    }
}

proof fn lemma_pairs_err(m: Values, pairs: Seq<Seq<char>>, flag: Seq<char>, n: int)
    requires
        0 <= n <= pairs.len(),
        with_pairs_given(m, pairs.take(n), flag) is Err,
    ensures
        with_pairs_given(m, pairs, flag) == with_pairs_given(m, pairs.take(n), flag),
    decreases pairs.len(),
{
    if n < pairs.len() {
        assert(pairs.drop_last().take(n) =~= pairs.take(n));
        lemma_pairs_err(m, pairs.drop_last(), flag, n);
    } else {
        assert(pairs.take(n) =~= pairs);
    }
}

/// Takes in the `name=value` texts of the option `flag`, and says which names they
/// set.
pub fn add_pairs(m: &mut TextMap<Json>, pairs: &Vec<String>, flag: &str) -> (r: Result<
    Vec<String>,
    String,
>)
    ensures
        match (r, with_pairs_given(old(m).deep_view(), pairs.deep_view(), flag@)) {
            (Ok(names), Ok((v, ns))) => final(m).deep_view() == v && names.deep_view() == ns,
            (Err(a), Err(b)) => a@ == b,
            _ => false,
        },
{
    let ghost m0 = m.deep_view();
    let ghost all = pairs.deep_view();
    let mut names: Vec<String> = Vec::new();
    let mut i: usize = 0;
    proof {
        assert(all.take(0) =~= Seq::<Seq<char>>::empty());
        assert(names.deep_view() =~= Seq::<Seq<char>>::empty());
    }
    while i < pairs.len()
        invariant
            m0 == old(m).deep_view(),
            all == pairs.deep_view(),
            i <= pairs@.len(),
            with_pairs_given(m0, all.take(i as int), flag@) == Ok::<
                (Values, Seq<Seq<char>>),
                Seq<char>,
            >((m.deep_view(), names.deep_view())),
        decreases pairs@.len() - i,
    {
        proof {
            assert(all.take(i + 1).drop_last() =~= all.take(i as int));
            assert(all.take(i + 1).last() == pairs@[i as int]@);
        }
        match split_once(pairs[i].as_str(), '=') {
            None => {
                let q: String = debug_str(pairs[i].as_str());
                proof {
                    lemma_pairs_err(m0, all, flag@, i + 1);
                }
                return Err(cat3(flag, " expects name=value, got ", q.as_str()));
            },
            Some((k, v)) => {
                let ghost before = names.deep_view();
                m.insert(k.clone(), parse_value(v.as_str()));
                let ghost kv = k@;
                names.push(k);
                proof {
                    assert(names.deep_view() =~= before.push(kv));
                }
            },
        }
        i = i + 1;
    }
    proof {
        assert(all.take(i as int) =~= all);
    }
    Ok(names)
}

/// The values that an input file and the `name=value` texts give; those texts win.
pub open spec fn given_values(f: Option<FileTextView>, pairs: Seq<Seq<char>>, flag: Seq<char>) -> Result<
    Values,
    Seq<char>,
> {
    match file_values(f) {
        Err(e) => Err(e),
        Ok(m) => match with_pairs_given(m, pairs, flag) {
            Err(e) => Err(e),
            Ok((v, _)) => Ok(v),
        },
    }
}

/// Reads the values that an input file and the `name=value` texts give.
pub fn parse_args(f: &Option<FileText>, pairs: &Vec<String>, flag: &str) -> (r: Result<
    TextMap<Json>,
    String,
>)
    ensures
        agrees(r, given_values(f.deep_view(), pairs.deep_view(), flag@)),
{
    let mut m: TextMap<Json> = match read_input_file(f) {
        Ok(m) => m,
        Err(e) => {
            return Err(e);
        },
    };
    match add_pairs(&mut m, pairs, flag) {
        Ok(_) => Ok(m),
        Err(e) => Err(e),
    }
}

// ---- kinds of values -------------------------------------------------------------------------
/// The shape that a type is read from.
#[derive(Clone, Copy, PartialEq, Eq, Debug, Structural)]
pub enum Kind {
    Str,
    Int,
    Float,
    Bool,
    Arr,
}

pub open spec fn kind_word(k: Kind) -> Seq<char> {
    match k {
        Kind::Str => "string"@,
        Kind::Int => "integer"@,
        Kind::Float => "number"@,
        Kind::Bool => "bool"@,
        Kind::Arr => "array"@,
    }
}

impl Kind {
    pub fn word(self) -> (r: &'static str)
        ensures
            r@ == kind_word(self),
    {
        match self {
            Kind::Str => "string",
            Kind::Int => "integer",
            Kind::Float => "number",
            Kind::Bool => "bool",
            Kind::Arr => "array",
        }
    }
}

/// A type without the borrows in front of it.
pub open spec fn unborrowed(ty: Seq<char>) -> Seq<char> {
    let t = trim_start_by(ty, is_char('&'));
    trim_start_by(
        match after_prefix(t, "'static"@) {
            Some(u) => u,
            None => t,
        },
        is_char('&'),
    )
}

pub open spec fn is_text_type(t: Seq<char>) -> bool {
    t == "String"@ || t == "str"@ || t == "char"@ || t == "PathBuf"@ || t == "Path"@ || t
        == "Box<str>"@
}

pub open spec fn is_int_type(t: Seq<char>) -> bool {
    t == "i8"@ || t == "i16"@ || t == "i32"@ || t == "i64"@ || t == "i128"@ || t == "isize"@ || t
        == "u8"@ || t == "u16"@ || t == "u32"@ || t == "u64"@ || t == "u128"@ || t == "usize"@
}

pub open spec fn is_list_type(t: Seq<char>) -> bool {
    has_prefix(t, "Vec<"@) || has_prefix(t, "VecDeque<"@) || has_prefix(t, "["@) || has_prefix(
        t,
        "&["@,
    )
}

/// The shape that a type is read from, where its text tells.
pub open spec fn kind_for_type(ty: Seq<char>) -> Option<Kind> {
    let t = unborrowed(ty);
    if is_text_type(t) {
        Some(Kind::Str)
    } else if is_int_type(t) {
        Some(Kind::Int)
    } else if t == "f32"@ || t == "f64"@ {
        Some(Kind::Float)
    } else if t == "bool"@ {
        Some(Kind::Bool)
    } else if is_list_type(t) {
        Some(Kind::Arr)
    } else if occurs(t, "Cow<"@) && occurs(t, "str"@) {
        Some(Kind::Str)
    } else {
        None
    }
}

/// The shape that a type is read from, where its text tells.
pub fn expected_kind(ty: &str) -> (r: Option<Kind>)
    ensures
        r == kind_for_type(ty@),
{
    let t: String = trim_start_char(ty, '&');
    let u: String = match strip_prefix(t.as_str(), "'static") {
        Some(u) => u,
        None => t,
    };
    let v: String = trim_start_char(u.as_str(), '&');
    let t: &str = v.as_str();
    if str_eq(t, "String") || str_eq(t, "str") || str_eq(t, "char") || str_eq(t, "PathBuf")
        || str_eq(t, "Path") || str_eq(t, "Box<str>") {
        Some(Kind::Str)
    } else if str_eq(t, "i8") || str_eq(t, "i16") || str_eq(t, "i32") || str_eq(t, "i64")
        || str_eq(t, "i128") || str_eq(t, "isize") || str_eq(t, "u8") || str_eq(t, "u16")
        || str_eq(t, "u32") || str_eq(t, "u64") || str_eq(t, "u128") || str_eq(t, "usize") {
        Some(Kind::Int)
    } else if str_eq(t, "f32") || str_eq(t, "f64") {
        Some(Kind::Float)
    } else if str_eq(t, "bool") {
        Some(Kind::Bool)
    } else if starts_with(t, "Vec<") || starts_with(t, "VecDeque<") || starts_with(t, "[")
        || starts_with(t, "&[") {
        Some(Kind::Arr)
    } else if contains(t, "Cow<") && contains(t, "str") {
        Some(Kind::Str)
    } else {
        None
    }
}

pub open spec fn fits(k: Kind, v: JsonView) -> bool {
    match k {
        Kind::Str => v.string,
        Kind::Int => v.int64 || v.uint64,
        Kind::Float => v.number,
        Kind::Bool => v.boolean,
        Kind::Arr => v.array,
    }
}

/// Whether a value has the shape `k`.
pub fn kind_ok(k: Kind, v: &Json) -> (r: bool)
    ensures
        r == fits(k, v.deep_view()),
{
    match k {
        Kind::Str => v.string,
        Kind::Int => v.int64 || v.uint64,
        Kind::Float => v.number,
        Kind::Bool => v.boolean,
        Kind::Arr => v.array,
    }
}

/// What a value is, in a word.
pub open spec fn word_for(v: JsonView) -> Seq<char> {
    if v.null {
        "null"@
    } else if v.boolean {
        "bool"@
    } else if v.number {
        if v.float {
            "number"@
        } else {
            "integer"@
        }
    } else if v.string {
        "string"@
    } else if v.array {
        "array"@
    } else {
        "object"@
    }
}

/// What a value is, in a word.
pub fn json_kind(v: &Json) -> (r: &'static str)
    ensures
        r@ == word_for(v.deep_view()),
{
    if v.null {
        "null"
    } else if v.boolean {
        "bool"
    } else if v.number {
        if v.float {
            "number"
        } else {
            "integer"
        }
    } else if v.string {
        "string"
    } else if v.array {
        "array"
    } else {
        "object"
    }
}

// ---- previews -----------------------------------------------------------------------------
/// The number of bytes in which a character is written.
pub open spec fn width(c: char) -> nat {
    encode_scalar(c as u32).len()
}

/// Whether the first `k` characters are written in `n` bytes.
pub open spec fn cut_at(s: Seq<char>, n: nat, k: int) -> bool {
    0 <= k <= s.len() && encode_utf8(s.take(k)).len() == n
}

/// Whether a text of more than forty bytes can be cut behind the fortieth.
pub open spec fn can_preview(s: Seq<char>) -> bool {
    encode_utf8(s).len() <= 40 || exists|k: int| cut_at(s, 40, k)
}

/// The start of a text.
pub open spec fn preview_of(s: Seq<char>) -> Seq<char> {
    if encode_utf8(s).len() > 40 {
        s.take(choose|k: int| cut_at(s, 40, k)) + "…"@
    } else {
        s
    }
}

proof fn lemma_width_step(s: Seq<char>, k: int)
    requires
        0 <= k < s.len(),
    ensures
        encode_utf8(s.take(k + 1)).len() == encode_utf8(s.take(k)).len() + width(s[k]),
        width(s[k]) > 0,
    decreases k,
{
    let c = s[k] as u32;
    if k == 0 {
        assert(s.take(0) =~= Seq::<char>::empty());
        assert(s.take(1).drop_first() =~= Seq::<char>::empty());
        assert(s.take(1)[0] == s[0]);
        assert(encode_utf8(Seq::<char>::empty()).len() == 0);
    } else {
        let t = s.drop_first();
        lemma_width_step(t, k - 1);
        assert(s.take(k + 1).drop_first() =~= t.take(k));
        assert(s.take(k).drop_first() =~= t.take(k - 1));
        assert(s.take(k + 1)[0] == s[0]);
        assert(s.take(k)[0] == s[0]);
    }
}

proof fn lemma_widths_grow(s: Seq<char>, a: int, b: int)
    requires
        0 <= a < b <= s.len(),
    ensures
        encode_utf8(s.take(a)).len() < encode_utf8(s.take(b)).len(),
    decreases b - a,
{
    lemma_width_step(s, b - 1);
    if a < b - 1 {
        lemma_widths_grow(s, a, b - 1);
    }
}

fn char_width(c: char) -> (r: usize)
    ensures
        r == width(c),
        r <= 4,
{
    let n: u32 = c as u32;
    if n < 0x80 {
        1
    } else if n < 0x800 {
        2
    } else if n < 0x10000 {
        3
    } else {
        4
    }
}

fn find_cut(v: &Vec<char>) -> (r: Option<usize>)
    ensures
        match r {
            Some(k) => cut_at(v@, 40, k as int),
            None => forall|k: int| !cut_at(v@, 40, k),
        },
{
    let mut n: usize = 0;
    let mut k: usize = 0;
    proof {
        assert(v@.take(0) =~= Seq::<char>::empty());
    }
    while k < v.len() && n < 40
        invariant
            k <= v@.len(),
            n <= 43,
            n == encode_utf8(v@.take(k as int)).len(),
            k > 0 ==> encode_utf8(v@.take(k - 1)).len() < 40,
        decreases v@.len() - k,
    {
        proof {
            lemma_width_step(v@, k as int);
        }
        n = n + char_width(v[k]);
        k = k + 1;
    }
    if n == 40 {
        Some(k)
    } else {
        proof {
            assert forall|j: int| !cut_at(v@, 40, j) by {
                if cut_at(v@, 40, j) {
                    if j < k {
                        if j < k - 1 {
                            lemma_widths_grow(v@, j, k - 1);
                        }
                    } else if j > k {
                        lemma_widths_grow(v@, k as int, j);
                    }
                }
            }
        }
        None
    }
}

/// Whether a preview of a text can be cut.
pub fn previewable(s: &str) -> (r: bool)
    ensures
        r == can_preview(s@),
{
    let v: Vec<char> = chars_of(s);
    crate::text::byte_count(s) <= 40 || find_cut(&v).is_some()
}

/// The start of a text.
pub fn preview(s: &str) -> (r: String)
    requires
        can_preview(s@),
    ensures
        r@ == preview_of(s@),
{
    if crate::text::byte_count(s) > 40 {
        let v: Vec<char> = chars_of(s);
        let k: usize = match find_cut(&v) {
            Some(k) => k,
            None => 0,
        };
        proof {
            let m = choose|m: int| cut_at(s@, 40, m);
            assert(cut_at(s@, 40, m));
            if m < k {
                lemma_widths_grow(s@, m, k as int);
            } else if m > k {
                lemma_widths_grow(s@, k as int, m);
            }
            assert(v@.subrange(0, k as int) =~= s@.take(k as int));
        }
        let head: String = text_between(&v, 0, k);
        cat2(head.as_str(), "…")
    } else {
        s.to_owned()
    }
}

// ---- checking what is given ----------------------------------------------------------------
pub open spec fn not_blank() -> spec_fn(char) -> bool {
    |c: char| !whitespace(c)
}

/// A text without blanks.
pub open spec fn squeezed(s: Seq<char>) -> Seq<char> {
    s.filter(not_blank())
}

fn squeeze(s: &str) -> (r: String)
    ensures
        r@ == squeezed(s@),
{
    let v: Vec<char> = chars_of(s);
    let ghost f = not_blank();
    let mut out: Vec<char> = Vec::new();
    let mut i: usize = 0;
    proof {
        reveal(Seq::filter);
        assert(v@.take(0) =~= Seq::<char>::empty());
        assert(out@ =~= v@.take(0).filter(f));
    }
    while i < v.len()
        invariant
            f == not_blank(),
            i <= v@.len(),
            out@ == v@.take(i as int).filter(f),
        decreases v@.len() - i,
    {
        proof {
            reveal(Seq::filter);
            assert(v@.take(i + 1).drop_last() =~= v@.take(i as int));
            assert(v@.take(i + 1).last() == v@[i as int]);
        }
        if !v[i].is_whitespace() {
            out.push(v[i]);
        }
        i = i + 1;
    }
    proof {
        assert(v@.take(i as int) =~= v@);
    }
    text_of(&out)
}

/// What an option is of.
pub open spec fn option_of(t: Seq<char>) -> Option<Seq<char>> {
    match after_prefix(t, "Option<"@) {
        Some(u) => before_suffix(u, ">"@),
        None => None,
    }
}

fn strip_option(t: &str) -> (r: Option<String>)
    ensures
        r.deep_view() == option_of(t@),
{
    match strip_prefix(t, "Option<") {
        Some(u) => strip_suffix(u.as_str(), ">"),
        None => None,
    }
}

/// Whether a parameter may be left out.
pub open spec fn optional(p: ParamRefView) -> bool {
    option_of(squeezed(p.ty)) is Some
}

/// The shape that a parameter's value must have, where its type tells.
pub open spec fn kind_for(p: ParamRefView) -> Option<Kind> {
    kind_for_type(
        match option_of(squeezed(p.ty)) {
            Some(t) => t,
            None => squeezed(p.ty),
        },
    )
}

/// Whether a parameter is given a value of another shape.
pub open spec fn mismatched(p: ParamRefView, vals: Values) -> bool {
    vals.dom().contains(p.name) && (kind_for(p) matches Some(k) && !fits(k, vals[p.name]))
}

pub open spec fn missing_line(p: ParamRefView) -> Seq<char> {
    "    "@ + p.name + ": "@ + if p.ty.len() == 0 {
        "?"@
    } else {
        p.ty
    }
}

pub open spec fn mismatch_line(p: ParamRefView, vals: Values) -> Seq<char> {
    "    "@ + p.name + ": expected "@ + kind_word(kind_for(p)->0) + " ("@ + p.ty + "), got "@ + (
    word_for(vals[p.name]) + " "@ + preview_of(vals[p.name].text))
}

/// The parameters that are needed and not given.
pub open spec fn missing_lines(params: Seq<ParamRefView>, vals: Values) -> Seq<Seq<char>>
    decreases params.len(),
{
    if params.len() == 0 {
        Seq::empty()
    } else {
        let front = missing_lines(params.drop_last(), vals);
        let p = params.last();
        if !vals.dom().contains(p.name) && !optional(p) {
            front.push(missing_line(p))
        } else {
            front
        }
    }
}

/// The parameters that are given a value of another shape.
pub open spec fn mismatch_lines(params: Seq<ParamRefView>, vals: Values) -> Seq<Seq<char>>
    decreases params.len(),
{
    if params.len() == 0 {
        Seq::empty()
    } else {
        let front = mismatch_lines(params.drop_last(), vals);
        let p = params.last();
        if mismatched(p, vals) {
            front.push(mismatch_line(p, vals))
        } else {
            front
        }
    }
}

/// The parameters that are given, with the texts of their values.
pub open spec fn passed(params: Seq<ParamRefView>, vals: Values) -> Seq<(Seq<char>, Seq<char>)>
    decreases params.len(),
{
    if params.len() == 0 {
        Seq::empty()
    } else {
        let front = passed(params.drop_last(), vals);
        let n = params.last().name;
        if vals.dom().contains(n) {
            front.push((n, vals[n].text))
        } else {
            front
        }
    }
}

pub open spec fn param_names(params: Seq<ParamRefView>) -> Seq<Seq<char>> {
    Seq::new(params.len(), |i: int| params[i].name)
}

pub open spec fn unknown_line(k: Seq<char>, known: Seq<Seq<char>>) -> Seq<char> {
    match nearest(k, known) {
        Some(s) => "    "@ + k + "  (did you mean `"@ + s + "`?)"@,
        None => "    "@ + k,
    }
}

/// The names that are given and not known.
pub open spec fn unknown_lines(keys: Seq<Seq<char>>, known: Seq<Seq<char>>) -> Seq<Seq<char>>
    decreases keys.len(),
{
    if keys.len() == 0 {
        Seq::empty()
    } else {
        let front = unknown_lines(keys.drop_last(), known);
        if known.contains(keys.last()) {
            front
        } else {
            front.push(unknown_line(keys.last(), known))
        }
    }
}

pub open spec fn param_text(p: ParamRefView) -> Seq<char> {
    if p.ty.len() == 0 {
        p.name
    } else {
        p.name + ": "@ + p.ty
    }
}

pub open spec fn param_texts(params: Seq<ParamRefView>) -> Seq<Seq<char>> {
    Seq::new(params.len(), |i: int| param_text(params[i]))
}

/// A heading with lines under it; nothing where there are none.
pub open spec fn section(head: Seq<char>, lines: Seq<Seq<char>>) -> Seq<char> {
    if lines.len() == 0 {
        Seq::empty()
    } else {
        head + joined(lines, "\n"@) + "\n"@
    }
}

pub open spec fn report_of(
    meta: ContainerRunMetaView,
    missing: Seq<Seq<char>>,
    wrong: Seq<Seq<char>>,
    unknown: Seq<Seq<char>>,
) -> Seq<char> {
    "error: invalid arguments for `"@ + meta.name + "`\n"@ + section(
        "\n  missing required parameter(s):\n"@,
        missing,
    ) + section("\n  type mismatch:\n"@, wrong) + section(
        "\n  unknown parameter(s) (not an input of this container):\n"@,
        unknown,
    ) + ("\n  expected inputs: "@ + joined(param_texts(meta.params), ", "@) + "\n"@)
        + "  pass with -p <name>=<value> (JSON value, else string) or --input-file"@
}

/// What the parameters of a template are given, or what is wrong with it.
pub open spec fn checked(meta: ContainerRunMetaView, vals: Values) -> Result<
    Seq<(Seq<char>, Seq<char>)>,
    Seq<char>,
> {
    let missing = missing_lines(meta.params, vals);
    let wrong = mismatch_lines(meta.params, vals);
    let unknown = unknown_lines(key_list(vals), sorted_once(param_names(meta.params)));
    if missing.len() == 0 && wrong.len() == 0 && unknown.len() == 0 {
        Ok(passed(meta.params, vals))
    } else {
        Err(report_of(meta, missing, wrong, unknown))
    }
}

/// Whether every value that has to be shown in a report can be cut.
pub open spec fn can_report(params: Seq<ParamRefView>, vals: Values) -> bool {
    forall|i: int|
        0 <= i < params.len() && mismatched(#[trigger] params[i], vals) ==> can_preview(
            vals[params[i].name].text,
        )
}

fn param_kind(p: &ParamRef) -> (r: (Option<Kind>, bool))
    ensures
        r.0 == kind_for(p.deep_view()),
        r.1 == optional(p.deep_view()),
{
    let norm: String = squeeze(p.ty.as_str());
    match strip_option(norm.as_str()) {
        Some(inner) => (expected_kind(inner.as_str()), true),
        None => (expected_kind(norm.as_str()), false),
    }
}

fn is_mismatched(p: &ParamRef, vals: &TextMap<Json>) -> (r: bool)
    ensures
        r == mismatched(p.deep_view(), vals.deep_view()),
{
    match vals.get(p.name.as_str()) {
        None => false,
        Some(v) => match param_kind(p).0 {
            Some(k) => !kind_ok(k, v),
            None => false,
        },
    }
}

/// Whether every value that has to be shown in a report can be cut.
pub fn reportable(params: &Vec<ParamRef>, vals: &TextMap<Json>) -> (r: bool)
    ensures
        r == can_report(params.deep_view(), vals.deep_view()),
{
    let ghost ps = params.deep_view();
    let ghost m = vals.deep_view();
    let mut i: usize = 0;
    while i < params.len()
        invariant
            ps == params.deep_view(),
            m == vals.deep_view(),
            i <= params@.len(),
            forall|j: int|
                0 <= j < i && mismatched(#[trigger] ps[j], m) ==> can_preview(m[ps[j].name].text),
        decreases params@.len() - i,
    {
        proof {
            assert(ps[i as int] == params@[i as int].deep_view());
        }
        if is_mismatched(&params[i], vals) {
            match vals.get(params[i].name.as_str()) {
                Some(v) => {
                    if !previewable(v.text.as_str()) {
                        return false;
                    }
                },
                None => {},
            }
        }
        i = i + 1;
    }
    true
}

fn push_line(v: &mut Vec<String>, s: String)
    ensures
        final(v).deep_view() == old(v).deep_view().push(s@),
{
    let ghost before = v.deep_view();
    let ghost sv = s@;
    v.push(s);
    proof {
        assert(v.deep_view() =~= before.push(sv));
    }
}

fn render_mismatch(p: &ParamRef, k: Kind, v: &Json) -> (r: String)
    requires
        can_preview(v.text@),
    ensures
        r@ == "    "@ + p.name@ + ": expected "@ + kind_word(k) + " ("@ + p.ty@ + "), got "@ + (
        word_for(v.deep_view()) + " "@ + preview_of(v.text@)),
{
    let mut line: String = cat7(
        "    ",
        p.name.as_str(),
        ": expected ",
        k.word(),
        " (",
        p.ty.as_str(),
        "), got ",
    );
    let shown: String = preview(v.text.as_str());
    let end: String = cat3(json_kind(v), " ", shown.as_str());
    line.append(end.as_str());
    line
}

/// The parameters read against what is given: those that are missing, those of
/// another shape, and the values that are passed.
pub struct ParamCheck {
    pub missing: Vec<String>,
    pub wrong: Vec<String>,
    pub passed: Vec<(String, String)>,
}

fn check_each(params: &Vec<ParamRef>, vals: &TextMap<Json>) -> (r: ParamCheck)
    requires
        can_report(params.deep_view(), vals.deep_view()),
    ensures
        r.missing.deep_view() == missing_lines(params.deep_view(), vals.deep_view()),
        r.wrong.deep_view() == mismatch_lines(params.deep_view(), vals.deep_view()),
        r.passed.deep_view() == passed(params.deep_view(), vals.deep_view()),
{
    let ghost ps = params.deep_view();
    let ghost m = vals.deep_view();
    let mut missing: Vec<String> = Vec::new();
    let mut wrong: Vec<String> = Vec::new();
    let mut given: Vec<(String, String)> = Vec::new();
    let mut i: usize = 0;
    proof {
        assert(ps.take(0) =~= Seq::<ParamRefView>::empty());
        assert(missing.deep_view() =~= Seq::<Seq<char>>::empty());
        assert(wrong.deep_view() =~= Seq::<Seq<char>>::empty());
        assert(given.deep_view() =~= Seq::<(Seq<char>, Seq<char>)>::empty());
    }
    while i < params.len()
        invariant
            ps == params.deep_view(),
            m == vals.deep_view(),
            can_report(ps, m),
            i <= params@.len(),
            missing.deep_view() == missing_lines(ps.take(i as int), m),
            wrong.deep_view() == mismatch_lines(ps.take(i as int), m),
            given.deep_view() == passed(ps.take(i as int), m),
        decreases params@.len() - i,
    {
        proof {
            assert(ps.take(i + 1).drop_last() =~= ps.take(i as int));
            assert(ps.take(i + 1).last() == params@[i as int].deep_view());
            assert(ps[i as int] == params@[i as int].deep_view());
        }
        let p: &ParamRef = &params[i];
        let (kind, may_miss) = param_kind(p);
        match vals.get(p.name.as_str()) {
            None => {
                if !may_miss {
                    let ty: &str = if p.ty.as_str().is_empty() {
                        "?"
                    } else {
                        p.ty.as_str()
                    };
                    let head: String = cat3("    ", p.name.as_str(), ": ");
                    push_line(&mut missing, cat2(head.as_str(), ty));
                }
            },
            Some(v) => {
                match kind {
                    Some(k) => {
                        if !kind_ok(k, v) {
                            push_line(&mut wrong, render_mismatch(p, k, v));
                        }
                    },
                    None => {},
                }
                let ghost before = given.deep_view();
                given.push((p.name.clone(), v.text.clone()));
                proof {
                    assert(given.deep_view() =~= before.push((p.name@, v.text@)));
                }
            },
        }
        i = i + 1;
    }
    proof {
        assert(ps.take(i as int) =~= ps);
    }
    ParamCheck { missing, wrong, passed: given }
}

fn known_names(params: &Vec<ParamRef>) -> (r: Vec<String>)
    ensures
        r.deep_view() == sorted_once(param_names(params.deep_view())),
{
    let ghost names = param_names(params.deep_view());
    let mut out: Vec<String> = Vec::new();
    let mut i: usize = 0;
    proof {
        assert(names.take(0) =~= Seq::<Seq<char>>::empty());
        assert(out.deep_view() =~= Seq::<Seq<char>>::empty());
    }
    while i < params.len()
        invariant
            names == param_names(params.deep_view()),
            i <= params@.len(),
            out.deep_view() == sorted_once(names.take(i as int)),
        decreases params@.len() - i,
    {
        proof {
            assert(names.take(i + 1).drop_last() =~= names.take(i as int));
            assert(names.take(i + 1).last() == params@[i as int].name@);
        }
        insert_text(&mut out, params[i].name.clone());
        i = i + 1;
    }
    proof {
        assert(names.take(i as int) =~= names);
    }
    out
}

fn find_unknown(keys: &Vec<String>, known: &Vec<String>) -> (r: Vec<String>)
    ensures
        r.deep_view() == unknown_lines(keys.deep_view(), known.deep_view()),
{
    let ghost ks = keys.deep_view();
    let mut out: Vec<String> = Vec::new();
    let mut i: usize = 0;
    proof {
        assert(ks.take(0) =~= Seq::<Seq<char>>::empty());
        assert(out.deep_view() =~= Seq::<Seq<char>>::empty());
    }
    while i < keys.len()
        invariant
            ks == keys.deep_view(),
            i <= keys@.len(),
            out.deep_view() == unknown_lines(ks.take(i as int), known.deep_view()),
        decreases keys@.len() - i,
    {
        proof {
            assert(ks.take(i + 1).drop_last() =~= ks.take(i as int));
            assert(ks.take(i + 1).last() == keys@[i as int]@);
        }
        let k: &str = keys[i].as_str();
        if !has_str(known, k) {
            match suggest(k, known) {
                Some(s) => push_line(
                    &mut out,
                    cat5("    ", k, "  (did you mean `", s.as_str(), "`?)"),
                ),
                None => push_line(&mut out, cat2("    ", k)),
            }
        }
        i = i + 1;
    }
    proof {
        assert(ks.take(i as int) =~= ks);
    }
    out
}

fn render_section(head: &str, lines: &Vec<String>) -> (r: String)
    ensures
        r@ == section(head@, lines.deep_view()),
{
    proof {
        assert(lines.deep_view().len() == lines@.len());
    }
    if lines.len() == 0 {
        let s: String = String::new();
        proof {
            assert(s@ =~= Seq::<char>::empty());
        }
        s
    } else {
        let body: String = join(lines, "\n");
        cat3(head, body.as_str(), "\n")
    }
}

/// The parameters of a template as texts: `name: Type`, or the name alone.
pub fn render_params(params: &Vec<ParamRef>) -> (r: Vec<String>)
    ensures
        r.deep_view() == param_texts(params.deep_view()),
{
    let ghost want = param_texts(params.deep_view());
    let mut out: Vec<String> = Vec::new();
    let mut i: usize = 0;
    proof {
        assert(out.deep_view() =~= want.take(0));
    }
    while i < params.len()
        invariant
            want == param_texts(params.deep_view()),
            i <= params@.len(),
            out.deep_view() == want.take(i as int),
        decreases params@.len() - i,
    {
        let p: &ParamRef = &params[i];
        let t: String = if p.ty.as_str().is_empty() {
            p.name.clone()
        } else {
            cat3(p.name.as_str(), ": ", p.ty.as_str())
        };
        proof {
            assert(t@ == want[i as int]);
        }
        push_line(&mut out, t);
        i = i + 1;
        proof {
            assert(out.deep_view() =~= want.take(i as int));
        }
    }
    proof {
        assert(want.take(i as int) =~= want);
    }
    out
}

fn render_report(
    meta: &ContainerRunMeta,
    missing: &Vec<String>,
    wrong: &Vec<String>,
    unknown: &Vec<String>,
) -> (r: String)
    ensures
        r@ == report_of(
            meta.deep_view(),
            missing.deep_view(),
            wrong.deep_view(),
            unknown.deep_view(),
        ),
{
    let mut m: String = cat3("error: invalid arguments for `", meta.name.as_str(), "`\n");
    let a: String = render_section("\n  missing required parameter(s):\n", missing);
    m.append(a.as_str());
    let b: String = render_section("\n  type mismatch:\n", wrong);
    m.append(b.as_str());
    let c: String = render_section(
        "\n  unknown parameter(s) (not an input of this container):\n",
        unknown,
    );
    m.append(c.as_str());
    let sig: String = join(&render_params(&meta.params), ", ");
    let d: String = cat3("\n  expected inputs: ", sig.as_str(), "\n");
    m.append(d.as_str());
    m.append("  pass with -p <name>=<value> (JSON value, else string) or --input-file");
    m
}

/// Checks what is given against the parameters of a template: all that are needed
/// are there, nothing else is, and every value has the shape of its type. Gives
/// each parameter with the text of its value.
pub fn check_params(meta: &ContainerRunMeta, vals: &TextMap<Json>) -> (r: Result<
    Vec<(String, String)>,
    String,
>)
    requires
        can_report(meta.deep_view().params, vals.deep_view()),
    ensures
        agrees(r, checked(meta.deep_view(), vals.deep_view())),
{
    let c: ParamCheck = check_each(&meta.params, vals);
    let keys: Vec<String> = vals.keys();
    let known: Vec<String> = known_names(&meta.params);
    let unknown: Vec<String> = find_unknown(&keys, &known);
    proof {
        assert(c.missing.deep_view().len() == c.missing@.len());
        assert(c.wrong.deep_view().len() == c.wrong@.len());
        assert(unknown.deep_view().len() == unknown@.len());
    }
    if c.missing.len() == 0 && c.wrong.len() == 0 && unknown.len() == 0 {
        Ok(c.passed)
    } else {
        Err(render_report(meta, &c.missing, &c.wrong, &unknown))
    }
}

proof fn lemma_missing(params: Seq<ParamRefView>, vals: Values)
    ensures
        missing_lines(params, vals).len() == 0 <==> forall|i: int|
            0 <= i < params.len() ==> vals.dom().contains((#[trigger] params[i]).name) || optional(
                params[i],
            ),
        mismatch_lines(params, vals).len() == 0 <==> forall|i: int|
            0 <= i < params.len() ==> !mismatched(#[trigger] params[i], vals),
    decreases params.len(),
{
    if params.len() > 0 {
        let f = params.drop_last();
        lemma_missing(f, vals);
        assert(params[params.len() - 1] == params.last());
        assert forall|i: int| 0 <= i < f.len() implies params[i] == f[i] by {}
        if forall|i: int| 0 <= i < params.len() ==> vals.dom().contains((#[trigger] params[i]).name)
            || optional(params[i]) {
            assert forall|i: int| 0 <= i < f.len() implies vals.dom().contains(
                (#[trigger] f[i]).name,
            ) || optional(f[i]) by {
                assert(f[i] == params[i]);
            }
        }
        if missing_lines(params, vals).len() == 0 {
            assert forall|i: int| 0 <= i < params.len() implies vals.dom().contains(
                (#[trigger] params[i]).name,
            ) || optional(params[i]) by {
                if i < f.len() {
                    assert(f[i] == params[i]);
                }
            }
        }
        if forall|i: int| 0 <= i < params.len() ==> !mismatched(#[trigger] params[i], vals) {
            assert forall|i: int| 0 <= i < f.len() implies !mismatched(#[trigger] f[i], vals) by {
                assert(f[i] == params[i]);
            }
        }
        if mismatch_lines(params, vals).len() == 0 {
            assert forall|i: int| 0 <= i < params.len() implies !mismatched(
                #[trigger] params[i],
                vals,
            ) by {
                if i < f.len() {
                    assert(f[i] == params[i]);
                }
            }
        }
    }
}

proof fn lemma_unknown(keys: Seq<Seq<char>>, known: Seq<Seq<char>>)
    ensures
        unknown_lines(keys, known).len() == 0 <==> forall|i: int|
            0 <= i < keys.len() ==> known.contains(#[trigger] keys[i]),
    decreases keys.len(),
{
    if keys.len() > 0 {
        let f = keys.drop_last();
        lemma_unknown(f, known);
        assert(keys[keys.len() - 1] == keys.last());
        if forall|i: int| 0 <= i < keys.len() ==> known.contains(#[trigger] keys[i]) {
            assert forall|i: int| 0 <= i < f.len() implies known.contains(#[trigger] f[i]) by {
                assert(f[i] == keys[i]);
            }
        }
        if unknown_lines(keys, known).len() == 0 {
            assert forall|i: int| 0 <= i < keys.len() implies known.contains(
                #[trigger] keys[i],
            ) by {
                if i < f.len() {
                    assert(f[i] == keys[i]);
                }
            }
        }
    }
}

/// What is given is accepted exactly where every parameter that is needed has a
/// value, every value has the shape of its type, and every name that is given is a
/// parameter's.
pub proof fn law_check(meta: ContainerRunMetaView, vals: Values, ks: Seq<Seq<char>>)
    requires
        crate::maps::lists(vals, ks),
    ensures
        checked(meta, vals) is Ok <==> {
            &&& forall|i: int|
                0 <= i < meta.params.len() ==> vals.dom().contains((#[trigger] meta.params[i]).name)
                    || optional(meta.params[i])
            &&& forall|i: int|
                0 <= i < meta.params.len() ==> !mismatched(#[trigger] meta.params[i], vals)
            &&& forall|k: Seq<char>| #[trigger]
                vals.dom().contains(k) ==> param_names(meta.params).contains(k)
        },
{
    let names = param_names(meta.params);
    let known = sorted_once(names);
    crate::maps::lemma_one_list(vals, ks, key_list(vals));
    lemma_missing(meta.params, vals);
    lemma_unknown(ks, known);
    crate::sorted::law_text_order();
    crate::sorted::law_once_by(names, text_lt());
    if forall|k: Seq<char>| #[trigger] vals.dom().contains(k) ==> names.contains(k) {
        assert forall|i: int| 0 <= i < ks.len() implies known.contains(#[trigger] ks[i]) by {
            assert(ks.contains(ks[i]));
            assert(vals.dom().contains(ks[i]));
            assert(names.contains(ks[i]));
        }
    }
    if forall|i: int| 0 <= i < ks.len() ==> known.contains(#[trigger] ks[i]) {
        assert forall|k: Seq<char>| #[trigger] vals.dom().contains(k) implies names.contains(k) by {
            assert(ks.contains(k));
            let i = choose|i: int| 0 <= i < ks.len() && ks[i] == k;
            assert(known.contains(ks[i]));
        }
    }
}

// ---- the run --------------------------------------------------------------------------------
/// Why a template cannot be run here.
pub open spec fn run_refusal(meta: ContainerRunMetaView) -> Option<Seq<char>> {
    if meta.kind == "container"@ {
        None
    } else {
        Some(
            debug_text(meta.name) + " is a #["@ + meta.kind
                + "]; `container emulate` targets a single #[container]. A #[workflow] is a DAG with no pod — run its containers individually."@,
        )
    }
}

/// Checks that a template can be run here.
pub fn check_container(meta: &ContainerRunMeta) -> (r: Result<(), String>)
    ensures
        match r {
            Ok(_) => run_refusal(meta.deep_view()) is None,
            Err(m) => run_refusal(meta.deep_view()) == Some(m@),
        },
{
    if str_eq(meta.kind.as_str(), "container") {
        Ok(())
    } else {
        let q: String = debug_str(meta.name.as_str());
        let head: String = cat3(q.as_str(), " is a #[", meta.kind.as_str());
        Err(
            cat2(
                head.as_str(),
                "]; `container emulate` targets a single #[container]. A #[workflow] is a DAG with no pod — run its containers individually.",
            ),
        )
    }
}

/// Where the binary comes from.
pub enum Payload<'a> {
    /// This file.
    File(&'a String),
    /// A build on this machine.
    Build,
    /// The object store.
    Pull(&'a ArtifactRef),
}

pub const NO_BINARY: &'static str =
    "template has no binary artifact (run `cargo athena build` first, or pass --build / --tarball)";

/// Chooses where the binary comes from: a file that is named, else a build that is
/// asked for, else the object store.
pub fn choose_payload<'a>(a: &'a EmulateArgs, meta: &'a ContainerRunMeta) -> (r: Result<
    Payload<'a>,
    String,
>)
    ensures
        match r {
            Ok(Payload::File(p)) => a.tarball == Some(*p),
            Ok(Payload::Build) => a.tarball is None && a.build,
            Ok(Payload::Pull(b)) => a.tarball is None && !a.build && meta.binary_artifact == Some(
                *b,
            ),
            Err(m) => a.tarball is None && !a.build && meta.binary_artifact is None && m@
                == NO_BINARY@,
        },
{
    match &a.tarball {
        Some(p) => Ok(Payload::File(p)),
        None => {
            if a.build {
                Ok(Payload::Build)
            } else {
                match &meta.binary_artifact {
                    Some(b) => Ok(Payload::Pull(b)),
                    None => Err(NO_BINARY.to_owned()),
                }
            }
        },
    }
}

/// A path in the container, below the directory that stands for its scratch
/// directory.
pub open spec fn below_work(path: Seq<char>, work_dir: Seq<char>) -> Seq<char> {
    trim_start_by(
        match after_prefix(path, work_dir) {
            Some(p) => p,
            None => path,
        },
        is_char('/'),
    )
}

/// A path in the container, below the directory that stands for its scratch
/// directory.
pub fn host_of(path: &str, work_dir: &str) -> (r: String)
    ensures
        r@ == below_work(path@, work_dir@),
{
    match strip_prefix(path, work_dir) {
        Some(p) => trim_start_char(p.as_str(), '/'),
        None => trim_start_char(path, '/'),
    }
}

pub const NO_COMMAND: &'static str = "template has no container command";

pub open spec fn binds(paths: Seq<Seq<char>>) -> Seq<Seq<char>>
    decreases paths.len(),
{
    if paths.len() == 0 {
        Seq::empty()
    } else {
        let p = paths.last();
        binds(paths.drop_last()).push("-v"@).push(p + ":"@ + p)
    }
}

pub open spec fn settings(values: Seq<(Seq<char>, Seq<char>)>) -> Seq<Seq<char>>
    decreases values.len(),
{
    if values.len() == 0 {
        Seq::empty()
    } else {
        let v = values.last();
        settings(values.drop_last()).push("-e"@).push(v.0 + "="@ + v.1)
    }
}

/// How the container runtime is called: the scratch directory and the host paths
/// are bound, the values are set, and the template's command runs in its image.
pub open spec fn run_line(
    meta: ContainerRunMetaView,
    work: Seq<char>,
    values: Seq<(Seq<char>, Seq<char>)>,
) -> Result<Seq<Seq<char>>, Seq<char>> {
    if meta.command.len() == 0 {
        Err(NO_COMMAND@)
    } else {
        Ok(
            seq!["run"@, "--rm"@, "-v"@, work + ":"@ + meta.work_dir] + binds(meta.host_paths)
                + settings(values) + seq!["--entrypoint"@, meta.command[0], meta.image]
                + meta.command.drop_first() + meta.args,
        )
    }
}

fn push_all(out: &mut Vec<String>, more: &Vec<String>, from: usize)
    requires
        from <= more@.len(),
    ensures
        final(out).deep_view() == old(out).deep_view() + more.deep_view().skip(from as int),
{
    let ghost o = out.deep_view();
    let ghost all = more.deep_view().skip(from as int);
    let mut i: usize = from;
    proof {
        assert(o + all.take(0) =~= o);
    }
    while i < more.len()
        invariant
            from <= i <= more@.len(),
            all == more.deep_view().skip(from as int),
            out.deep_view() == o + all.take(i - from),
        decreases more@.len() - i,
    {
        push_line(out, more[i].clone());
        i = i + 1;
        proof {
            assert((o + all.take(i - 1 - from)).push(all[i - 1 - from]) =~= o + all.take(
                i - from,
            ));
        }
    }
    proof {
        assert(all.take(i - from) =~= all);
    }
}

/// The arguments with which the container runtime is called.
pub fn run_args(meta: &ContainerRunMeta, work: &str, values: &Vec<(String, String)>) -> (r: Result<
    Vec<String>,
    String,
>)
    ensures
        agrees(r, run_line(meta.deep_view(), work@, values.deep_view())),
{
    let ghost mv = meta.deep_view();
    let ghost vv = values.deep_view();
    proof {
        assert(mv.command.len() == meta.command@.len());
    }
    if meta.command.len() == 0 {
        return Err(NO_COMMAND.to_owned());
    }
    let mut out: Vec<String> = Vec::new();
    proof {
        assert(out.deep_view() =~= Seq::<Seq<char>>::empty());
    }
    push_line(&mut out, "run".to_owned());
    push_line(&mut out, "--rm".to_owned());
    push_line(&mut out, "-v".to_owned());
    push_line(&mut out, cat3(work, ":", meta.work_dir.as_str()));
    let ghost head = seq!["run"@, "--rm"@, "-v"@, work@ + ":"@ + mv.work_dir];
    let mut i: usize = 0;
    proof {
        assert(out.deep_view() =~= head);
        assert(mv.host_paths.take(0) =~= Seq::<Seq<char>>::empty());
        assert(head + binds(mv.host_paths.take(0)) =~= head);
    }
    while i < meta.host_paths.len()
        invariant
            mv == meta.deep_view(),
            i <= meta.host_paths@.len(),
            out.deep_view() == head + binds(mv.host_paths.take(i as int)),
        decreases meta.host_paths@.len() - i,
    {
        let p: &str = meta.host_paths[i].as_str();
        proof {
            assert(mv.host_paths.take(i + 1).drop_last() =~= mv.host_paths.take(i as int));
            assert(mv.host_paths.take(i + 1).last() == p@);
        }
        push_line(&mut out, "-v".to_owned());
        push_line(&mut out, cat3(p, ":", p));
        i = i + 1;
        proof {
            assert(out.deep_view() =~= head + binds(mv.host_paths.take(i as int)));
        }
    }
    let ghost head2 = head + binds(mv.host_paths);
    let mut k: usize = 0;
    proof {
        assert(mv.host_paths.take(i as int) =~= mv.host_paths);
        assert(vv.take(0) =~= Seq::<(Seq<char>, Seq<char>)>::empty());
        assert(head2 + settings(vv.take(0)) =~= head2);
    }
    while k < values.len()
        invariant
            vv == values.deep_view(),
            k <= values@.len(),
            out.deep_view() == head2 + settings(vv.take(k as int)),
        decreases values@.len() - k,
    {
        proof {
            assert(vv.take(k + 1).drop_last() =~= vv.take(k as int));
            assert(vv.take(k + 1).last() == values@[k as int].deep_view());
        }
        push_line(&mut out, "-e".to_owned());
        push_line(&mut out, cat3(values[k].0.as_str(), "=", values[k].1.as_str()));
        k = k + 1;
        proof {
            assert(out.deep_view() =~= head2 + settings(vv.take(k as int)));
        }
    }
    let ghost head3 = head2 + settings(vv);
    proof {
        assert(vv.take(k as int) =~= vv);
    }
    push_line(&mut out, "--entrypoint".to_owned());
    push_line(&mut out, meta.command[0].clone());
    push_line(&mut out, meta.image.clone());
    let ghost head4 = head3 + seq!["--entrypoint"@, mv.command[0], mv.image];
    proof {
        assert(out.deep_view() =~= head4);
    }
    push_all(&mut out, &meta.command, 1);
    proof {
        assert(mv.command.skip(1) =~= mv.command.drop_first());
    }
    push_all(&mut out, &meta.args, 0);
    proof {
        assert(mv.args.skip(0) =~= mv.args);
    }
    Ok(out)
}

/// The address of an object store: none for that of Amazon, which the region
/// gives.
pub open spec fn endpoint_of(s3: S3RefView) -> Option<Seq<char>> {
    let ep = trim_by(s3.endpoint, is_space());
    if ep.len() == 0 || has_suffix(ep, "amazonaws.com"@) {
        None
    } else if occurs(ep, "://"@) {
        Some(ep)
    } else if s3.insecure {
        Some("http://"@ + ep)
    } else {
        Some("https://"@ + ep)
    }
}

/// The address of an object store.
pub fn endpoint_url(s3: &S3Ref) -> (r: Option<String>)
    ensures
        r.deep_view() == endpoint_of(s3.deep_view()),
{
    let ep: String = trim(s3.endpoint.as_str());
    if ep.as_str().is_empty() || ends_with(ep.as_str(), "amazonaws.com") {
        None
    } else if contains(ep.as_str(), "://") {
        Some(ep)
    } else if s3.insecure {
        Some(cat2("http://", ep.as_str()))
    } else {
        Some(cat2("https://", ep.as_str()))
    }
}

/// The runtimes that are tried: the one that is named, else Docker and then
/// Podman.
pub fn runtime_candidates(over: &Option<String>) -> (r: Vec<String>)
    ensures
        r.deep_view() == match over.deep_view() {
            Some(n) => seq![n],
            None => seq!["docker"@, "podman"@],
        },
{
    let mut out: Vec<String> = Vec::new();
    match over {
        Some(n) => {
            out.push(n.clone());
            proof {
                assert(out.deep_view() =~= seq![n@]);
            }
        },
        None => {
            out.push("docker".to_owned());
            out.push("podman".to_owned());
            proof {
                assert(out.deep_view() =~= seq!["docker"@, "podman"@]);
            }
        },
    }
    out
}

/// What is said where no runtime can be run.
pub fn no_runtime(over: &Option<String>) -> (r: String)
    ensures
        r@ == match over.deep_view() {
            Some(n) => "--runtime "@ + debug_text(n) + " is not runnable"@,
            None => "neither `docker` nor `podman` found on PATH — install one, or pass --runtime"@,
        },
{
    match over {
        Some(n) => {
            let q: String = debug_str(n.as_str());
            cat3("--runtime ", q.as_str(), " is not runnable")
        },
        None => "neither `docker` nor `podman` found on PATH — install one, or pass --runtime".to_owned(),
    }
}

} // verus!
