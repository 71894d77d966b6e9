//! What is given on the command line is what a run gets: the options of a
//! template's parameters, and the values that they and `-a` set.

use crate::argo_expr::Atom;
use crate::dyn_args::{
    dyn_arg_of, encode_fn, encoded, encoder_for, extracted, file_plan, flag_of, flag_pieces,
    is_typed, kind_of, opt_scalar, option_plan, scan_args, texts_of, unwrapped, value_in_texts,
    with_all_given, with_given, DynArgView, GivenView, Kind, Mode, RawView, Scalar,
};
use crate::emulate::{file_values, with_entries, with_pairs_given, FileTextView, Values};
use crate::folds::{lemma_map_res_len, map_res};
use crate::json::{int_dec, value_or_text, JsonView};
use crate::outside::{int_text, json_facts, uint_text, uppercase};
use crate::text::{
    all_digits, dec, dec_value, halves, has_prefix, is_digit, is_space, joined, lemma_lead,
    not_char, trim_by,
};
use vstd::prelude::*;

verus! {

// ---- scalars -----------------------------------------------------------------------
proof fn lemma_digits(n: nat)
    ensures
        all_digits(dec(n)),
        dec(n).len() > 0,
        dec_value(dec(n)) == n,
    decreases n,
{
    crate::analyze::lemma_dec_value(n);
    if n >= 10 {
        lemma_digits(n / 10);
        assert forall|i: int| 0 <= i < dec(n).len() implies is_digit(#[trigger] dec(n)[i]) by {
            if i < dec(n).len() - 1 {
                assert(dec(n)[i] == dec(n / 10)[i]);
            }
        }
    }
}

/// The text of a whole number is read back as the number.
pub proof fn law_numbers_are_read_back(n: int)
    ensures
        int_text(int_dec(n)) == Some(n),
        n >= 0 ==> uint_text(int_dec(n)) == Some(n as nat),
{
    reveal_strlit("-");
    reveal_strlit("+");
    if n < 0 {
        let d = dec((-n) as nat);
        lemma_digits((-n) as nat);
        let t = "-"@ + d;
        assert(t.skip(1) =~= d);
        assert(has_prefix(t, "-"@)) by {
            assert(t.subrange(0, 1) =~= "-"@);
        }
    } else {
        let d = dec(n as nat);
        lemma_digits(n as nat);
        assert(is_digit(d[0]));
        assert(!has_prefix(d, "-"@)) by {
            if has_prefix(d, "-"@) {
                assert(d.subrange(0, 1)[0] == '-');
            }
        }
        assert(!has_prefix(d, "+"@)) by {
            if has_prefix(d, "+"@) {
                assert(d.subrange(0, 1)[0] == '+');
            }
        }
    }
}

/// What is given for a scalar is what is submitted: the JSON of a string is that
/// string, the JSON of a number is read as the number that was given, and the JSON
/// of a truth value is the text that was given. It is refused exactly where the
/// text is no such scalar.
pub proof fn law_given_scalars_are_submitted(s: Scalar, raw: RawView)
    ensures
        match (s, encoded(s, raw)) {
            (Scalar::Str, Ok(v)) => v.string && crate::argo_expr::scalar_of(v.text) == Some(
                Atom::Text(raw.text),
            ),
            (Scalar::Str, Err(_)) => false,
            (Scalar::Int, Ok(v)) => v.number && v.int64 && int_text(raw.text) is Some && int_text(
                v.text,
            ) == int_text(raw.text),
            (Scalar::Int, Err(_)) => !(int_text(raw.text) matches Some(n) && i64::MIN <= n
                <= i64::MAX),
            (Scalar::Uint, Ok(v)) => v.number && v.uint64 && uint_text(raw.text) is Some
                && uint_text(v.text) == uint_text(raw.text),
            (Scalar::Uint, Err(_)) => !(uint_text(raw.text) matches Some(n) && n <= u64::MAX),
            (Scalar::Bool, Ok(v)) => v.boolean && v.text == raw.text && (raw.text
                == seq!['t', 'r', 'u', 'e'] || raw.text == seq!['f', 'a', 'l', 's', 'e']),
            (Scalar::Bool, Err(_)) => raw.text != seq!['t', 'r', 'u', 'e'] && raw.text
                != seq!['f', 'a', 'l', 's', 'e'],
            (Scalar::Float, r) => r == raw.as_float,
        },
{
    match s {
        Scalar::Str => crate::argo_expr::law_json_strings_are_read_back(raw.text),
        Scalar::Int => {
            if let Some(n) = int_text(raw.text) {
                law_numbers_are_read_back(n);
            }
        },
        Scalar::Uint => {
            if let Some(n) = uint_text(raw.text) {
                law_numbers_are_read_back(n as int);
            }
        },
        Scalar::Bool => {
            reveal_strlit("true");
            reveal_strlit("false");
            assert("true"@ =~= seq!['t', 'r', 'u', 'e']);
            assert("false"@ =~= seq!['f', 'a', 'l', 's', 'e']);
        },
        _ => {},
    }
}

/// Two texts that say different things are never submitted as one value.
pub proof fn law_given_scalars_are_told_apart(s: Scalar, a: RawView, b: RawView)
    requires
        encoded(s, a) is Ok,
        encoded(s, b) is Ok,
        match s {
            Scalar::Str => a.text != b.text,
            Scalar::Bool => a.text != b.text,
            Scalar::Int => int_text(a.text) != int_text(b.text),
            Scalar::Uint => uint_text(a.text) != uint_text(b.text),
            Scalar::Float => false,
        },
    ensures
        encoded(s, a)->Ok_0.text != encoded(s, b)->Ok_0.text,
{
    law_given_scalars_are_submitted(s, a);
    law_given_scalars_are_submitted(s, b);
}

// ---- types -------------------------------------------------------------------------
/// The scalar that a type's name says: signed and unsigned integers by their first
/// letter, fractions, truth values, and the three ways to write a string.
pub proof fn law_scalar_types(ty: Seq<char>)
    ensures
        ({
            let t = trim_by(ty, is_space());
            let bits = t.len() > 1 && (t.skip(1) == "8"@ || t.skip(1) == "16"@ || t.skip(1) == "32"@
                || t.skip(1) == "64"@ || t.skip(1) == "128"@ || t.skip(1) == "size"@);
            let s = crate::dyn_args::scalar_of(ty);
            &&& s == Some(Scalar::Int) <==> bits && t[0] == 'i'
            &&& s == Some(Scalar::Uint) <==> bits && t[0] == 'u'
            &&& s == Some(Scalar::Float) <==> t.len() == 3 && t[0] == 'f' && (t.skip(1) == "32"@
                || t.skip(1) == "64"@)
            &&& s == Some(Scalar::Bool) <==> t == "bool"@
            &&& s == Some(Scalar::Str) <==> t == "String"@ || t == "&str"@ || t == "&'static str"@
        }),
{
    let t = trim_by(ty, is_space());
    lemma_named(t, 'i', "8"@, "i8"@);
    lemma_type_names();
    lemma_named(t, 'i', "16"@, "i16"@);
    lemma_named(t, 'i', "32"@, "i32"@);
    lemma_named(t, 'i', "64"@, "i64"@);
    lemma_named(t, 'i', "128"@, "i128"@);
    lemma_named(t, 'i', "size"@, "isize"@);
    lemma_named(t, 'u', "8"@, "u8"@);
    lemma_named(t, 'u', "16"@, "u16"@);
    lemma_named(t, 'u', "32"@, "u32"@);
    lemma_named(t, 'u', "64"@, "u64"@);
    lemma_named(t, 'u', "128"@, "u128"@);
    lemma_named(t, 'u', "size"@, "usize"@);
    lemma_named(t, 'f', "32"@, "f32"@);
    lemma_named(t, 'f', "64"@, "f64"@);
    reveal_strlit("bool");
    reveal_strlit("String");
    reveal_strlit("&str");
    reveal_strlit("&'static str");
    reveal_strlit("32");
    reveal_strlit("64");
    assert("bool"@[0] == 'b' && "String"@[0] == 'S' && "&str"@[0] == '&' && "&'static str"@[0]
        == '&');
}

proof fn lemma_type_names()
    ensures
        seq!['i'] + "8"@ == "i8"@,
        seq!['i'] + "16"@ == "i16"@,
        seq!['i'] + "32"@ == "i32"@,
        seq!['i'] + "64"@ == "i64"@,
        seq!['i'] + "128"@ == "i128"@,
        seq!['i'] + "size"@ == "isize"@,
        seq!['u'] + "8"@ == "u8"@,
        seq!['u'] + "16"@ == "u16"@,
        seq!['u'] + "32"@ == "u32"@,
        seq!['u'] + "64"@ == "u64"@,
        seq!['u'] + "128"@ == "u128"@,
        seq!['u'] + "size"@ == "usize"@,
        seq!['f'] + "32"@ == "f32"@,
        seq!['f'] + "64"@ == "f64"@,
        "8"@.len() == 1,
        "16"@.len() == 2,
        "32"@.len() == 2,
        "64"@.len() == 2,
        "128"@.len() == 3,
        "size"@.len() == 4,
{
    reveal_strlit("8");
    reveal_strlit("16");
    reveal_strlit("32");
    reveal_strlit("64");
    reveal_strlit("128");
    reveal_strlit("size");
    reveal_strlit("i8");
    reveal_strlit("i16");
    reveal_strlit("i32");
    reveal_strlit("i64");
    reveal_strlit("i128");
    reveal_strlit("isize");
    reveal_strlit("u8");
    reveal_strlit("u16");
    reveal_strlit("u32");
    reveal_strlit("u64");
    reveal_strlit("u128");
    reveal_strlit("usize");
    reveal_strlit("f32");
    reveal_strlit("f64");
    assert(seq!['i'] + "8"@ =~= "i8"@);
    assert(seq!['i'] + "16"@ =~= "i16"@);
    assert(seq!['i'] + "32"@ =~= "i32"@);
    assert(seq!['i'] + "64"@ =~= "i64"@);
    assert(seq!['i'] + "128"@ =~= "i128"@);
    assert(seq!['i'] + "size"@ =~= "isize"@);
    assert(seq!['u'] + "8"@ =~= "u8"@);
    assert(seq!['u'] + "16"@ =~= "u16"@);
    assert(seq!['u'] + "32"@ =~= "u32"@);
    assert(seq!['u'] + "64"@ =~= "u64"@);
    assert(seq!['u'] + "128"@ =~= "u128"@);
    assert(seq!['u'] + "size"@ =~= "usize"@);
    assert(seq!['f'] + "32"@ =~= "f32"@);
    assert(seq!['f'] + "64"@ =~= "f64"@);
}

proof fn lemma_named(t: Seq<char>, c: char, rest: Seq<char>, name: Seq<char>)
    ensures
        seq![c] + rest == name && rest.len() > 0 ==> (t == name <==> t.len() > 1 && t[0] == c && t.skip(1)
            == rest),
{
    if seq![c] + rest == name && rest.len() > 0 {
        if t == name {
            assert(t.skip(1) =~= rest);
        }
        if t.len() > 1 && t[0] == c && t.skip(1) == rest {
            assert(t =~= seq![c] + rest);
        }
    }
}

/// An option takes what its type is read from: a scalar, the scalar of an optional
/// one, one scalar for each element of a list, and JSON for anything else.
pub proof fn law_option_kinds(ty: Seq<char>)
    ensures
        ({
            let own = crate::dyn_args::scalar_of(ty);
            let inner = opt_scalar(unwrapped(ty, "Option"@));
            let item = opt_scalar(unwrapped(ty, "Vec"@));
            match own {
                Some(Scalar::Str) => kind_of(ty) == Kind::Text,
                Some(Scalar::Int) => kind_of(ty) == Kind::Integer,
                Some(Scalar::Uint) => kind_of(ty) == Kind::Integer,
                Some(Scalar::Float) => kind_of(ty) == Kind::Float,
                Some(Scalar::Bool) => kind_of(ty) == Kind::Bool,
                None => match inner {
                    Some(s) => kind_of(ty) == kind_of(unwrapped(ty, "Option"@)->0) && encoder_for(
                        ty,
                    ) == s,
                    None => match item {
                        Some(s) => kind_of(ty) == Kind::VecOf(s),
                        None => kind_of(ty) == Kind::Json,
                    },
                },
            }
        }),
{
}

// ---- values ------------------------------------------------------------------------
/// What an option with one value submits is the value that was given first, as the
/// scalar of its type; a list submits each value in order; JSON is taken as it is
/// read. An option that is not given submits nothing.
pub proof fn law_given_values_are_submitted(a: DynArgView, values: Seq<RawView>)
    ensures
        match value_in_texts(a, values) {
            Ok(None) => values.len() == 0,
            Ok(Some(v)) => values.len() > 0 && match a.kind {
                Kind::VecOf(s) => v.array && exists|vs: Seq<JsonView>|
                    #![trigger texts_of(vs)]
                    {
                        &&& vs.len() == values.len()
                        &&& v.text == "["@ + joined(texts_of(vs), ","@) + "]"@
                        &&& forall|i: int|
                            0 <= i < vs.len() ==> encoded(s, values[i]) == Ok::<
                                JsonView,
                                Seq<char>,
                            >(#[trigger] vs[i])
                    },
                Kind::Json => json_facts(values[0].text) == Ok::<JsonView, Seq<char>>(v),
                _ => encoded(encoder_for(a.rust_type), values[0]) == Ok::<JsonView, Seq<char>>(v),
            },
            Err(_) => values.len() > 0,
        },
{
    if values.len() > 0 {
        if let Kind::VecOf(s) = a.kind {
            lemma_map_res_len(values, encode_fn(s));
            if map_res(values, encode_fn(s)) is Ok {
                let vs = map_res(values, encode_fn(s))->Ok_0;
                assert(value_in_texts(a, values)->Ok_0->0.text == "["@ + joined(texts_of(vs), ","@)
                    + "]"@);
                assert forall|i: int| 0 <= i < vs.len() implies encoded(s, values[i]) == Ok::<
                    JsonView,
                    Seq<char>,
                >(#[trigger] vs[i]) by {
                    assert(encode_fn(s)(values[i]) == Ok::<JsonView, Seq<char>>(vs[i]));
                }
            }
        }
    }
}

/// The texts of a list stand one after the other with the separator between them.
pub proof fn law_joined(parts: Seq<Seq<char>>, sep: Seq<char>)
    ensures
        parts.len() == 0 ==> joined(parts, sep).len() == 0,
        parts.len() == 1 ==> joined(parts, sep) == parts[0],
        parts.len() > 1 ==> joined(parts, sep) == joined(parts.drop_last(), sep) + sep
            + parts.last(),
{
    reveal_with_fuel(joined, 2);
    if parts.len() == 1 {
        assert(joined(parts, sep) =~= parts[0]);
    }
}

/// An option sets its own parameter and no other. The file that an option names is
/// read as JSON.
pub proof fn law_an_option_sets_its_parameter(m: Values, named: Seq<Seq<char>>, g: GivenView)
    ensures
        with_given(m, named, g) matches Ok(m2) ==> {
            &&& forall|k: Seq<char>|
                k != g.arg.name ==> (#[trigger] m2.dom().contains(k) <==> m.dom().contains(k))
                    && (m.dom().contains(k) ==> m2[k] == m[k])
            &&& !is_typed(g) ==> m2 == m
            &&& g.arg.from_file is Some && g.file is Some ==> m2.dom().contains(g.arg.name) && (
            g.file->0.text matches Ok(t) && json_facts(trim_by(t, is_space())) == Ok::<
                JsonView,
                Seq<char>,
            >(m2[g.arg.name]))
            &&& !(g.arg.from_file is Some && g.file is Some) && g.values.len() > 0
                ==> m2.dom().contains(g.arg.name) && value_in_texts(g.arg, g.values) == Ok::<
                Option<JsonView>,
                Seq<char>,
            >(Some(m2[g.arg.name]))
        },
{
    law_given_values_are_submitted(g.arg, g.values);
}

/// Whatever stands before and behind it, an option that is given reaches the run:
/// its parameter has the value of the option.
pub proof fn law_every_option_reaches_the_run(
    m: Values,
    named: Seq<Seq<char>>,
    gs: Seq<GivenView>,
    i: int,
)
    requires
        0 <= i < gs.len(),
        gs[i].values.len() > 0,
        gs[i].file is None,
        forall|j: int| i < j < gs.len() ==> (#[trigger] gs[j]).arg.name != gs[i].arg.name,
    ensures
        with_all_given(m, named, gs) matches Ok(m2) ==> m2.dom().contains(gs[i].arg.name)
            && value_in_texts(gs[i].arg, gs[i].values) == Ok::<Option<JsonView>, Seq<char>>(
            Some(m2[gs[i].arg.name]),
        ),
    decreases gs.len(),
{
    let f = gs.drop_last();
    if with_all_given(m, named, gs) is Ok {
        let m1 = with_all_given(m, named, f)->Ok_0;
        law_an_option_sets_its_parameter(m1, named, gs.last());
        if i < f.len() {
            assert(f[i] == gs[i]);
            assert forall|j: int| i < j < f.len() implies (#[trigger] f[j]).arg.name
                != f[i].arg.name by {
                assert(f[j] == gs[j]);
            }
            law_every_option_reaches_the_run(m, named, f, i);
            assert(gs[gs.len() - 1].arg.name != gs[i].arg.name);
        }
    }
}

/// Options leave alone what they do not name.
pub proof fn law_options_keep_the_rest(
    m: Values,
    named: Seq<Seq<char>>,
    gs: Seq<GivenView>,
    k: Seq<char>,
)
    requires
        forall|j: int| 0 <= j < gs.len() ==> (#[trigger] gs[j]).arg.name != k || !is_typed(gs[j]),
    ensures
        with_all_given(m, named, gs) matches Ok(m2) ==> (m2.dom().contains(k) <==> m.dom().contains(
            k,
        )) && (m.dom().contains(k) ==> m2[k] == m[k]),
    decreases gs.len(),
{
    if gs.len() > 0 && with_all_given(m, named, gs) is Ok {
        let f = gs.drop_last();
        let m1 = with_all_given(m, named, f)->Ok_0;
        assert forall|j: int| 0 <= j < f.len() implies (#[trigger] f[j]).arg.name != k || !is_typed(
            f[j],
        ) by {
            assert(f[j] == gs[j]);
        }
        law_options_keep_the_rest(m, named, f, k);
        law_an_option_sets_its_parameter(m1, named, gs.last());
        assert(gs[gs.len() - 1].arg.name != k || !is_typed(gs[gs.len() - 1]));
    }
}

/// A `name=value` text splits at its first equals sign, which is in neither part.
pub proof fn law_pairs_split_at_the_first_sign(k: Seq<char>, v: Seq<char>)
    requires
        forall|i: int| 0 <= i < k.len() ==> #[trigger] k[i] != '=',
    ensures
        halves(k + seq!['='] + v, '=') == Some((k, v)),
{
    let s = k + seq!['='] + v;
    assert forall|i: int| 0 <= i < k.len() implies (not_char('='))(#[trigger] s[i]) by {
        assert(s[i] == k[i]);
    }
    assert(s[k.len() as int] == '=');
    lemma_lead(s, not_char('='), k.len() as int);
    assert(s.subrange(0, k.len() as int) =~= k);
    assert(s.subrange(k.len() as int + 1, s.len() as int) =~= v);
}

/// A `name=value` text sets its name to the value that it spells, JSON or else a
/// string, unless a text behind it sets the name again; the names that are set are
/// exactly those of the texts, and what no text names stays as it was.
pub proof fn law_pairs_set_their_names(
    m: Values,
    pairs: Seq<Seq<char>>,
    flag: Seq<char>,
    i: int,
    k: Seq<char>,
)
    ensures
        with_pairs_given(m, pairs, flag) matches Ok((m2, names)) ==> {
            &&& names.len() == pairs.len()
            &&& 0 <= i < pairs.len() ==> (halves(pairs[i], '=') matches Some((n, _)) && n == names[i])
            &&& 0 <= i < pairs.len() && (forall|j: int|
                i < j < pairs.len() ==> names[i] != #[trigger] names[j]) ==> m2.dom().contains(
                names[i],
            ) && (halves(pairs[i], '=') matches Some((_, v)) && m2[names[i]] == value_or_text(v))
            &&& !names.contains(k) ==> (m2.dom().contains(k) <==> m.dom().contains(k)) && (
            m.dom().contains(k) ==> m2[k] == m[k])
        },
    decreases pairs.len(),
{
    if pairs.len() > 0 && with_pairs_given(m, pairs, flag) is Ok {
        let f = pairs.drop_last();
        let (m1, n1) = with_pairs_given(m, f, flag)->Ok_0;
        let (m2, names) = with_pairs_given(m, pairs, flag)->Ok_0;
        law_pairs_set_their_names(m, f, flag, i, k);
        let l = halves(pairs.last(), '=')->0;
        assert(names == n1.push(l.0));
        if 0 <= i < f.len() {
            assert(f[i] == pairs[i]);
            assert(names[i] == n1[i]);
            if forall|j: int| i < j < pairs.len() ==> names[i] != #[trigger] names[j] {
                assert forall|j: int| i < j < f.len() implies n1[i] != #[trigger] n1[j] by {
                    assert(names[j] == n1[j]);
                }
                assert(names[pairs.len() - 1] == l.0);
            }
        }
        if !names.contains(k) {
            assert(!n1.contains(k)) by {
                if n1.contains(k) {
                    let x = choose|x: int| 0 <= x < n1.len() && n1[x] == k;
                    assert(names[x] == k);
                }
            }
            assert(names[names.len() - 1] == l.0);
        }
    }
}

/// What an input file says of a name is what its last entry of that name says.
pub proof fn law_entries_set_their_names(
    m: Values,
    entries: Seq<(Seq<char>, Seq<char>)>,
    i: int,
)
    requires
        0 <= i < entries.len(),
        forall|j: int| i < j < entries.len() ==> (#[trigger] entries[j]).0 != entries[i].0,
    ensures
        with_entries(m, entries).dom().contains(entries[i].0),
        with_entries(m, entries)[entries[i].0].text == entries[i].1,
    decreases entries.len(),
{
    let f = entries.drop_last();
    if i < f.len() {
        assert(f[i] == entries[i]);
        assert forall|j: int| i < j < f.len() implies (#[trigger] f[j]).0 != f[i].0 by {
            assert(f[j] == entries[j]);
        }
        law_entries_set_their_names(m, f, i);
        assert(entries[entries.len() - 1].0 != entries[i].0);
    }
}

/// Of three ways to set a parameter, the option wins over the file, and `-a` over
/// the file: what a file says of a name holds only where nothing else names it.
pub proof fn law_what_is_nearest_wins(
    f: Option<FileTextView>,
    pairs: Seq<Seq<char>>,
    gs: Seq<GivenView>,
    k: Seq<char>,
)
    ensures
        extracted(f, pairs, gs) matches Ok(m) ==> {
            &&& file_values(f) is Ok
            &&& with_pairs_given(file_values(f)->Ok_0, pairs, "-a"@) matches Ok((m2, names)) && {
                &&& (forall|j: int|
                    0 <= j < gs.len() ==> (#[trigger] gs[j]).arg.name != k || !is_typed(gs[j]))
                    ==> (m.dom().contains(k) <==> m2.dom().contains(k)) && (m2.dom().contains(k)
                    ==> m[k] == m2[k])
                &&& !names.contains(k) && (forall|j: int|
                    0 <= j < gs.len() ==> (#[trigger] gs[j]).arg.name != k || !is_typed(gs[j]))
                    ==> (m.dom().contains(k) <==> file_values(f)->Ok_0.dom().contains(k)) && (
                file_values(f)->Ok_0.dom().contains(k) ==> m[k] == file_values(f)->Ok_0[k])
            }
        },
{
    if extracted(f, pairs, gs) is Ok {
        let m0 = file_values(f)->Ok_0;
        let (m2, names) = with_pairs_given(m0, pairs, "-a"@)->Ok_0;
        law_pairs_set_their_names(m0, pairs, "-a"@, 0, k);
        if forall|j: int|
            0 <= j < gs.len() ==> (#[trigger] gs[j]).arg.name != k || !is_typed(gs[j]) {
            law_options_keep_the_rest(m2, names, gs, k);
        }
    }
}

// ---- options -----------------------------------------------------------------------
proof fn lemma_flag(s: Seq<char>, n: int)
    requires
        0 <= n <= s.len(),
        forall|i: int| 0 <= i < s.len() ==> !uppercase(#[trigger] s[i]),
    ensures
        flag_pieces(s, n).len() == n,
        forall|i: int|
            0 <= i < n ==> #[trigger] flag_pieces(s, n)[i] == if s[i] == '_' {
                '-'
            } else {
                s[i]
            },
    decreases n,
{
    if n > 0 {
        lemma_flag(s, n - 1);
        let f = flag_pieces(s, n - 1);
        let g = flag_pieces(s, n);
        assert(!uppercase(s[n - 1]));
        assert(crate::dyn_args::flag_piece(s, n - 1) =~= seq![
            if s[n - 1] == '_' {
                '-'
            } else {
                s[n - 1]
            },
        ]);
        assert forall|i: int| 0 <= i < n implies #[trigger] g[i] == if s[i] == '_' {
            '-'
        } else {
            s[i]
        } by {
            if i < n - 1 {
                assert(g[i] == f[i]);
            }
        }
    }
}

/// The option of a parameter without capital letters is its name with a dash for
/// each underscore.
pub proof fn law_options_are_named_after_parameters(s: Seq<char>)
    requires
        forall|i: int| 0 <= i < s.len() ==> !uppercase(#[trigger] s[i]),
    ensures
        flag_of(s).len() == s.len(),
        forall|i: int|
            0 <= i < s.len() ==> #[trigger] flag_of(s)[i] == if s[i] == '_' {
                '-'
            } else {
                s[i]
            },
{
    lemma_flag(s, s.len() as int);
}

/// The option of a parameter: it is looked up by the parameter's name, may be
/// repeated exactly where it takes a list, and conflicts with the one that names a
/// file.
pub proof fn law_options_stand_for_their_parameters(p: (Seq<char>, Seq<char>))
    ensures
        option_plan(p).id == p.0,
        option_plan(p).long == flag_of(p.0),
        option_plan(p).mode == Mode::Many <==> kind_of(p.1) is VecOf,
        option_plan(p).mode == Mode::One <==> !(kind_of(p.1) is VecOf),
        option_plan(p).conflicts is None,
        file_plan(p).conflicts == Some(option_plan(p).id),
        file_plan(p).mode == Mode::One,
        file_plan(p).id != p.0,
        dyn_arg_of(p).name == p.0,
        dyn_arg_of(p).flag == option_plan(p).long,
        dyn_arg_of(p).kind == kind_of(p.1),
        dyn_arg_of(p).rust_type == p.1,
        dyn_arg_of(p).from_file is Some ==> dyn_arg_of(p).from_file == Some(file_plan(p).id),
{
    reveal_strlit("__");
    reveal_strlit("_from_file");
    assert(file_plan(p).id.len() > p.0.len());
}

/// The package and the binary are found among the texts behind `submit`: after
/// their options, or behind an equals sign; the last one given counts.
pub proof fn law_package_is_found(rest: Seq<Seq<char>>, x: Seq<char>)
    requires
        scan_args(rest).next is None,
    ensures
        scan_args(rest.push("-p"@).push(x)).package == Some(x),
        scan_args(rest.push("--package"@).push(x)).package == Some(x),
        scan_args(rest.push("--bin"@).push(x)).bin == Some(x),
        scan_args(rest.push("-p"@).push(x)).bin == scan_args(rest).bin,
        scan_args(rest.push("--bin"@).push(x)).package == scan_args(rest).package,
        scan_args(rest.push("--package="@ + x)).package == Some(x),
        scan_args(rest.push("--bin="@ + x)).bin == Some(x),
{
    reveal_strlit("-p");
    reveal_strlit("--package");
    reveal_strlit("--bin");
    reveal_strlit("--package=");
    reveal_strlit("--bin=");
    assert("--bin"@[2] == 'b' && "--package"@[2] == 'p');
    let a = rest.push("-p"@);
    let b = rest.push("--package"@);
    let c = rest.push("--bin"@);
    assert(a.drop_last() =~= rest && b.drop_last() =~= rest && c.drop_last() =~= rest);
    assert(a.push(x).drop_last() =~= a);
    assert(b.push(x).drop_last() =~= b);
    assert(c.push(x).drop_last() =~= c);
    assert(scan_args(a).next == Some(true));
    assert(scan_args(b).next == Some(true));
    assert(scan_args(c).next == Some(false));
    let d = "--package="@ + x;
    let e = "--bin="@ + x;
    assert(d[9] == '=' && d[2] == 'p' && e[5] == '=' && e[2] == 'b');
    assert(rest.push(d).drop_last() =~= rest && rest.push(e).drop_last() =~= rest);
    assert(d.subrange(0, 10) =~= "--package="@);
    assert(e.subrange(0, 6) =~= "--bin="@);
    assert(d.subrange(10, d.len() as int) =~= x);
    assert(e.subrange(6, e.len() as int) =~= x);
    assert(d.skip(10) =~= x);
    assert(e.skip(6) =~= x);
    assert(has_prefix(d, "--package="@));
    assert(!has_prefix(e, "--package="@)) by {
        if has_prefix(e, "--package="@) {
            assert(e.subrange(0, 10)[2] == 'p');
        }
    }
    assert(has_prefix(e, "--bin="@));
    assert(d.len() >= 10 && e.len() >= 6);
}

} // verus!
