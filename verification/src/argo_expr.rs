//! What Argo makes of the text that this library writes: how the text of a
//! scalar is read, and when the text of a condition holds. All of it goes by the
//! characters alone.

use crate::analyze::{arg_of, Scope};
use crate::ast::{call_of, call_text, chain_of, core_of, lemma_core, BinOp, Chain, Expr, Lit};
use crate::conditional::{
    accessors, cond_name, escaped, hoisted, hoisted_operand, op_text, operand_of, rel_of, rel_text,
    seen_at, when_of, when_text, Hoist, OperandView, RelOp, WhenExprView, WhenOpView,
};
use crate::node::{ArgView, JsonSrcView};
use crate::outside::{json_char, json_chars, json_text};
use crate::text::{is_digit, lead, lemma_lead};
use vstd::prelude::*;

verus! {

/// A scalar: a number by its text, a truth value, or a string.
#[verifier::ext_equal]
pub enum Atom {
    Number(Seq<char>),
    Truth(bool),
    Text(Seq<char>),
}

// ---- strings -----------------------------------------------------------------
pub open spec fn hex_value(c: char) -> int {
    if is_digit(c) {
        c as int - '0' as int
    } else {
        c as int - 'a' as int + 10
    }
}

/// The character that an escape of one letter stands for.
pub open spec fn escape_value(c: char) -> char {
    if c == 'n' {
        '\n'
    } else if c == 't' {
        '\t'
    } else if c == 'r' {
        '\r'
    } else if c == 'b' {
        8u8 as char
    } else if c == 'f' {
        12u8 as char
    } else {
        c
    }
}

/// A character in front of a string.
pub open spec fn before(c: char, r: Option<(Seq<char>, Seq<char>)>) -> Option<
    (Seq<char>, Seq<char>),
> {
    match r {
        Some((s, rest)) => Some((seq![c] + s, rest)),
        None => None,
    }
}

/// The string whose characters start `t`, up to its closing quotation mark, and
/// what follows that.
pub open spec fn string_from(t: Seq<char>) -> Option<(Seq<char>, Seq<char>)>
    decreases t.len(),
{
    if t.len() == 0 {
        None
    } else if t[0] == '"' {
        Some((Seq::empty(), t.skip(1)))
    } else if t[0] != '\\' {
        before(t[0], string_from(t.skip(1)))
    } else if t.len() < 2 {
        None
    } else if t[1] != 'u' {
        before(escape_value(t[1]), string_from(t.skip(2)))
    } else if t.len() < 6 {
        None
    } else {
        before(
            (hex_value(t[2]) * 4096 + hex_value(t[3]) * 256 + hex_value(t[4]) * 16 + hex_value(
                t[5],
            )) as char,
            string_from(t.skip(6)),
        )
    }
}

proof fn lemma_string_char(c: char, rest: Seq<char>)
    ensures
        string_from(json_char(c) + rest) == before(c, string_from(rest)),
{
    let t = json_char(c) + rest;
    assert(t.skip(json_char(c).len() as int) =~= rest);
    if (c as u32) < 32 && c as u32 != 8 && c as u32 != 9 && c as u32 != 10 && c as u32 != 12
        && c as u32 != 13 {
        assert(hex_value(t[2]) == 0 && hex_value(t[3]) == 0);
        assert(hex_value(t[4]) == c as int / 16);
        assert(hex_value(t[5]) == c as int % 16);
    }
}

proof fn lemma_json_chars(s: Seq<char>)
    requires
        s.len() > 0,
    ensures
        json_chars(s) == json_char(s[0]) + json_chars(s.skip(1)),
    decreases s.len(),
{
    if s.len() > 1 {
        lemma_json_chars(s.drop_last());
        assert(s.drop_last().skip(1) =~= s.skip(1).drop_last());
        assert(json_chars(s) =~= json_char(s[0]) + json_chars(s.skip(1)));
    } else {
        assert(s.drop_last() =~= Seq::<char>::empty());
        assert(s.skip(1) =~= Seq::<char>::empty());
        assert(json_chars(s) =~= json_char(s[0]) + json_chars(s.skip(1)));
    }
}

proof fn lemma_string(s: Seq<char>, rest: Seq<char>)
    ensures
        string_from(json_chars(s) + seq!['"'] + rest) == Some((s, rest)),
    decreases s.len(),
{
    let t = json_chars(s) + seq!['"'] + rest;
    if s.len() == 0 {
        assert(t.skip(1) =~= rest);
        assert(s =~= Seq::<char>::empty());
    } else {
        lemma_json_chars(s);
        lemma_string(s.skip(1), rest);
        let u = json_chars(s.skip(1)) + seq!['"'] + rest;
        assert(t =~= json_char(s[0]) + u);
        lemma_string_char(s[0], u);
        assert(seq![s[0]] + s.skip(1) =~= s);
    }
}

proof fn lemma_escaped(s: Seq<char>)
    requires
        s.len() > 0,
    ensures
        escaped(s) == (if s[0] == '\\' || s[0] == '"' {
            seq!['\\', s[0]]
        } else {
            seq![s[0]]
        }) + escaped(s.skip(1)),
    decreases s.len(),
{
    let head = if s[0] == '\\' || s[0] == '"' {
        seq!['\\', s[0]]
    } else {
        seq![s[0]]
    };
    if s.len() > 1 {
        lemma_escaped(s.drop_last());
        assert(s.drop_last().skip(1) =~= s.skip(1).drop_last());
        assert(escaped(s) =~= head + escaped(s.skip(1)));
    } else {
        assert(s.drop_last() =~= Seq::<char>::empty());
        assert(s.skip(1) =~= Seq::<char>::empty());
        assert(escaped(s) =~= head + escaped(s.skip(1)));
    }
}

proof fn lemma_escaped_string(s: Seq<char>, rest: Seq<char>)
    ensures
        string_from(escaped(s) + seq!['"'] + rest) == Some((s, rest)),
    decreases s.len(),
{
    let t = escaped(s) + seq!['"'] + rest;
    if s.len() == 0 {
        assert(t.skip(1) =~= rest);
        assert(s =~= Seq::<char>::empty());
    } else {
        lemma_escaped(s);
        lemma_escaped_string(s.skip(1), rest);
        let u = escaped(s.skip(1)) + seq!['"'] + rest;
        if s[0] == '\\' || s[0] == '"' {
            assert(t =~= seq!['\\', s[0]] + u);
            assert(t.skip(2) =~= u);
        } else {
            assert(t =~= seq![s[0]] + u);
            assert(t.skip(1) =~= u);
        }
        assert(seq![s[0]] + s.skip(1) =~= s);
    }
}

/// The scalar that a JSON text is.
pub open spec fn scalar_of(t: Seq<char>) -> Option<Atom> {
    if t == "true"@ {
        Some(Atom::Truth(true))
    } else if t == "false"@ {
        Some(Atom::Truth(false))
    } else if t.len() > 0 && t[0] == '"' {
        match string_from(t.skip(1)) {
            Some((s, rest)) => if rest.len() == 0 {
                Some(Atom::Text(s))
            } else {
                None
            },
            None => None,
        }
    } else if t.len() > 0 && (is_digit(t[0]) || t[0] == '-') {
        Some(Atom::Number(t))
    } else {
        None
    }
}

/// A string that is written as JSON is read back as it was, and is no number and
/// no truth value.
pub proof fn law_json_strings_are_read_back(s: Seq<char>)
    ensures
        scalar_of(json_text(s)) == Some(Atom::Text(s)),
{
    reveal_strlit("true");
    reveal_strlit("false");
    let t = json_text(s);
    assert(t[0] == '"');
    lemma_string(s, Seq::empty());
    assert(t.skip(1) =~= json_chars(s) + seq!['"'] + Seq::<char>::empty());
}

/// What a literal of the source says; its digits are those of a number.
pub open spec fn written(l: Lit) -> Option<Atom> {
    match l {
        Lit::Str(s) => Some(Atom::Text(s@)),
        Lit::Char(c) => Some(Atom::Text(seq![c])),
        Lit::Int(d) => if d@.len() > 0 && is_digit(d@[0]) {
            Some(Atom::Number(d@))
        } else {
            None
        },
        Lit::Float(d) => if d@.len() > 0 && is_digit(d@[0]) {
            Some(Atom::Number(d@))
        } else {
            None
        },
        Lit::Bool(b) => Some(Atom::Truth(b)),
        Lit::Other => None,
    }
}

/// A literal is passed as JSON that says what the literal says: the digits of a
/// number as they are, a truth value as itself, a string or a character as a
/// string of the same characters.
pub proof fn law_literals_are_passed_as_written(l: Lit, b: Scope, ins: Seq<Seq<char>>)
    ensures
        arg_of(Expr::Lit(l), b, ins) is Err <==> l is Other,
        written(l) matches Some(a) ==> (arg_of(Expr::Lit(l), b, ins) matches Ok(ArgView::Lit(t))
            && scalar_of(t) == Some(a)),
{
    reveal_strlit("true");
    reveal_strlit("false");
    match l {
        Lit::Str(s) => {
            law_json_strings_are_read_back(s@);
        },
        Lit::Char(c) => {
            law_json_strings_are_read_back(seq![c]);
        },
        _ => {},
    }
}

/// Two literals that say different things are passed as different texts.
pub proof fn law_literals_are_told_apart(l: Lit, m: Lit, b: Scope, ins: Seq<Seq<char>>)
    requires
        written(l) is Some,
        written(m) is Some,
        written(l) != written(m),
    ensures
        arg_of(Expr::Lit(l), b, ins) != arg_of(Expr::Lit(m), b, ins),
{
    law_literals_are_passed_as_written(l, b, ins);
    law_literals_are_passed_as_written(m, b, ins);
}

// ---- conditions ----------------------------------------------------------------
/// What a condition is evaluated with: the value that stands for a tag, the order
/// and the equality of values, and which values hold by themselves.
pub struct Evaluation {
    pub tag: spec_fn(Seq<char>) -> Atom,
    pub less: spec_fn(Atom, Atom) -> bool,
    pub equal: spec_fn(Atom, Atom) -> bool,
    pub truth: spec_fn(Atom) -> bool,
}

pub open spec fn in_word() -> spec_fn(char) -> bool {
    |c: char| c != ' ' && c != ')'
}

pub open spec fn in_tag() -> spec_fn(char) -> bool {
    |c: char| c != '}'
}

/// The operand at the front of `t`, and what follows it: a tag between double
/// braces, a string between quotation marks, or a word up to a blank or a closing
/// parenthesis.
pub open spec fn operand_at(t: Seq<char>, ev: Evaluation) -> Option<(Atom, Seq<char>)> {
    if t.len() > 2 && t[0] == '{' && t[1] == '{' {
        let u = t.skip(2);
        let n = lead(u, in_tag()) as int;
        if n + 1 < u.len() && u[n] == '}' && u[n + 1] == '}' {
            Some(((ev.tag)(u.take(n)), u.skip(n + 2)))
        } else {
            None
        }
    } else if t.len() > 0 && t[0] == '"' {
        match string_from(t.skip(1)) {
            Some((s, rest)) => Some((Atom::Text(s), rest)),
            None => None,
        }
    } else {
        let n = lead(t, in_word()) as int;
        match scalar_of(t.take(n)) {
            Some(a) => Some((a, t.skip(n))),
            None => None,
        }
    }
}

/// What the comparison written as `t` says of two values.
pub open spec fn compares(t: Seq<char>, a: Atom, b: Atom, ev: Evaluation) -> Option<bool> {
    if t == seq!['=', '='] {
        Some((ev.equal)(a, b))
    } else if t == seq!['!', '='] {
        Some(!(ev.equal)(a, b))
    } else if t == seq!['<'] {
        Some((ev.less)(a, b))
    } else if t == seq!['<', '='] {
        Some((ev.less)(a, b) || (ev.equal)(a, b))
    } else if t == seq!['>'] {
        Some((ev.less)(b, a))
    } else if t == seq!['>', '='] {
        Some((ev.less)(b, a) || (ev.equal)(a, b))
    } else {
        None
    }
}

/// The closing parenthesis after a value.
pub open spec fn closed(v: bool, t: Seq<char>) -> Option<(bool, Seq<char>)> {
    if t.len() > 0 && t[0] == ')' {
        Some((v, t.skip(1)))
    } else {
        None
    }
}

/// A comparison, or an operand by itself, up to its closing parenthesis.
pub open spec fn leaf_at(t: Seq<char>, ev: Evaluation) -> Option<(bool, Seq<char>)> {
    match operand_at(t, ev) {
        None => None,
        Some((a, r)) => if r.len() > 0 && r[0] == ' ' {
            let u = r.skip(1);
            let n = lead(u, in_word()) as int;
            if n < u.len() && u[n] == ' ' {
                match operand_at(u.skip(n + 1), ev) {
                    None => None,
                    Some((b, rest)) => match compares(u.take(n), a, b, ev) {
                        Some(v) => closed(v, rest),
                        None => None,
                    },
                }
            } else {
                None
            }
        } else {
            closed((ev.truth)(a), r)
        },
    }
}

/// Whether the condition at the front of `t` holds, and what follows it.
pub open spec fn condition_at(t: Seq<char>, ev: Evaluation) -> Option<(bool, Seq<char>)>
    decreases t.len(),
{
    if t.len() > 2 && t[0] == '!' && t[1] == '(' {
        match condition_at(t.skip(2), ev) {
            Some((v, r)) => closed(!v, r),
            None => None,
        }
    } else if t.len() > 1 && t[0] == '(' && (t[1] == '(' || t[1] == '!') {
        match condition_at(t.skip(1), ev) {
            Some((v, r)) => if 4 < r.len() < t.len() && r[0] == ' ' && r[3] == ' ' {
                match condition_at(r.skip(4), ev) {
                    Some((w, rest)) => if r[1] == '&' && r[2] == '&' {
                        closed(v && w, rest)
                    } else if r[1] == '|' && r[2] == '|' {
                        closed(v || w, rest)
                    } else {
                        None
                    },
                    None => None,
                }
            } else {
                None
            },
            None => None,
        }
    } else if t.len() > 0 && t[0] == '(' {
        leaf_at(t.skip(1), ev)
    } else {
        None
    }
}

/// Whether the condition with the text `t` holds, where `t` is one.
pub open spec fn text_holds(t: Seq<char>, ev: Evaluation) -> Option<bool> {
    match condition_at(t, ev) {
        Some((v, rest)) => if rest.len() == 0 {
            Some(v)
        } else {
            None
        },
        None => None,
    }
}

/// The tag of an input.
pub open spec fn input_tag(n: Seq<char>) -> Seq<char> {
    "inputs.parameters."@ + n
}

/// The accessors of a field path, from its first name on.
pub open spec fn steps_into(path: Seq<Seq<char>>) -> Seq<char>
    decreases path.len(),
{
    if path.len() == 0 {
        Seq::empty()
    } else {
        "['"@ + path[0] + "']"@ + steps_into(path.skip(1))
    }
}

/// The tag of a field of an input.
pub open spec fn field_tag(n: Seq<char>, path: Seq<Seq<char>>) -> Seq<char> {
    "=toJSON(fromJSON(inputs.parameters['"@ + n + "'])"@ + steps_into(path) + ")"@
}

pub proof fn lemma_steps_into(path: Seq<Seq<char>>)
    ensures
        steps_into(path) == accessors(path),
    decreases path.len(),
{
    if path.len() > 0 {
        let l = path.drop_last();
        lemma_steps_into(l);
        lemma_steps_push(l, path.last());
        assert(l.push(path.last()) =~= path);
    }
}

proof fn lemma_steps_push(path: Seq<Seq<char>>, x: Seq<char>)
    ensures
        steps_into(path.push(x)) == steps_into(path) + ("['"@ + x + "']"@),
    decreases path.len(),
{
    let all = path.push(x);
    if path.len() == 0 {
        assert(all.skip(1) =~= Seq::<Seq<char>>::empty());
        assert(steps_into(all.skip(1)) =~= Seq::<char>::empty());
        assert(steps_into(path) =~= Seq::<char>::empty());
        assert(steps_into(all) =~= steps_into(path) + ("['"@ + x + "']"@));
    } else {
        assert(all.skip(1) =~= path.skip(1).push(x));
        lemma_steps_push(path.skip(1), x);
        assert(steps_into(all) =~= steps_into(path) + ("['"@ + x + "']"@));
    }
}

/// A name without a closing brace.
pub open spec fn no_brace(n: Seq<char>) -> bool {
    forall|i: int| 0 <= i < n.len() ==> #[trigger] n[i] != '}'
}

/// An operand whose names hold no closing brace, and whose digits are those of a
/// number.
pub open spec fn readable_operand(o: WhenOpView) -> bool {
    match o {
        WhenOpView::Input(n) => no_brace(n),
        WhenOpView::Json { input, path } => no_brace(input) && forall|i: int|
            0 <= i < path.len() ==> no_brace(#[trigger] path[i]),
        WhenOpView::Int(d) => d.len() > 0 && is_digit(d[0]) && forall|i: int|
            0 <= i < d.len() ==> #[trigger] d[i] != ' ' && d[i] != ')',
        _ => true,
    }
}

pub open spec fn readable(w: WhenExprView) -> bool
    decreases w,
{
    match w {
        WhenExprView::Rel { lhs, op: _, rhs } => readable_operand(lhs) && readable_operand(rhs),
        WhenExprView::And(a, b) => readable(*a) && readable(*b),
        WhenExprView::Or(a, b) => readable(*a) && readable(*b),
        WhenExprView::Not(a) => readable(*a),
        WhenExprView::Truthy(o) => readable_operand(o),
    }
}

/// The value that an operand stands for.
pub open spec fn operand_value(o: WhenOpView, ev: Evaluation) -> Atom {
    match o {
        WhenOpView::Input(n) => (ev.tag)(input_tag(n)),
        WhenOpView::Json { input, path } => (ev.tag)(field_tag(input, path)),
        WhenOpView::Str(s) => Atom::Text(s),
        WhenOpView::Int(d) => Atom::Number(d),
        WhenOpView::Bool(b) => Atom::Truth(b),
    }
}

/// What a comparison says of two values.
pub open spec fn related(op: BinOp, a: Atom, b: Atom, ev: Evaluation) -> bool {
    match op {
        BinOp::Eq => (ev.equal)(a, b),
        BinOp::Ne => !(ev.equal)(a, b),
        BinOp::Lt => (ev.less)(a, b),
        BinOp::Le => (ev.less)(a, b) || (ev.equal)(a, b),
        BinOp::Gt => (ev.less)(b, a),
        BinOp::Ge => (ev.less)(b, a) || (ev.equal)(a, b),
        _ => false,
    }
}

/// A comparison of the source and the text of its operator say the same of all
/// values; the six comparisons, and nothing else, have one.
pub proof fn law_comparisons_keep_their_meaning(op: BinOp, a: Atom, b: Atom, ev: Evaluation)
    ensures
        rel_of(op) is Some <==> (op is Eq || op is Ne || op is Lt || op is Le || op is Gt
            || op is Ge),
        rel_of(op) matches Some(r) ==> compares(rel_text(r), a, b, ev) == Some(
            related(op, a, b, ev),
        ),
{
    lemma_rel_texts();
    assert(seq!['=', '=']  != seq!['<'] && seq!['=', '='] != seq!['>']);
    assert(seq!['=', '='][0] == '=');
    assert(seq!['!', '='][0] == '!');
    assert(seq!['<', '='][0] == '<');
    assert(seq!['>', '='][0] == '>');
    assert(seq!['<'][0] == '<');
    assert(seq!['>'][0] == '>');
    assert(seq!['<'].len() == 1 && seq!['>'].len() == 1);
}

/// Of whole numbers, the text of an operator says what the comparison of the
/// source says: `<` is less, `<=` at most, and so on.
pub proof fn law_comparisons_of_numbers(op: BinOp, a: int, b: int)
    ensures
        rel_of(op) matches Some(r) ==> {
            let t = rel_text(r);
            &&& t == seq!['<'] <==> op == BinOp::Lt
            &&& t == seq!['<', '='] <==> op == BinOp::Le
            &&& t == seq!['>'] <==> op == BinOp::Gt
            &&& t == seq!['>', '='] <==> op == BinOp::Ge
            &&& t == seq!['=', '='] <==> op == BinOp::Eq
            &&& t == seq!['!', '='] <==> op == BinOp::Ne
            &&& number_text_holds(t, a, b) == (match op {
                BinOp::Eq => a == b,
                BinOp::Ne => a != b,
                BinOp::Lt => a < b,
                BinOp::Le => a <= b,
                BinOp::Gt => a > b,
                _ => a >= b,
            })
        },
{
    lemma_rel_texts();
    assert(seq!['=', '='][0] == '=');
    assert(seq!['!', '='][0] == '!');
    assert(seq!['<', '='][0] == '<');
    assert(seq!['>', '='][0] == '>');
    assert(seq!['<'][0] == '<');
    assert(seq!['>'][0] == '>');
    if let Some(r) = rel_of(op) {
        let t = rel_text(r);
        lemma_signs(t, '!');
        lemma_signs(t, '<');
        lemma_signs(t, '>');
        lemma_signs(t, '=');
    }
}

/// What an operator's text says of two whole numbers: each of its signs that
/// names an order allows that order, and an exclamation mark turns equality round.
pub open spec fn number_text_holds(t: Seq<char>, a: int, b: int) -> bool {
    if t.contains('!') {
        a != b
    } else {
        ||| t.contains('<') && a < b
        ||| t.contains('>') && a > b
        ||| t.contains('=') && a == b
    }
}

proof fn lemma_rel_texts()
    ensures
        rel_text(RelOp::Eq) == seq!['=', '='],
        rel_text(RelOp::Ne) == seq!['!', '='],
        rel_text(RelOp::Lt) == seq!['<'],
        rel_text(RelOp::Le) == seq!['<', '='],
        rel_text(RelOp::Gt) == seq!['>'],
        rel_text(RelOp::Ge) == seq!['>', '='],
{
    reveal_strlit("==");
    reveal_strlit("!=");
    reveal_strlit("<");
    reveal_strlit("<=");
    reveal_strlit(">");
    reveal_strlit(">=");
    assert(rel_text(RelOp::Eq) =~= seq!['=', '=']);
    assert(rel_text(RelOp::Ne) =~= seq!['!', '=']);
    assert(rel_text(RelOp::Lt) =~= seq!['<']);
    assert(rel_text(RelOp::Le) =~= seq!['<', '=']);
    assert(rel_text(RelOp::Gt) =~= seq!['>']);
    assert(rel_text(RelOp::Ge) =~= seq!['>', '=']);
}

proof fn lemma_signs(t: Seq<char>, c: char)
    ensures
        t.len() == 1 ==> (t.contains(c) <==> c == t[0]),
        t.len() == 2 ==> (t.contains(c) <==> c == t[0] || c == t[1]),
{
    if t.len() == 1 || t.len() == 2 {
        assert(t.contains(t[0]));
        assert(t.len() == 2 ==> t.contains(t[1]));
    }
}

/// What the relation says of two values.
pub open spec fn rel_holds(op: RelOp, a: Atom, b: Atom, ev: Evaluation) -> bool {
    match op {
        RelOp::Eq => (ev.equal)(a, b),
        RelOp::Ne => !(ev.equal)(a, b),
        RelOp::Lt => (ev.less)(a, b),
        RelOp::Le => (ev.less)(a, b) || (ev.equal)(a, b),
        RelOp::Gt => (ev.less)(b, a),
        RelOp::Ge => (ev.less)(b, a) || (ev.equal)(a, b),
    }
}

/// Whether a lowered condition holds.
pub open spec fn when_holds(w: WhenExprView, ev: Evaluation) -> bool
    decreases w,
{
    match w {
        WhenExprView::Rel { lhs, op, rhs } => rel_holds(
            op,
            operand_value(lhs, ev),
            operand_value(rhs, ev),
            ev,
        ),
        WhenExprView::And(a, b) => when_holds(*a, ev) && when_holds(*b, ev),
        WhenExprView::Or(a, b) => when_holds(*a, ev) || when_holds(*b, ev),
        WhenExprView::Not(a) => !when_holds(*a, ev),
        WhenExprView::Truthy(o) => (ev.truth)(operand_value(o, ev)),
    }
}

proof fn lemma_no_brace_cat(a: Seq<char>, b: Seq<char>)
    requires
        no_brace(a),
        no_brace(b),
    ensures
        no_brace(a + b),
{
    assert forall|i: int| 0 <= i < (a + b).len() implies #[trigger] (a + b)[i] != '}' by {
        if i < a.len() {
            assert((a + b)[i] == a[i]);
        } else {
            assert((a + b)[i] == b[i - a.len()]);
        }
    }
}

proof fn lemma_no_brace_steps(path: Seq<Seq<char>>)
    requires
        forall|i: int| 0 <= i < path.len() ==> no_brace(#[trigger] path[i]),
    ensures
        no_brace(steps_into(path)),
    decreases path.len(),
{
    reveal_strlit("['");
    reveal_strlit("']");
    if path.len() > 0 {
        let r = path.skip(1);
        assert(forall|i: int| 0 <= i < r.len() ==> #[trigger] r[i] == path[i + 1]);
        lemma_no_brace_steps(r);
        lemma_no_brace_cat("['"@, path[0]);
        lemma_no_brace_cat("['"@ + path[0], "']"@);
        lemma_no_brace_cat("['"@ + path[0] + "']"@, steps_into(r));
    }
}

/// A tag between double braces is the operand that it names.
proof fn lemma_tag(tag: Seq<char>, rest: Seq<char>, ev: Evaluation)
    requires
        no_brace(tag),
    ensures
        operand_at(seq!['{', '{'] + tag + seq!['}', '}'] + rest, ev) == Some(((ev.tag)(tag), rest)),
{
    let t = seq!['{', '{'] + tag + seq!['}', '}'] + rest;
    let u = t.skip(2);
    assert(u =~= tag + seq!['}', '}'] + rest);
    assert forall|i: int| 0 <= i < tag.len() implies (in_tag())(#[trigger] u[i]) by {
        assert(u[i] == tag[i]);
    }
    lemma_lead(u, in_tag(), tag.len() as int);
    assert(u.take(tag.len() as int) =~= tag);
    assert(u.skip(tag.len() as int + 2) =~= rest);
}

proof fn lemma_word(w: Seq<char>, rest: Seq<char>)
    requires
        forall|i: int| 0 <= i < w.len() ==> #[trigger] w[i] != ' ' && w[i] != ')',
        rest.len() > 0,
        rest[0] == ' ' || rest[0] == ')',
    ensures
        lead(w + rest, in_word()) == w.len(),
        (w + rest).take(w.len() as int) == w,
        (w + rest).skip(w.len() as int) == rest,
{
    let t = w + rest;
    assert forall|i: int| 0 <= i < w.len() implies (in_word())(#[trigger] t[i]) by {
        assert(t[i] == w[i]);
    }
    assert(t[w.len() as int] == rest[0]);
    lemma_lead(t, in_word(), w.len() as int);
    assert(t.take(w.len() as int) =~= w);
    assert(t.skip(w.len() as int) =~= rest);
}

#[verifier::spinoff_prover]
#[verifier::rlimit(40)]
proof fn lemma_operand(o: WhenOpView, rest: Seq<char>, ev: Evaluation)
    requires
        readable_operand(o),
        rest.len() > 0,
        rest[0] == ' ' || rest[0] == ')',
    ensures
        operand_at(op_text(o) + rest, ev) == Some((operand_value(o, ev), rest)),
        op_text(o).len() > 0,
        op_text(o)[0] != '(',
        op_text(o)[0] != '!',
{
    let t = op_text(o) + rest;
    match o {
        WhenOpView::Input(n) => {
            reveal_strlit("{{inputs.parameters.");
            reveal_strlit("inputs.parameters.");
            reveal_strlit("}}");
            lemma_no_brace_cat("inputs.parameters."@, n);
            assert("{{inputs.parameters."@ =~= seq!['{', '{'] + "inputs.parameters."@);
            assert("}}"@ =~= seq!['}', '}']);
            assert(t =~= seq!['{', '{'] + input_tag(n) + seq!['}', '}'] + rest);
            lemma_tag(input_tag(n), rest, ev);
        },
        WhenOpView::Json { input, path } => {
            reveal_strlit("{{=toJSON(fromJSON(inputs.parameters['");
            reveal_strlit("=toJSON(fromJSON(inputs.parameters['");
            reveal_strlit("'])");
            reveal_strlit(")");
            reveal_strlit(")}}");
            lemma_steps_into(path);
            lemma_no_brace_steps(path);
            let a = "=toJSON(fromJSON(inputs.parameters['"@;
            lemma_no_brace_cat(a, input);
            lemma_no_brace_cat(a + input, "'])"@);
            lemma_no_brace_cat(a + input + "'])"@, steps_into(path));
            lemma_no_brace_cat(a + input + "'])"@ + steps_into(path), ")"@);
            assert("{{=toJSON(fromJSON(inputs.parameters['"@ =~= seq!['{', '{'] + a);
            assert(")}}"@ =~= ")"@ + seq!['}', '}']);
            assert(t =~= seq!['{', '{'] + field_tag(input, path) + seq!['}', '}'] + rest);
            lemma_tag(field_tag(input, path), rest, ev);
        },
        WhenOpView::Str(s) => {
            reveal_strlit("\"");
            lemma_escaped_string(s, rest);
            assert(t.skip(1) =~= escaped(s) + seq!['"'] + rest);
        },
        WhenOpView::Int(d) => {
            reveal_strlit("true");
            reveal_strlit("false");
            lemma_word(d, rest);
        },
        WhenOpView::Bool(b) => {
            reveal_strlit("true");
            reveal_strlit("false");
            lemma_word(op_text(o), rest);
        },
    }
}

proof fn lemma_not_at(x: Seq<char>, v: bool, rest: Seq<char>, ev: Evaluation)
    requires
        x.len() > 1,
        condition_at(x + (")"@ + rest), ev) == Some((v, ")"@ + rest)),
    ensures
        condition_at("!("@ + x + ")"@ + rest, ev) == Some((!v, rest)),
{
    reveal_strlit(")");
    reveal_strlit("!(");
    let t = "!("@ + x + ")"@ + rest;
    assert(t.skip(2) =~= x + (")"@ + rest));
    assert((")"@ + rest).skip(1) =~= rest);
}

proof fn lemma_both_step(
    t: Seq<char>,
    r: Seq<char>,
    u: Seq<char>,
    v: bool,
    w: bool,
    ev: Evaluation,
)
    requires
        t.len() > 1,
        t[0] == '(',
        t[1] == '(' || t[1] == '!',
        condition_at(t.skip(1), ev) == Some((v, r)),
        4 < r.len() < t.len(),
        r[0] == ' ',
        r[3] == ' ',
        r[1] == r[2],
        r[1] == '&' || r[1] == '|',
        condition_at(r.skip(4), ev) == Some((w, u)),
    ensures
        condition_at(t, ev) == closed(
            if r[1] == '&' {
                v && w
            } else {
                v || w
            },
            u,
        ),
{
}

#[verifier::spinoff_prover]
#[verifier::rlimit(40)]
proof fn lemma_both_at(
    x: Seq<char>,
    y: Seq<char>,
    sign: char,
    v: bool,
    w: bool,
    rest: Seq<char>,
    ev: Evaluation,
)
    requires
        x.len() > 1,
        x[0] == '(' || x[0] == '!',
        sign == '&' || sign == '|',
        condition_at(x + (seq![' ', sign, sign, ' '] + y + (")"@ + rest)), ev) == Some(
            (v, seq![' ', sign, sign, ' '] + y + (")"@ + rest)),
        ),
        condition_at(y + (")"@ + rest), ev) == Some((w, ")"@ + rest)),
    ensures
        condition_at("("@ + x + seq![' ', sign, sign, ' '] + y + ")"@ + rest, ev) == Some(
            (
                if sign == '&' {
                    v && w
                } else {
                    v || w
                },
                rest,
            ),
        ),
{
    reveal_strlit("(");
    reveal_strlit(")");
    let u = ")"@ + rest;
    let m = seq![' ', sign, sign, ' '] + y + u;
    let t = "("@ + x + seq![' ', sign, sign, ' '] + y + ")"@ + rest;
    assert(t.skip(1) =~= x + m);
    assert(t[0] == '(' && t[1] == x[0]);
    assert(m.skip(4) =~= y + u);
    assert(m[0] == ' ' && m[1] == sign && m[2] == sign && m[3] == ' ');
    assert(u[0] == ')');
    assert(u.skip(1) =~= rest);
    lemma_both_step(t, m, u, v, w, ev);
}

#[verifier::spinoff_prover]
#[verifier::rlimit(40)]
proof fn lemma_truthy_at(o: WhenOpView, rest: Seq<char>, ev: Evaluation)
    requires
        readable_operand(o),
    ensures
        condition_at("("@ + op_text(o) + ")"@ + rest, ev) == Some(
            ((ev.truth)(operand_value(o, ev)), rest),
        ),
{
    reveal_strlit("(");
    reveal_strlit(")");
    let u = ")"@ + rest;
    let t = "("@ + op_text(o) + ")"@ + rest;
    lemma_operand(o, u, ev);
    assert(t.skip(1) =~= op_text(o) + u);
    assert(t[0] == '(' && t[1] == op_text(o)[0]);
    assert(u.skip(1) =~= rest);
}

proof fn lemma_rel_sign(op: RelOp, a: Atom, b: Atom, ev: Evaluation)
    ensures
        compares(rel_text(op), a, b, ev) == Some(rel_holds(op, a, b, ev)),
        rel_text(op).len() > 0,
        forall|i: int|
            0 <= i < rel_text(op).len() ==> #[trigger] rel_text(op)[i] != ' ' && rel_text(op)[i]
                != ')',
{
    lemma_rel_texts();
    assert(seq!['=', '='][0] == '=');
    assert(seq!['!', '='][0] == '!');
    assert(seq!['<', '='][0] == '<');
    assert(seq!['>', '='][0] == '>');
    assert(seq!['<'].len() == 1 && seq!['>'].len() == 1);
    assert(seq!['<'][0] == '<');
    assert(seq!['>'][0] == '>');
}

proof fn lemma_leaf_step(
    t: Seq<char>,
    a: Atom,
    m: Seq<char>,
    n: int,
    b: Atom,
    u: Seq<char>,
    v: bool,
    ev: Evaluation,
)
    requires
        operand_at(t, ev) == Some((a, m)),
        m.len() > 0,
        m[0] == ' ',
        lead(m.skip(1), in_word()) == n,
        n < m.len() - 1,
        m[n + 1] == ' ',
        operand_at(m.skip(1).skip(n + 1), ev) == Some((b, u)),
        compares(m.skip(1).take(n), a, b, ev) == Some(v),
    ensures
        leaf_at(t, ev) == closed(v, u),
{
    assert(m.skip(1)[n] == ' ');
}

#[verifier::spinoff_prover]
#[verifier::rlimit(40)]
proof fn lemma_rel_at(lhs: WhenOpView, op: RelOp, rhs: WhenOpView, rest: Seq<char>, ev: Evaluation)
    requires
        readable_operand(lhs),
        readable_operand(rhs),
    ensures
        condition_at(
            "("@ + op_text(lhs) + " "@ + rel_text(op) + " "@ + op_text(rhs) + ")"@ + rest,
            ev,
        ) == Some(
            (rel_holds(op, operand_value(lhs, ev), operand_value(rhs, ev), ev), rest),
        ),
{
    reveal_strlit("(");
    reveal_strlit(")");
    reveal_strlit(" ");
    let t = "("@ + op_text(lhs) + " "@ + rel_text(op) + " "@ + op_text(rhs) + ")"@ + rest;
    let r = rel_text(op);
    let u = ")"@ + rest;
    let v = " "@ + op_text(rhs) + u;
    let m = " "@ + r + v;
    let a = operand_value(lhs, ev);
    let b = operand_value(rhs, ev);
    lemma_rel_sign(op, a, b, ev);
    lemma_operand(rhs, u, ev);
    lemma_operand(lhs, m, ev);
    assert(t.skip(1) =~= op_text(lhs) + m);
    assert(t[0] == '(' && t[1] == op_text(lhs)[0]);
    assert(m.skip(1) =~= r + v);
    lemma_word(r, v);
    assert((r + v).skip(r.len() as int + 1) =~= op_text(rhs) + u);
    assert((r + v)[r.len() as int] == ' ');
    assert(m[r.len() as int + 1] == ' ');
    assert(u.skip(1) =~= rest);
    lemma_leaf_step(t.skip(1), a, m, r.len() as int, b, u, rel_holds(op, a, b, ev), ev);
}

pub proof fn lemma_when_text(w: WhenExprView, rest: Seq<char>, ev: Evaluation)
    requires
        readable(w),
    ensures
        condition_at(when_text(w) + rest, ev) == Some((when_holds(w, ev), rest)),
        when_text(w).len() > 1,
        when_text(w)[0] == '(' || when_text(w)[0] == '!',
    decreases w,
{
    reveal_strlit("(");
    reveal_strlit(")");
    reveal_strlit("!(");
    let u = ")"@ + rest;
    match w {
        WhenExprView::Not(a) => {
            lemma_when_text(*a, u, ev);
            lemma_not_at(when_text(*a), when_holds(*a, ev), rest, ev);
        },
        WhenExprView::And(a, b) => {
            assert(" && "@ =~= seq![' ', '&', '&', ' ']) by {
                reveal_strlit(" && ");
            }
            lemma_when_text(*b, u, ev);
            lemma_when_text(*a, " && "@ + when_text(*b) + u, ev);
            lemma_both_at(
                when_text(*a),
                when_text(*b),
                '&',
                when_holds(*a, ev),
                when_holds(*b, ev),
                rest,
                ev,
            );
        },
        WhenExprView::Or(a, b) => {
            assert(" || "@ =~= seq![' ', '|', '|', ' ']) by {
                reveal_strlit(" || ");
            }
            lemma_when_text(*b, u, ev);
            lemma_when_text(*a, " || "@ + when_text(*b) + u, ev);
            lemma_both_at(
                when_text(*a),
                when_text(*b),
                '|',
                when_holds(*a, ev),
                when_holds(*b, ev),
                rest,
                ev,
            );
        },
        WhenExprView::Truthy(o) => {
            lemma_truthy_at(o, rest, ev);
            lemma_operand(o, u, ev);
        },
        WhenExprView::Rel { lhs, op, rhs } => {
            lemma_rel_at(lhs, op, rhs, rest, ev);
            lemma_operand(rhs, u, ev);
        },
    }
}

// ---- from the source to the text --------------------------------------------------
/// What an operand of the source stands for, where `call` says what a call of a
/// template gives.
pub open spec fn source_value(
    e: Expr,
    call: spec_fn(Seq<char>) -> Atom,
    ev: Evaluation,
) -> Atom
    decreases e,
{
    match e {
        Expr::Paren { expr } => source_value(*expr, call, ev),
        Expr::Group { expr } => source_value(*expr, call, ev),
        Expr::Reference { mutable: _, expr } => source_value(*expr, call, ev),
        Expr::MethodCall { receiver, method: _, args: _ } => source_value(*receiver, call, ev),
        Expr::Lit(Lit::Str(s)) => Atom::Text(s@),
        Expr::Lit(Lit::Int(d)) => Atom::Number(d@),
        Expr::Lit(Lit::Float(d)) => Atom::Number(d@),
        Expr::Lit(Lit::Bool(b)) => Atom::Truth(b),
        Expr::Path(p) => (ev.tag)(input_tag(p.segments@[0]@)),
        Expr::Field { base: _, member: _ } => match chain_of(e) {
            Chain::Root(Expr::Path(p), path) => (ev.tag)(field_tag(p.segments@[0]@, path)),
            _ => Atom::Truth(false),
        },
        _ => Atom::Truth(false),
    }
}

/// What an operand stands for: a call what `call` says of its text.
pub open spec fn given_value(
    e: Expr,
    call: spec_fn(Seq<char>) -> Atom,
    ev: Evaluation,
) -> Atom {
    if call_of(e) is Some {
        call(call_text(e))
    } else {
        source_value(e, call, ev)
    }
}

/// Whether a condition of the source holds, as the language has it.
pub open spec fn source_holds(
    e: Expr,
    call: spec_fn(Seq<char>) -> Atom,
    ev: Evaluation,
) -> bool
    decreases e,
{
    proof {
        lemma_core(e);
    }
    match core_of(e) {
        Expr::Binary { op, left, right } => match op {
            BinOp::And => source_holds(*left, call, ev) && source_holds(*right, call, ev),
            BinOp::Or => source_holds(*left, call, ev) || source_holds(*right, call, ev),
            _ => related(op, given_value(*left, call, ev), given_value(*right, call, ev), ev),
        },
        Expr::Not { expr } => !source_holds(*expr, call, ev),
        _ => (ev.truth)(given_value(e, call, ev)),
    }
}

proof fn lemma_source_core(e: Expr, call: spec_fn(Seq<char>) -> Atom, ev: Evaluation)
    ensures
        source_value(core_of(e), call, ev) == source_value(e, call, ev),
    decreases e,
{
    match e {
        Expr::Paren { expr } => lemma_source_core(*expr, call, ev),
        Expr::Group { expr } => lemma_source_core(*expr, call, ev),
        Expr::Reference { mutable: _, expr } => lemma_source_core(*expr, call, ev),
        _ => {},
    }
}

proof fn lemma_plain_arg(
    e: Expr,
    ins: Seq<Seq<char>>,
    call: spec_fn(Seq<char>) -> Atom,
    ev: Evaluation,
)
    ensures
        arg_of(e, Map::empty(), ins) matches Ok(ArgView::Input(n)) ==> source_value(e, call, ev)
            == (ev.tag)(input_tag(n)),
        arg_of(e, Map::empty(), ins) matches Ok(ArgView::Json { src: JsonSrcView::Input(n), path })
            ==> source_value(e, call, ev) == (ev.tag)(field_tag(n, path)),
    decreases e,
{
    match e {
        Expr::Paren { expr } => lemma_plain_arg(*expr, ins, call, ev),
        Expr::Group { expr } => lemma_plain_arg(*expr, ins, call, ev),
        Expr::Reference { mutable: _, expr } => lemma_plain_arg(*expr, ins, call, ev),
        Expr::MethodCall { receiver, method: _, args: _ } => lemma_plain_arg(
            *receiver,
            ins,
            call,
            ev,
        ),
        _ => {},
    }
}

proof fn lemma_plain_operand(
    o: OperandView,
    e: Expr,
    ins: Seq<Seq<char>>,
    call: spec_fn(Seq<char>) -> Atom,
    ev: Evaluation,
)
    requires
        operand_of(o, Map::empty(), ins) is Ok,
        match o {
            OperandView::Plain(x) => x == e && call_of(e) is None,
            OperandView::Hoisted(n) => call_of(e) is Some && call(call_text(e)) == (ev.tag)(
                input_tag(n),
            ),
        },
    ensures
        operand_value(operand_of(o, Map::empty(), ins)->Ok_0, ev) == given_value(e, call, ev),
{
    lemma_source_core(e, call, ev);
    lemma_plain_arg(e, ins, call, ev);
}

/// The tasks that stand for calls give what the calls give.
pub open spec fn calls_named(
    seen: Seq<(Seq<char>, Seq<char>)>,
    call: spec_fn(Seq<char>) -> Atom,
    ev: Evaluation,
) -> bool {
    forall|i: int|
        0 <= i < seen.len() ==> call((#[trigger] seen[i]).0) == (ev.tag)(
            input_tag(cond_name(i as nat)),
        )
}

pub open spec fn extends<A>(a: Seq<A>, b: Seq<A>) -> bool {
    a.len() <= b.len() && forall|i: int| 0 <= i < a.len() ==> #[trigger] b[i] == a[i]
}

pub proof fn lemma_seen_at(seen: Seq<(Seq<char>, Seq<char>)>, key: Seq<char>)
    ensures
        seen_at(seen, key) matches Some(i) ==> i < seen.len() && seen[i as int].0 == key,
    decreases seen.len(),
{
    if seen.len() > 0 {
        lemma_seen_at(seen.drop_last(), key);
    }
}

proof fn lemma_hoisted_operand(
    e: Expr,
    b: Scope,
    ins: Seq<Seq<char>>,
    st: Hoist,
    last: Seq<(Seq<char>, Seq<char>)>,
    call: spec_fn(Seq<char>) -> Atom,
    ev: Evaluation,
)
    requires
        hoisted_operand(e, b, ins, st) is Ok,
    ensures
        ({
            let (o, s) = hoisted_operand(e, b, ins, st)->Ok_0;
            &&& extends(st.seen, s.seen)
            &&& extends(s.seen, last) && calls_named(last, call, ev) ==> match o {
                OperandView::Plain(x) => x == e && call_of(e) is None,
                OperandView::Hoisted(n) => call_of(e) is Some && call(call_text(e)) == (ev.tag)(
                    input_tag(n),
                ),
            }
        }),
{
    let (o, s) = hoisted_operand(e, b, ins, st)->Ok_0;
    if call_of(e) is Some {
        let key = call_text(e);
        lemma_seen_at(st.seen, key);
        match seen_at(st.seen, key) {
            Some(i) => {
                if extends(s.seen, last) && calls_named(last, call, ev) {
                    assert(last[i as int] == s.seen[i as int]);
                }
            },
            None => {
                let n = st.seen.len() as int;
                assert(s.seen.len() == n + 1 && s.seen[n].0 == key);
                assert forall|i: int| 0 <= i < n implies #[trigger] s.seen[i] == st.seen[i] by {
                }
                if extends(s.seen, last) && calls_named(last, call, ev) {
                    assert(last[n] == s.seen[n]);
                }
            },
        }
    }
}

pub proof fn lemma_source(
    e: Expr,
    b: Scope,
    ins: Seq<Seq<char>>,
    st: Hoist,
    last: Seq<(Seq<char>, Seq<char>)>,
    caps: Seq<Seq<char>>,
    call: spec_fn(Seq<char>) -> Atom,
    ev: Evaluation,
)
    requires
        hoisted(e, b, ins, st) is Ok,
    ensures
        ({
            let (c, s) = hoisted(e, b, ins, st)->Ok_0;
            &&& extends(st.seen, s.seen)
            &&& extends(s.seen, last) && calls_named(last, call, ev) && when_of(
                c,
                Map::empty(),
                caps,
            ) is Ok ==> when_holds(when_of(c, Map::empty(), caps)->Ok_0, ev) == source_holds(
                e,
                call,
                ev,
            )
        }),
    decreases e,
{
    lemma_core(e);
    let (c, s) = hoisted(e, b, ins, st)->Ok_0;
    let good = extends(s.seen, last) && calls_named(last, call, ev) && when_of(
        c,
        Map::empty(),
        caps,
    ) is Ok;
    match core_of(e) {
        Expr::Binary { op, left, right } => match rel_of(op) {
            Some(rel) => {
                let (l, s1) = hoisted_operand(*left, b, ins, st)->Ok_0;
                let (r, s2) = hoisted_operand(*right, b, ins, s1)->Ok_0;
                lemma_hoisted_operand(*left, b, ins, st, last, call, ev);
                lemma_hoisted_operand(*right, b, ins, s1, last, call, ev);
                if good {
                    lemma_plain_operand(l, *left, caps, call, ev);
                    lemma_plain_operand(r, *right, caps, call, ev);
                }
            },
            None => if op == BinOp::And || op == BinOp::Or {
                let (l, s1) = hoisted(*left, b, ins, st)->Ok_0;
                lemma_source(*left, b, ins, st, last, caps, call, ev);
                lemma_source(*right, b, ins, s1, last, caps, call, ev);
            },
        },
        Expr::Not { expr } => lemma_source(*expr, b, ins, st, last, caps, call, ev),
        _ => {
            let (o, s1) = hoisted_operand(e, b, ins, st)->Ok_0;
            lemma_hoisted_operand(e, b, ins, st, last, call, ev);
            if good {
                lemma_plain_operand(o, e, caps, call, ev);
            }
        },
    }
}

/// The text of a condition holds exactly when the condition of the source does:
/// whatever the inputs are, however values are ordered, and whatever the calls
/// among the operands give, as long as the tasks made from them hand it on.
pub proof fn law_conditions_keep_their_meaning(
    e: Expr,
    b: Scope,
    ins: Seq<Seq<char>>,
    st: Hoist,
    last: Seq<(Seq<char>, Seq<char>)>,
    caps: Seq<Seq<char>>,
    call: spec_fn(Seq<char>) -> Atom,
    ev: Evaluation,
)
    requires
        hoisted(e, b, ins, st) is Ok,
        extends(hoisted(e, b, ins, st)->Ok_0.1.seen, last),
        calls_named(last, call, ev),
        when_of(hoisted(e, b, ins, st)->Ok_0.0, Map::empty(), caps) is Ok,
        readable(when_of(hoisted(e, b, ins, st)->Ok_0.0, Map::empty(), caps)->Ok_0),
    ensures
        text_holds(
            when_text(when_of(hoisted(e, b, ins, st)->Ok_0.0, Map::empty(), caps)->Ok_0),
            ev,
        ) == Some(source_holds(e, call, ev)),
{
    let w = when_of(hoisted(e, b, ins, st)->Ok_0.0, Map::empty(), caps)->Ok_0;
    lemma_source(e, b, ins, st, last, caps, call, ev);
    lemma_when_text(w, Seq::empty(), ev);
    assert(when_text(w) + Seq::<char>::empty() =~= when_text(w));
}

} // verus!
