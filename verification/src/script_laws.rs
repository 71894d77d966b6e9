//! The script that a container starts with, in full: which binary it picks, where
//! the result goes, and what it hands on.

use crate::delivery::{arms_for, output_path, script_for, BOOTSTRAP_TEMPLATE};
use crate::lower::IoKind;
use crate::text::{has_prefix, replaced};
use vstd::prelude::*;

verus! {

/// A text without the sign that marks what is filled in.
pub open spec fn unmarked(s: Seq<char>) -> bool {
    forall|i: int| 0 <= i < s.len() ==> #[trigger] s[i] != '@'
}

proof fn lemma_step(s: Seq<char>, p: Seq<char>, w: Seq<char>)
    requires
        s.len() > 0,
        p.len() > 0,
        !has_prefix(s, p),
    ensures
        replaced(s, p, w) == seq![s[0]] + replaced(s.drop_first(), p, w),
{
    if s.len() < p.len() {
        assert(s =~= seq![s[0]] + s.drop_first());
    }
}

proof fn lemma_kept(x: Seq<char>, rest: Seq<char>, p: Seq<char>, w: Seq<char>)
    requires
        p.len() > 0,
        p[0] == '@',
        unmarked(x),
    ensures
        replaced(x + rest, p, w) == x + replaced(rest, p, w),
    decreases x.len(),
{
    let s = x + rest;
    if x.len() == 0 {
        assert(s =~= rest);
        assert(x + replaced(rest, p, w) =~= replaced(rest, p, w));
    } else {
        assert(!has_prefix(s, p)) by {
            if has_prefix(s, p) {
                assert(s.subrange(0, p.len() as int)[0] == p[0]);
                assert(s[0] == x[0]);
            }
        }
        lemma_step(s, p, w);
        let y = x.drop_first();
        assert(forall|i: int| 0 <= i < y.len() ==> #[trigger] y[i] == x[i + 1]);
        lemma_kept(y, rest, p, w);
        assert(s.drop_first() =~= y + rest);
        assert(seq![x[0]] + (y + replaced(rest, p, w)) =~= x + replaced(rest, p, w));
    }
}

proof fn lemma_one_sign(rest: Seq<char>, p: Seq<char>, w: Seq<char>)
    requires
        p.len() > 1,
        p[1] == '@',
        rest.len() > 0,
        rest[0] != '@',
    ensures
        replaced(seq!['@'] + rest, p, w) == seq!['@'] + replaced(rest, p, w),
{
    let s = seq!['@'] + rest;
    assert(!has_prefix(s, p)) by {
        if has_prefix(s, p) {
            assert(s.subrange(0, p.len() as int)[1] == p[1]);
        }
    }
    lemma_step(s, p, w);
    assert(s.drop_first() =~= rest);
}

proof fn lemma_two_signs(rest: Seq<char>, p: Seq<char>, w: Seq<char>)
    requires
        p.len() > 2,
        p[1] == '@',
        rest.len() > 0,
        rest[0] != '@',
        rest[0] != p[2],
    ensures
        replaced(seq!['@', '@'] + rest, p, w) == seq!['@', '@'] + replaced(rest, p, w),
{
    let s = seq!['@', '@'] + rest;
    assert(!has_prefix(s, p)) by {
        if has_prefix(s, p) {
            assert(s.subrange(0, p.len() as int)[2] == p[2]);
        }
    }
    lemma_step(s, p, w);
    assert(s.drop_first() =~= seq!['@'] + rest);
    lemma_one_sign(rest, p, w);
    assert(seq!['@'] + (seq!['@'] + replaced(rest, p, w)) =~= seq!['@', '@'] + replaced(
        rest,
        p,
        w,
    ));
}

/// A mark: a word between pairs of signs.
pub open spec fn mark(word: Seq<char>) -> Seq<char> {
    seq!['@', '@'] + word + seq!['@', '@']
}

proof fn lemma_other_mark(word: Seq<char>, rest: Seq<char>, p: Seq<char>, w: Seq<char>)
    requires
        p.len() > 2,
        p[0] == '@',
        p[1] == '@',
        p[2] != '@',
        word.len() > 0,
        unmarked(word),
        word[0] != p[2],
        rest.len() > 0,
        rest[0] != '@',
        rest[0] != p[2],
    ensures
        replaced(mark(word) + rest, p, w) == mark(word) + replaced(rest, p, w),
{
    let at = seq!['@', '@'];
    lemma_two_signs(rest, p, w);
    lemma_kept(word, at + rest, p, w);
    let tail = word + (at + rest);
    lemma_two_signs(tail, p, w);
    assert(mark(word) + rest =~= at + tail);
    assert(at + (word + (at + replaced(rest, p, w))) =~= mark(word) + replaced(rest, p, w));
}

proof fn lemma_own_mark(rest: Seq<char>, p: Seq<char>, w: Seq<char>)
    requires
        p.len() > 0,
    ensures
        replaced(p + rest, p, w) == w + replaced(rest, p, w),
{
    let s = p + rest;
    assert(s.subrange(0, p.len() as int) =~= p);
    assert(s.skip(p.len() as int) =~= rest);
}

proof fn lemma_end(p: Seq<char>, w: Seq<char>)
    requires
        p.len() > 2,
        p[0] == '@',
        p[1] == '@',
    ensures
        replaced("/app-$__t\" \"$@\"\n"@, p, w) == "/app-$__t\" \"$@\"\n"@,
{
    reveal_strlit("/app-$__t\" \"$@\"\n");
    reveal_strlit("/app-$__t\" \"$");
    reveal_strlit("\"\n");
    let a = "/app-$__t\" \"$"@;
    let b = "\"\n"@;
    assert("/app-$__t\" \"$@\"\n"@ =~= a + (seq!['@'] + b));
    assert(unmarked(a));
    assert(unmarked(b));
    lemma_kept(a, seq!['@'] + b, p, w);
    lemma_one_sign(b, p, w);
    assert(b + Seq::<char>::empty() =~= b);
    lemma_kept(b, Seq::empty(), p, w);
    assert(b + replaced(Seq::<char>::empty(), p, w) =~= b);
}

/// The parts of the script between what is filled in.
pub open spec fn opening() -> Seq<char> {
    "set -eu\ncase \"$(uname -m)\" in\n"@
}

pub open spec fn otherwise() -> Seq<char> {
    "  *) echo \"athena: no binary for $(uname -m)\" >&2; exit 1 ;;\nesac\nchmod +x \""@
}

pub open spec fn exporting() -> Seq<char> {
    "/app-$__t\"\nexport CARGO_ATHENA_OUTPUT=\""@
}

pub open spec fn starting() -> Seq<char> {
    "\"\nexec \""@
}

pub open spec fn handing_on() -> Seq<char> {
    "/app-$__t\" \"$@\"\n"@
}

proof fn lemma_parts()
    ensures
        unmarked(opening()),
        unmarked(otherwise()),
        unmarked(exporting()),
        unmarked(starting()),
        opening().len() > 0 && opening()[0] == 's',
        otherwise().len() > 0 && otherwise()[0] == ' ',
        exporting().len() > 0 && exporting()[0] == '/',
        starting().len() > 0 && starting()[0] == '"',
        handing_on().len() > 0 && handing_on()[0] == '/',
        "@@ARMS@@"@ == mark("ARMS"@),
        "@@BIN_DIR@@"@ == mark("BIN_DIR"@),
        "@@OUTPUT_PATH@@"@ == mark("OUTPUT_PATH"@),
        "ARMS"@.len() > 0 && "ARMS"@[0] == 'A' && unmarked("ARMS"@),
        "BIN_DIR"@.len() > 0 && "BIN_DIR"@[0] == 'B' && unmarked("BIN_DIR"@),
        "OUTPUT_PATH"@.len() > 0 && "OUTPUT_PATH"@[0] == 'O' && unmarked("OUTPUT_PATH"@),
{
    reveal_strlit("set -eu\ncase \"$(uname -m)\" in\n");
    reveal_strlit("  *) echo \"athena: no binary for $(uname -m)\" >&2; exit 1 ;;\nesac\nchmod +x \"");
    reveal_strlit("/app-$__t\"\nexport CARGO_ATHENA_OUTPUT=\"");
    reveal_strlit("\"\nexec \"");
    reveal_strlit("/app-$__t\" \"$@\"\n");
    reveal_strlit("@@ARMS@@");
    reveal_strlit("@@BIN_DIR@@");
    reveal_strlit("@@OUTPUT_PATH@@");
    reveal_strlit("ARMS");
    reveal_strlit("BIN_DIR");
    reveal_strlit("OUTPUT_PATH");
    assert("@@ARMS@@"@ =~= mark("ARMS"@));
    assert("@@BIN_DIR@@"@ =~= mark("BIN_DIR"@));
    assert("@@OUTPUT_PATH@@"@ =~= mark("OUTPUT_PATH"@));
}

proof fn lemma_template()
    ensures
        BOOTSTRAP_TEMPLATE@ == opening() + ("@@ARMS@@"@ + (otherwise() + ("@@BIN_DIR@@"@ + (
        exporting() + ("@@OUTPUT_PATH@@"@ + (starting() + ("@@BIN_DIR@@"@ + handing_on()))))))),
{
    reveal_strlit("set -eu\ncase \"$(uname -m)\" in\n@@ARMS@@  *) echo \"athena: no binary for $(uname -m)\" >&2; exit 1 ;;\nesac\nchmod +x \"@@BIN_DIR@@/app-$__t\"\nexport CARGO_ATHENA_OUTPUT=\"@@OUTPUT_PATH@@\"\nexec \"@@BIN_DIR@@/app-$__t\" \"$@\"\n");
    reveal_strlit("set -eu\ncase \"$(uname -m)\" in\n");
    reveal_strlit("  *) echo \"athena: no binary for $(uname -m)\" >&2; exit 1 ;;\nesac\nchmod +x \"");
    reveal_strlit("/app-$__t\"\nexport CARGO_ATHENA_OUTPUT=\"");
    reveal_strlit("\"\nexec \"");
    reveal_strlit("/app-$__t\" \"$@\"\n");
    reveal_strlit("@@ARMS@@");
    reveal_strlit("@@BIN_DIR@@");
    reveal_strlit("@@OUTPUT_PATH@@");
    assert(BOOTSTRAP_TEMPLATE@ =~= opening() + ("@@ARMS@@"@ + (otherwise() + ("@@BIN_DIR@@"@ + (
    exporting() + ("@@OUTPUT_PATH@@"@ + (starting() + ("@@BIN_DIR@@"@ + handing_on()))))))));
}

/// A text that may stand behind a mark.
spec fn follows(s: Seq<char>) -> bool {
    s.len() > 0 && (s[0] == ' ' || s[0] == '/' || s[0] == '"')
}

spec fn is_mark(p: Seq<char>, c: char) -> bool {
    p.len() > 2 && p[0] == '@' && p[1] == '@' && p[2] == c
}

proof fn lemma_first(
    a: Seq<char>,
    b: Seq<char>,
    c: Seq<char>,
    d: Seq<char>,
    e: Seq<char>,
    w: Seq<char>,
)
    requires
        unmarked(a) && unmarked(b) && unmarked(c) && unmarked(d),
        follows(b) && follows(c) && follows(d) && follows(e),
        replaced(e, "@@ARMS@@"@, w) == e,
    ensures
        ({
            let rest = b + ("@@BIN_DIR@@"@ + (c + ("@@OUTPUT_PATH@@"@ + (d + ("@@BIN_DIR@@"@
                + e)))));
            replaced(a + ("@@ARMS@@"@ + rest), "@@ARMS@@"@, w) == a + (w + rest)
        }),
{
    lemma_parts();
    let p = "@@ARMS@@"@;
    let x8 = "@@BIN_DIR@@"@ + e;
    let x7 = d + x8;
    let x6 = "@@OUTPUT_PATH@@"@ + x7;
    let x5 = c + x6;
    let x4 = "@@BIN_DIR@@"@ + x5;
    let x3 = b + x4;
    assert(is_mark(p, 'A'));
    lemma_other_mark("BIN_DIR"@, e, p, w);
    lemma_kept(d, x8, p, w);
    assert(x7[0] == d[0]);
    lemma_other_mark("OUTPUT_PATH"@, x7, p, w);
    lemma_kept(c, x6, p, w);
    assert(x5[0] == c[0]);
    lemma_other_mark("BIN_DIR"@, x5, p, w);
    lemma_kept(b, x4, p, w);
    lemma_own_mark(x3, p, w);
    lemma_kept(a, p + x3, p, w);
}

proof fn lemma_second(
    a: Seq<char>,
    b: Seq<char>,
    c: Seq<char>,
    d: Seq<char>,
    e: Seq<char>,
    w: Seq<char>,
)
    requires
        unmarked(a) && unmarked(b) && unmarked(c) && unmarked(d),
        follows(b) && follows(c) && follows(d) && follows(e),
        replaced(e, "@@BIN_DIR@@"@, w) == e,
    ensures
        replaced(
            a + (b + ("@@BIN_DIR@@"@ + (c + ("@@OUTPUT_PATH@@"@ + (d + ("@@BIN_DIR@@"@ + e)))))),
            "@@BIN_DIR@@"@,
            w,
        ) == a + (b + (w + (c + ("@@OUTPUT_PATH@@"@ + (d + (w + e)))))),
{
    lemma_parts();
    let p = "@@BIN_DIR@@"@;
    let x8 = p + e;
    let x7 = d + x8;
    let x6 = "@@OUTPUT_PATH@@"@ + x7;
    let x5 = c + x6;
    let x4 = p + x5;
    let x3 = b + x4;
    assert(is_mark(p, 'B'));
    lemma_own_mark(e, p, w);
    lemma_kept(d, x8, p, w);
    assert(x7[0] == d[0]);
    lemma_other_mark("OUTPUT_PATH"@, x7, p, w);
    lemma_kept(c, x6, p, w);
    lemma_own_mark(x5, p, w);
    lemma_kept(b, x4, p, w);
    lemma_kept(a, x3, p, w);
}

proof fn lemma_third(a: Seq<char>, b: Seq<char>, e: Seq<char>, w: Seq<char>)
    requires
        unmarked(a) && unmarked(b),
        replaced(e, "@@OUTPUT_PATH@@"@, w) == e,
    ensures
        replaced(a + ("@@OUTPUT_PATH@@"@ + (b + e)), "@@OUTPUT_PATH@@"@, w) == a + (w + (b + e)),
{
    lemma_parts();
    let p = "@@OUTPUT_PATH@@"@;
    assert(is_mark(p, 'O'));
    lemma_kept(b, e, p, w);
    lemma_own_mark(b + e, p, w);
    lemma_kept(a, p + (b + e), p, w);
}

proof fn lemma_unmarked(a: Seq<char>, b: Seq<char>)
    requires
        unmarked(a),
        unmarked(b),
    ensures
        unmarked(a + b),
{
    assert forall|i: int| 0 <= i < (a + b).len() implies #[trigger] (a + b)[i] != '@' by {
        if i < a.len() {
            assert((a + b)[i] == a[i]);
        } else {
            assert((a + b)[i] == b[i - a.len()]);
        }
    }
}

/// The script in full: it stops at the first failure, picks the target by the
/// machine, stops where there is none, and replaces itself by the binary of that
/// target, which gets every argument and is told where its result goes.
pub proof fn law_the_script_of_a_container(targets: Seq<Seq<char>>, kind: IoKind)
    requires
        unmarked(arms_for(targets)),
    ensures
        script_for(targets, kind) == opening() + arms_for(targets) + otherwise() + "/athena/bin"@
            + exporting() + (if kind == IoKind::Parameter {
            "/athena/result"@
        } else {
            "/athena/result-artifact"@
        }) + starting() + "/athena/bin"@ + handing_on(),
{
    lemma_parts();
    lemma_template();
    let arms = arms_for(targets);
    let bin = "/athena/bin"@;
    let out = output_path(kind);
    assert(unmarked(bin)) by {
        reveal_strlit("/athena/bin");
    }
    lemma_script(opening(), arms, otherwise(), exporting(), starting(), handing_on(), bin, out);
}

proof fn lemma_script(
    a: Seq<char>,
    arms: Seq<char>,
    b: Seq<char>,
    c: Seq<char>,
    d: Seq<char>,
    e: Seq<char>,
    bin: Seq<char>,
    out: Seq<char>,
)
    requires
        unmarked(a) && unmarked(arms) && unmarked(b) && unmarked(c) && unmarked(d) && unmarked(bin),
        follows(b) && follows(c) && follows(d) && follows(e),
        e == handing_on(),
    ensures
        replaced(
            replaced(
                replaced(
                    a + ("@@ARMS@@"@ + (b + ("@@BIN_DIR@@"@ + (c + ("@@OUTPUT_PATH@@"@ + (d + (
                    "@@BIN_DIR@@"@ + e))))))),
                    "@@ARMS@@"@,
                    arms,
                ),
                "@@BIN_DIR@@"@,
                bin,
            ),
            "@@OUTPUT_PATH@@"@,
            out,
        ) == a + arms + b + bin + c + out + d + bin + e,
{
    lemma_parts();
    lemma_end("@@ARMS@@"@, arms);
    lemma_end("@@BIN_DIR@@"@, bin);
    lemma_end("@@OUTPUT_PATH@@"@, out);
    lemma_first(a, b, c, d, e, arms);
    let rest = b + ("@@BIN_DIR@@"@ + (c + ("@@OUTPUT_PATH@@"@ + (d + ("@@BIN_DIR@@"@ + e)))));
    assert(a + (arms + rest) =~= (a + arms) + rest);
    lemma_unmarked(a, arms);
    lemma_second(a + arms, b, c, d, e, bin);
    let head = a + arms + b + bin + c;
    let tail = d + bin;
    lemma_unmarked(a + arms, b);
    lemma_unmarked(a + arms + b, bin);
    lemma_unmarked(a + arms + b + bin, c);
    lemma_unmarked(d, bin);
    assert((a + arms) + (b + (bin + (c + ("@@OUTPUT_PATH@@"@ + (d + (bin + e)))))) =~= head + (
    "@@OUTPUT_PATH@@"@ + (tail + e)));
    lemma_third(head, tail, e, out);
    assert(head + (out + (tail + e)) =~= a + arms + b + bin + c + out + d + bin + e);
}

} // verus!
