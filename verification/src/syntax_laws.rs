//! How the source is read: what brackets, field accesses and calls stand for, and
//! which names an expression uses.

use crate::ast::{call_of, chain_of, core_of, Chain, Expr, Member, Stmt};
use crate::conditional::{names_in, names_in_all, names_in_stmt, names_in_stmts};
use vstd::prelude::*;

verus! {

/// Brackets, groups and borrows change nothing; anything else stands for itself.
pub proof fn law_brackets(e: Expr, mutable: bool)
    ensures
        core_of(Expr::Paren { expr: Box::new(e) }) == core_of(e),
        core_of(Expr::Group { expr: Box::new(e) }) == core_of(e),
        core_of(Expr::Reference { mutable, expr: Box::new(e) }) == core_of(e),
        !(e is Paren) && !(e is Group) && !(e is Reference) ==> core_of(e) == e,
        !(core_of(e) is Paren) && !(core_of(e) is Group) && !(core_of(e) is Reference),
{
    crate::ast::lemma_core(e);
}

/// A call of a path is that path on the arguments that are written; a call of
/// anything else, and what is no call, is none.
pub proof fn law_calls_of_paths(e: Expr)
    ensures
        match core_of(e) {
            Expr::Call { func, args, text: _ } => match *func {
                Expr::Path(p) => call_of(e) matches Some((q, raw)) && q == p && raw == args@,
                _ => call_of(e) is None,
            },
            _ => call_of(e) is None,
        },
{
}

/// The access of a named field goes one step further from where its base leads,
/// behind all steps before it; a tuple field leads nowhere; a name is where a chain
/// begins.
pub proof fn law_field_accesses(base: Expr, name: String)
    ensures
        chain_of(base) matches Chain::Root(b, path) ==> (chain_of(
            Expr::Field { base: Box::new(base), member: Member::Named(name) },
        ) matches Chain::Root(c, more) && c == b && more.len() == path.len() + 1 && more.last()
            == name@ && more.take(path.len() as int) == path),
        chain_of(base) is Tuple ==> chain_of(
            Expr::Field { base: Box::new(base), member: Member::Named(name) },
        ) is Tuple,
        chain_of(Expr::Field { base: Box::new(base), member: Member::Unnamed }) is Tuple,
        base is Path ==> (chain_of(base) matches Chain::Root(b, path) && b == base && path.len()
            == 0),
{
    if let Chain::Root(_, path) = chain_of(base) {
        assert(path.push(name@).take(path.len() as int) =~= path);
    }
}

// ---- names -----------------------------------------------------------------------------
/// Whether the name `x` stands somewhere in an expression.
pub open spec fn mentions_name(x: Seq<char>, e: Expr) -> bool
    decreases e,
{
    match e {
        Expr::Lit(_) => false,
        Expr::Path(p) => p.plain && !p.qualified && p.segments@.len() == 1 && p.segments@[0]@ == x,
        Expr::Field { base, member: _ } => mentions_name(x, *base),
        Expr::Index { base, index } => mentions_name(x, *base) || mentions_name(x, *index),
        Expr::MethodCall { receiver, method: _, args } => mentions_name(x, *receiver)
            || one_mentions(x, args@),
        Expr::Call { func, args, text: _ } => mentions_name(x, *func) || one_mentions(x, args@),
        Expr::Closure { inputs: _, body } => mentions_name(x, *body),
        Expr::Block { stmts } => stmts_mention(x, stmts@),
        Expr::If(i) => mentions_name(x, *i.cond) || stmts_mention(x, i.then_branch@)
            || match i.else_branch {
            Some(y) => mentions_name(x, *y),
            None => false,
        },
        Expr::Binary { op: _, left, right } => mentions_name(x, *left) || mentions_name(x, *right),
        Expr::Not { expr } => mentions_name(x, *expr),
        Expr::Assign { left, right } => mentions_name(x, *left) || mentions_name(x, *right),
        Expr::Return { value } => match value {
            Some(y) => mentions_name(x, *y),
            None => false,
        },
        Expr::Paren { expr } => mentions_name(x, *expr),
        Expr::Group { expr } => mentions_name(x, *expr),
        Expr::Reference { mutable: _, expr } => mentions_name(x, *expr),
        Expr::Macro(_) => false,
        Expr::Other { kind: _, parts, stmts } => one_mentions(x, parts@) || stmts_mention(
            x,
            stmts@,
        ),
    }
}

pub open spec fn one_mentions(x: Seq<char>, s: Seq<Expr>) -> bool
    decreases s,
{
    s.len() > 0 && (one_mentions(x, s.drop_last()) || mentions_name(x, s.last()))
}

pub open spec fn stmt_mentions(x: Seq<char>, s: Stmt) -> bool
    decreases s,
{
    match s {
        Stmt::Local { pat: _, init } => match init {
            Some(i) => mentions_name(x, i.expr) || match i.diverge {
                Some(y) => mentions_name(x, *y),
                None => false,
            },
            None => false,
        },
        Stmt::Expr { expr, semi: _ } => mentions_name(x, expr),
        _ => false,
    }
}

pub open spec fn stmts_mention(x: Seq<char>, s: Seq<Stmt>) -> bool
    decreases s,
{
    s.len() > 0 && (stmts_mention(x, s.drop_last()) || stmt_mentions(x, s.last()))
}

proof fn lemma_in_cat(a: Seq<Seq<char>>, b: Seq<Seq<char>>, x: Seq<char>)
    ensures
        (a + b).contains(x) <==> a.contains(x) || b.contains(x),
{
    let s = a + b;
    if a.contains(x) {
        let i = choose|i: int| 0 <= i < a.len() && a[i] == x;
        assert(s[i] == x);
    }
    if b.contains(x) {
        let i = choose|i: int| 0 <= i < b.len() && b[i] == x;
        assert(s[a.len() + i] == x);
    }
    if s.contains(x) {
        let i = choose|i: int| 0 <= i < s.len() && s[i] == x;
        if i < a.len() {
            assert(a[i] == x);
        } else {
            assert(b[i - a.len()] == x);
        }
    }
}

proof fn lemma_names(x: Seq<char>, e: Expr)
    ensures
        names_in(e).contains(x) <==> mentions_name(x, e),
    decreases e,
{
    match e {
        Expr::Path(p) => {
            if mentions_name(x, e) {
                assert(p.deep_view().segments[0] == p.segments@[0]@);
                assert(names_in(e)[0] == x);
            }
            if names_in(e).contains(x) {
                assert(p.deep_view().segments[0] == p.segments@[0]@);
            }
        },
        Expr::Field { base, member: _ } => lemma_names(x, *base),
        Expr::Index { base, index } => {
            lemma_in_cat(names_in(*base), names_in(*index), x);
            lemma_names(x, *base);
            lemma_names(x, *index);
        },
        Expr::MethodCall { receiver, method: _, args } => {
            lemma_in_cat(names_in(*receiver), names_in_all(args@), x);
            lemma_names(x, *receiver);
            lemma_names_all(x, args@);
        },
        Expr::Call { func, args, text: _ } => {
            lemma_in_cat(names_in(*func), names_in_all(args@), x);
            lemma_names(x, *func);
            lemma_names_all(x, args@);
        },
        Expr::Closure { inputs: _, body } => lemma_names(x, *body),
        Expr::Block { stmts } => law_names_in_a_body(x, stmts@),
        Expr::If(i) => {
            let els = match i.else_branch {
                Some(y) => names_in(*y),
                None => Seq::empty(),
            };
            lemma_in_cat(names_in(*i.cond), names_in_stmts(i.then_branch@), x);
            lemma_in_cat(names_in(*i.cond) + names_in_stmts(i.then_branch@), els, x);
            lemma_names(x, *i.cond);
            law_names_in_a_body(x, i.then_branch@);
            if let Some(y) = i.else_branch {
                lemma_names(x, *y);
            }
        },
        Expr::Binary { op: _, left, right } => {
            lemma_in_cat(names_in(*left), names_in(*right), x);
            lemma_names(x, *left);
            lemma_names(x, *right);
        },
        Expr::Not { expr } => lemma_names(x, *expr),
        Expr::Assign { left, right } => {
            lemma_in_cat(names_in(*left), names_in(*right), x);
            lemma_names(x, *left);
            lemma_names(x, *right);
        },
        Expr::Return { value } => {
            if let Some(y) = value {
                lemma_names(x, *y);
            }
        },
        Expr::Paren { expr } => lemma_names(x, *expr),
        Expr::Group { expr } => lemma_names(x, *expr),
        Expr::Reference { mutable: _, expr } => lemma_names(x, *expr),
        Expr::Other { kind: _, parts, stmts } => {
            lemma_in_cat(names_in_all(parts@), names_in_stmts(stmts@), x);
            lemma_names_all(x, parts@);
            law_names_in_a_body(x, stmts@);
        },
        _ => {},
    }
}

proof fn lemma_names_all(x: Seq<char>, s: Seq<Expr>)
    ensures
        names_in_all(s).contains(x) <==> one_mentions(x, s),
    decreases s,
{
    if s.len() > 0 {
        lemma_in_cat(names_in_all(s.drop_last()), names_in(s.last()), x);
        lemma_names_all(x, s.drop_last());
        lemma_names(x, s.last());
    }
}

proof fn lemma_names_stmt(x: Seq<char>, s: Stmt)
    ensures
        names_in_stmt(s).contains(x) <==> stmt_mentions(x, s),
    decreases s,
{
    match s {
        Stmt::Local { pat: _, init } => {
            if let Some(i) = init {
                let d = match i.diverge {
                    Some(y) => names_in(*y),
                    None => Seq::empty(),
                };
                lemma_in_cat(names_in(i.expr), d, x);
                lemma_names(x, i.expr);
                if let Some(y) = i.diverge {
                    lemma_names(x, *y);
                }
            }
        },
        Stmt::Expr { expr, semi: _ } => lemma_names(x, expr),
        _ => {},
    }
}

/// The names that a body uses are exactly those that stand in it, on whatever branch
/// and in whatever closure or argument.
pub proof fn law_names_in_a_body(x: Seq<char>, s: Seq<Stmt>)
    ensures
        names_in_stmts(s).contains(x) <==> stmts_mention(x, s),
    decreases s,
{
    if s.len() > 0 {
        lemma_in_cat(names_in_stmts(s.drop_last()), names_in_stmt(s.last()), x);
        law_names_in_a_body(x, s.drop_last());
        lemma_names_stmt(x, s.last());
    }
}

} // verus!
