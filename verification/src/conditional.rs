//! Conditions: how the condition of an `if` becomes the `when` expression of a
//! task, and which names an `if` captures.

use crate::analyze::{
    arg_of, bound_name, expr_to_arg, local_binding, name_arg, name_to_arg, path_leaf,
    push_call, push_of, HookSpec, HookSpecView, NodeOpts, NodeOptsView, Scope,
};
use crate::ast::{
    call_key, call_of, call_parts, call_text, core_of, lemma_core, unwrap_expr, BinOp, Expr, Lit,
    Path, Stmt,
};
use crate::folds::{add_all, add_new, lemma_add_all_cat};
use crate::maps::TextMap;
use crate::node::{agrees, Arg, ArgView, JsonSrc, JsonSrcView, Node, NodeView};
use crate::text::{cat2, cat3, cat5, chars_of, dec, decimal, has_str, str_eq, text_of};
use vstd::prelude::*;

verus! {

pub const UNSUPPORTED_COND: &'static str = "unsupported `if` condition. Allowed: \
comparisons (== != < <= > >=) and `&&`/`||`/`!` over a #[workflow] input, \
a prior `let = template(...)` binding, an `a.field` of one, or a literal. \
Method calls, arithmetic, function calls and casts aren't lowered.";

#[derive(Clone, Copy, PartialEq, Eq, Structural)]
pub enum RelOp {
    Eq,
    Ne,
    Lt,
    Le,
    Gt,
    Ge,
}

pub open spec fn rel_text(op: RelOp) -> Seq<char> {
    match op {
        RelOp::Eq => "=="@,
        RelOp::Ne => "!="@,
        RelOp::Lt => "<"@,
        RelOp::Le => "<="@,
        RelOp::Gt => ">"@,
        RelOp::Ge => ">="@,
    }
}

impl RelOp {
    /// The operator in an Argo expression.
    pub fn argo(self) -> (r: &'static str)
        ensures
            r@ == rel_text(self),
    {
        match self {
            RelOp::Eq => "==",
            RelOp::Ne => "!=",
            RelOp::Lt => "<",
            RelOp::Le => "<=",
            RelOp::Gt => ">",
            RelOp::Ge => ">=",
        }
    }
}

pub open spec fn rel_of(op: BinOp) -> Option<RelOp> {
    match op {
        BinOp::Eq => Some(RelOp::Eq),
        BinOp::Ne => Some(RelOp::Ne),
        BinOp::Lt => Some(RelOp::Lt),
        BinOp::Le => Some(RelOp::Le),
        BinOp::Gt => Some(RelOp::Gt),
        BinOp::Ge => Some(RelOp::Ge),
        _ => None,
    }
}

fn relation(op: BinOp) -> (r: Option<RelOp>)
    ensures
        r == rel_of(op),
{
    match op {
        BinOp::Eq => Some(RelOp::Eq),
        BinOp::Ne => Some(RelOp::Ne),
        BinOp::Lt => Some(RelOp::Lt),
        BinOp::Le => Some(RelOp::Le),
        BinOp::Gt => Some(RelOp::Gt),
        BinOp::Ge => Some(RelOp::Ge),
        _ => None,
    }
}

/// An operand of a condition; literals keep their kind.
pub enum WhenOp {
    Input(String),
    Json { input: String, path: Vec<String> },
    Str(String),
    Int(String),
    Bool(bool),
}

#[verifier::ext_equal]
pub enum WhenOpView {
    Input(Seq<char>),
    Json { input: Seq<char>, path: Seq<Seq<char>> },
    Str(Seq<char>),
    Int(Seq<char>),
    Bool(bool),
}

impl DeepView for WhenOp {
    type V = WhenOpView;

    open spec fn deep_view(&self) -> WhenOpView {
        match self {
            WhenOp::Input(n) => WhenOpView::Input(n@),
            WhenOp::Json { input, path } => WhenOpView::Json {
                input: input@,
                path: path.deep_view(),
            },
            WhenOp::Str(s) => WhenOpView::Str(s@),
            WhenOp::Int(s) => WhenOpView::Int(s@),
            WhenOp::Bool(b) => WhenOpView::Bool(*b),
        }
    }
}

/// A condition.
pub enum WhenExpr {
    Rel { lhs: WhenOp, op: RelOp, rhs: WhenOp },
    And(Box<WhenExpr>, Box<WhenExpr>),
    Or(Box<WhenExpr>, Box<WhenExpr>),
    Not(Box<WhenExpr>),
    Truthy(WhenOp),
}

#[verifier::ext_equal]
pub enum WhenExprView {
    Rel { lhs: WhenOpView, op: RelOp, rhs: WhenOpView },
    And(Box<WhenExprView>, Box<WhenExprView>),
    Or(Box<WhenExprView>, Box<WhenExprView>),
    Not(Box<WhenExprView>),
    Truthy(WhenOpView),
}

pub open spec fn when_view(w: WhenExpr) -> WhenExprView
    decreases w,
{
    match w {
        WhenExpr::Rel { lhs, op, rhs } => WhenExprView::Rel {
            lhs: lhs.deep_view(),
            op,
            rhs: rhs.deep_view(),
        },
        WhenExpr::And(a, b) => WhenExprView::And(Box::new(when_view(*a)), Box::new(when_view(*b))),
        WhenExpr::Or(a, b) => WhenExprView::Or(Box::new(when_view(*a)), Box::new(when_view(*b))),
        WhenExpr::Not(a) => WhenExprView::Not(Box::new(when_view(*a))),
        WhenExpr::Truthy(o) => WhenExprView::Truthy(o.deep_view()),
    }
}

impl DeepView for WhenExpr {
    type V = WhenExprView;

    open spec fn deep_view(&self) -> WhenExprView {
        when_view(*self)
    }
}

// ---- rendering ---------------------------------------------------------------
/// The accessors `['a']['b']` of a field path.
pub open spec fn accessors(path: Seq<Seq<char>>) -> Seq<char>
    decreases path.len(),
{
    if path.len() == 0 {
        Seq::empty()
    } else {
        accessors(path.drop_last()) + ("['"@ + path.last() + "']"@)
    }
}

pub fn accessor_text(path: &Vec<String>) -> (r: String)
    ensures
        r@ == accessors(path.deep_view()),
{
    let ghost all = path.deep_view();
    let mut out: String = String::new();
    let mut i: usize = 0;
    proof {
        assert(all.take(0) =~= Seq::<Seq<char>>::empty());
    }
    while i < path.len()
        invariant
            all == path.deep_view(),
            i <= path@.len(),
            out@ == accessors(all.take(i as int)),
        decreases path@.len() - i,
    {
        let a: String = cat3("['", path[i].as_str(), "']");
        out.append(a.as_str());
        proof {
            assert(all.take(i + 1).drop_last() =~= all.take(i as int));
            assert(all.take(i + 1).last() == path@[i as int]@);
        }
        i = i + 1;
    }
    proof {
        assert(all.take(i as int) =~= all);
    }
    out
}

/// `s` with a backslash before each backslash and each quotation mark.
pub open spec fn escaped(s: Seq<char>) -> Seq<char>
    decreases s.len(),
{
    if s.len() == 0 {
        Seq::empty()
    } else {
        let front = escaped(s.drop_last());
        if s.last() == '\\' || s.last() == '"' {
            front.push('\\').push(s.last())
        } else {
            front.push(s.last())
        }
    }
}

fn escape(s: &str) -> (r: String)
    ensures
        r@ == escaped(s@),
{
    let v: Vec<char> = chars_of(s);
    let mut out: Vec<char> = Vec::new();
    let mut i: usize = 0;
    proof {
        assert(v@.take(0) =~= Seq::<char>::empty());
    }
    while i < v.len()
        invariant
            v@ == s@,
            i <= v@.len(),
            out@ == escaped(v@.take(i as int)),
        decreases v@.len() - i,
    {
        if v[i] == '\\' || v[i] == '"' {
            out.push('\\');
        }
        out.push(v[i]);
        proof {
            assert(v@.take(i + 1).drop_last() =~= v@.take(i as int));
            assert(v@.take(i + 1).last() == v@[i as int]);
        }
        i = i + 1;
    }
    proof {
        assert(v@.take(i as int) =~= v@);
    }
    text_of(&out)
}

pub open spec fn op_text(o: WhenOpView) -> Seq<char> {
    match o {
        WhenOpView::Input(n) => "{{inputs.parameters."@ + n + "}}"@,
        WhenOpView::Json { input, path } => "{{=toJSON(fromJSON(inputs.parameters['"@ + input
            + "'])"@ + accessors(path) + ")}}"@,
        WhenOpView::Str(s) => "\""@ + escaped(s) + "\""@,
        WhenOpView::Int(s) => s,
        WhenOpView::Bool(b) => if b {
            "true"@
        } else {
            "false"@
        },
    }
}

/// An operand in an Argo expression.
pub fn when_op_str(o: &WhenOp) -> (r: String)
    ensures
        r@ == op_text(o.deep_view()),
{
    match o {
        WhenOp::Input(n) => cat3("{{inputs.parameters.", n.as_str(), "}}"),
        WhenOp::Json { input, path } => {
            let a: String = accessor_text(path);
            cat5(
                "{{=toJSON(fromJSON(inputs.parameters['",
                input.as_str(),
                "'])",
                a.as_str(),
                ")}}",
            )
        },
        WhenOp::Str(s) => {
            let e: String = escape(s.as_str());
            cat3("\"", e.as_str(), "\"")
        },
        WhenOp::Int(s) => s.clone(),
        WhenOp::Bool(b) => if *b {
            "true".to_owned()
        } else {
            "false".to_owned()
        },
    }
}

/// The Argo expression of a condition. Every part stands in parentheses, so
/// that nothing depends on the precedence of operators.
pub open spec fn when_text(w: WhenExprView) -> Seq<char>
    decreases w,
{
    match w {
        WhenExprView::Rel { lhs, op, rhs } => "("@ + op_text(lhs) + " "@ + rel_text(op) + " "@
            + op_text(rhs) + ")"@,
        WhenExprView::And(a, b) => "("@ + when_text(*a) + " && "@ + when_text(*b) + ")"@,
        WhenExprView::Or(a, b) => "("@ + when_text(*a) + " || "@ + when_text(*b) + ")"@,
        WhenExprView::Not(a) => "!("@ + when_text(*a) + ")"@,
        WhenExprView::Truthy(o) => "("@ + op_text(o) + ")"@,
    }
}

/// Renders a condition as an Argo expression.
pub fn render_when(w: &WhenExpr) -> (r: String)
    ensures
        r@ == when_text(w.deep_view()),
    decreases *w,
{
    match w {
        WhenExpr::Rel { lhs, op, rhs } => {
            let l: String = when_op_str(lhs);
            let r: String = when_op_str(rhs);
            let mut s: String = cat5("(", l.as_str(), " ", op.argo(), " ");
            s.append(r.as_str());
            s.append(")");
            s
        },
        WhenExpr::And(a, b) => {
            let l: String = render_when(a);
            let r: String = render_when(b);
            cat5("(", l.as_str(), " && ", r.as_str(), ")")
        },
        WhenExpr::Or(a, b) => {
            let l: String = render_when(a);
            let r: String = render_when(b);
            cat5("(", l.as_str(), " || ", r.as_str(), ")")
        },
        WhenExpr::Not(a) => {
            let t: String = render_when(a);
            cat3("!(", t.as_str(), ")")
        },
        WhenExpr::Truthy(o) => {
            let t: String = when_op_str(o);
            cat3("(", t.as_str(), ")")
        },
    }
}

// ---- hoisting ------------------------------------------------------------------
/// An operand of a condition after its template calls became tasks: the name
/// that stands for such a task, or the expression itself.
pub enum Operand<'a> {
    Hoisted(String),
    Plain(&'a Expr),
}

pub enum OperandView {
    Hoisted(Seq<char>),
    Plain(Expr),
}

impl<'a> DeepView for Operand<'a> {
    type V = OperandView;

    open spec fn deep_view(&self) -> OperandView {
        match self {
            Operand::Hoisted(n) => OperandView::Hoisted(n@),
            Operand::Plain(e) => OperandView::Plain(**e),
        }
    }
}

/// A condition after its template calls became tasks.
pub enum Cond<'a> {
    Rel { op: RelOp, lhs: Operand<'a>, rhs: Operand<'a> },
    And(Box<Cond<'a>>, Box<Cond<'a>>),
    Or(Box<Cond<'a>>, Box<Cond<'a>>),
    Not(Box<Cond<'a>>),
    Truthy(Operand<'a>),
    /// A binary expression that is no condition.
    Outside(&'a Expr),
}

pub enum CondView {
    Rel { op: RelOp, lhs: OperandView, rhs: OperandView },
    And(Box<CondView>, Box<CondView>),
    Or(Box<CondView>, Box<CondView>),
    Not(Box<CondView>),
    Truthy(OperandView),
    Outside(Expr),
}

pub open spec fn cond_view(c: Cond<'_>) -> CondView
    decreases c,
{
    match c {
        Cond::Rel { op, lhs, rhs } => CondView::Rel {
            op,
            lhs: lhs.deep_view(),
            rhs: rhs.deep_view(),
        },
        Cond::And(a, b) => CondView::And(Box::new(cond_view(*a)), Box::new(cond_view(*b))),
        Cond::Or(a, b) => CondView::Or(Box::new(cond_view(*a)), Box::new(cond_view(*b))),
        Cond::Not(a) => CondView::Not(Box::new(cond_view(*a))),
        Cond::Truthy(o) => CondView::Truthy(o.deep_view()),
        Cond::Outside(e) => CondView::Outside(*e),
    }
}

impl<'a> DeepView for Cond<'a> {
    type V = CondView;

    open spec fn deep_view(&self) -> CondView {
        cond_view(*self)
    }
}

/// The names and the tasks so far, and the calls that conditions made into
/// tasks: the text of each and its task.
#[verifier::ext_equal]
pub struct Hoist {
    pub used: Seq<Seq<char>>,
    pub nodes: Seq<NodeView>,
    pub seen: Seq<(Seq<char>, Seq<char>)>,
}

/// The name that stands for the `i`-th call.
pub open spec fn cond_name(i: nat) -> Seq<char> {
    "__athena_cond_"@ + dec(i)
}

pub open spec fn seen_at(seen: Seq<(Seq<char>, Seq<char>)>, key: Seq<char>) -> Option<nat>
    decreases seen.len(),
{
    if seen.len() == 0 {
        None
    } else if seen.last().0 == key {
        Some((seen.len() - 1) as nat)
    } else {
        seen_at(seen.drop_last(), key)
    }
}

pub open spec fn hoisted_operand(e: Expr, b: Scope, ins: Seq<Seq<char>>, st: Hoist) -> Result<
    (OperandView, Hoist),
    Seq<char>,
> {
    match call_of(e) {
        Some((callee, args)) => match seen_at(st.seen, call_text(e)) {
            Some(i) => Ok((OperandView::Hoisted(cond_name(i)), st)),
            None => match push_of(
                callee.deep_view(),
                args,
                callee.deep_view().leaf(),
                NodeOptsView::empty(),
                None,
                None,
                st.used,
                st.nodes,
                b,
                ins,
            ) {
                Ok(p) => Ok(
                    (
                        OperandView::Hoisted(cond_name(st.seen.len())),
                        Hoist {
                            used: p.used,
                            nodes: p.nodes,
                            seen: st.seen.push((call_text(e), p.task)),
                        },
                    ),
                ),
                Err(m) => Err(m),
            },
        },
        None => Ok((OperandView::Plain(e), st)),
    }
}

/// A condition with each template call among its operands made into a task.
pub open spec fn hoisted(e: Expr, b: Scope, ins: Seq<Seq<char>>, st: Hoist) -> Result<
    (CondView, Hoist),
    Seq<char>,
>
    decreases e,
{
    proof {
        lemma_core(e);
    }
    match core_of(e) {
        Expr::Binary { op, left, right } => match rel_of(op) {
            Some(rel) => match hoisted_operand(*left, b, ins, st) {
                Err(m) => Err(m),
                Ok((lhs, s1)) => match hoisted_operand(*right, b, ins, s1) {
                    Err(m) => Err(m),
                    Ok((rhs, s2)) => Ok((CondView::Rel { op: rel, lhs, rhs }, s2)),
                },
            },
            None => if op == BinOp::And || op == BinOp::Or {
                match hoisted(*left, b, ins, st) {
                    Err(m) => Err(m),
                    Ok((l, s1)) => match hoisted(*right, b, ins, s1) {
                        Err(m) => Err(m),
                        Ok((r, s2)) => if op == BinOp::And {
                            Ok((CondView::And(Box::new(l), Box::new(r)), s2))
                        } else {
                            Ok((CondView::Or(Box::new(l), Box::new(r)), s2))
                        },
                    },
                }
            } else {
                Ok((CondView::Outside(e), st))
            },
        },
        Expr::Not { expr } => match hoisted(*expr, b, ins, st) {
            Err(m) => Err(m),
            Ok((c, s1)) => Ok((CondView::Not(Box::new(c)), s1)),
        },
        _ => match hoisted_operand(e, b, ins, st) {
            Err(m) => Err(m),
            Ok((o, s1)) => Ok((CondView::Truthy(o), s1)),
        },
    }
}

/// The calls that conditions made into tasks, in the order of their names.
pub struct Seen {
    pub calls: Vec<(String, String)>,
}

impl DeepView for Seen {
    type V = Seq<(Seq<char>, Seq<char>)>;

    open spec fn deep_view(&self) -> Seq<(Seq<char>, Seq<char>)> {
        self.calls.deep_view()
    }
}

fn seen_index(seen: &Seen, key: &str) -> (r: Option<usize>)
    ensures
        match (r, seen_at(seen.deep_view(), key@)) {
            (Some(i), Some(k)) => i == k && k < seen.deep_view().len(),
            (None, None) => true,
            _ => false,
        },
{
    let ghost all = seen.deep_view();
    let mut n: usize = seen.calls.len();
    proof {
        assert(all.take(n as int) =~= all);
    }
    while n > 0
        invariant
            all == seen.deep_view(),
            n <= seen.calls@.len(),
            seen_at(all, key@) == seen_at(all.take(n as int), key@),
        decreases n,
    {
        n = n - 1;
        proof {
            assert(all.take(n + 1).drop_last() =~= all.take(n as int));
            assert(all.take(n + 1).last() == all[n as int]);
            assert(all[n as int].0 == seen.calls@[n as int].0@);
        }
        if str_eq(seen.calls[n].0.as_str(), key) {
            return Some(n);
        }
    }
    None
}

pub fn cond_ident(i: usize) -> (r: String)
    ensures
        r@ == cond_name(i as nat),
{
    let d: String = decimal(i as u128);
    cat2("__athena_cond_", d.as_str())
}

/// Whether a hoisted part and the state after it are those that `s` names.
pub open spec fn hoist_agrees<T: DeepView>(
    r: Result<T, String>,
    s: Result<(T::V, Hoist), Seq<char>>,
    used: Seq<Seq<char>>,
    nodes: Seq<NodeView>,
    seen: Seq<(Seq<char>, Seq<char>)>,
) -> bool {
    match (r, s) {
        (Ok(a), Ok((v, h))) => {
            &&& a.deep_view() == v
            &&& used == h.used
            &&& nodes == h.nodes
            &&& seen == h.seen
        },
        (Err(m), Err(n)) => m@ == n,
        _ => false,
    }
}

/// Makes an operand that is a template call into a task, once per text, and
/// puts a name in its place.
pub fn hoist_operand<'a>(
    e: &'a Expr,
    used: &mut Vec<String>,
    nodes: &mut Vec<Node>,
    bindings: &TextMap<String>,
    inputs: &Vec<String>,
    seen: &mut Seen,
) -> (r: Result<Operand<'a>, String>)
    ensures
        hoist_agrees(
            r,
            hoisted_operand(
                *e,
                bindings.deep_view(),
                inputs.deep_view(),
                (Hoist {
                    used: old(used).deep_view(),
                    nodes: old(nodes).deep_view(),
                    seen: old(seen).deep_view(),
                }),
            ),
            final(used).deep_view(),
            final(nodes).deep_view(),
            final(seen).deep_view(),
        ),
{
    match call_parts(e) {
        Some((callee, args)) => {
            let key: String = call_key(e);
            match seen_index(seen, key.as_str()) {
                Some(i) => Ok(Operand::Hoisted(cond_ident(i))),
                None => {
                    let leaf: String = path_leaf(callee);
                    let hooks: Vec<HookSpec> = Vec::new();
                    proof {
                        assert(hooks.deep_view() =~= Seq::<HookSpecView>::empty());
                    }
                    let none: NodeOpts = NodeOpts { continue_on: None, hooks };
                    match push_call(
                        callee,
                        args,
                        leaf.as_str(),
                        &none,
                        None,
                        None,
                        used,
                        nodes,
                        bindings,
                        inputs,
                    ) {
                        Ok(t) => {
                            let ghost before = seen.deep_view();
                            let n: usize = seen.calls.len();
                            seen.calls.push((key, t));
                            proof {
                                assert(seen.deep_view() =~= before.push((key@, t@)));
                            }
                            Ok(Operand::Hoisted(cond_ident(n)))
                        },
                        Err(m) => Err(m),
                    }
                },
            }
        },
        None => Ok(Operand::Plain(e)),
    }
}

/// Makes every template call among the operands of a condition into a task.
pub fn hoist_cond<'a>(
    e: &'a Expr,
    used: &mut Vec<String>,
    nodes: &mut Vec<Node>,
    bindings: &TextMap<String>,
    inputs: &Vec<String>,
    seen: &mut Seen,
) -> (r: Result<Cond<'a>, String>)
    ensures
        hoist_agrees(
            r,
            hoisted(
                *e,
                bindings.deep_view(),
                inputs.deep_view(),
                (Hoist {
                    used: old(used).deep_view(),
                    nodes: old(nodes).deep_view(),
                    seen: old(seen).deep_view(),
                }),
            ),
            final(used).deep_view(),
            final(nodes).deep_view(),
            final(seen).deep_view(),
        ),
    decreases *e,
{
    proof {
        lemma_core(*e);
    }
    match unwrap_expr(e) {
        Expr::Binary { op, left, right } => match relation(*op) {
            Some(rel) => {
                let lhs = match hoist_operand(left, used, nodes, bindings, inputs, seen) {
                    Ok(o) => o,
                    Err(m) => {
                        return Err(m);
                    },
                };
                let rhs = match hoist_operand(right, used, nodes, bindings, inputs, seen) {
                    Ok(o) => o,
                    Err(m) => {
                        return Err(m);
                    },
                };
                Ok(Cond::Rel { op: rel, lhs, rhs })
            },
            None => {
                if *op == BinOp::And || *op == BinOp::Or {
                    let l = match hoist_cond(left, used, nodes, bindings, inputs, seen) {
                        Ok(o) => o,
                        Err(m) => {
                            return Err(m);
                        },
                    };
                    let r = match hoist_cond(right, used, nodes, bindings, inputs, seen) {
                        Ok(o) => o,
                        Err(m) => {
                            return Err(m);
                        },
                    };
                    if *op == BinOp::And {
                        Ok(Cond::And(Box::new(l), Box::new(r)))
                    } else {
                        Ok(Cond::Or(Box::new(l), Box::new(r)))
                    }
                } else {
                    Ok(Cond::Outside(e))
                }
            },
        },
        Expr::Not { expr } => match hoist_cond(expr, used, nodes, bindings, inputs, seen) {
            Ok(c) => Ok(Cond::Not(Box::new(c))),
            Err(m) => Err(m),
        },
        _ => match hoist_operand(e, used, nodes, bindings, inputs, seen) {
            Ok(o) => Ok(Cond::Truthy(o)),
            Err(m) => Err(m),
        },
    }
}

// ---- lowering ------------------------------------------------------------------
/// An argument as an operand: only inputs and their fields can be one.
pub open spec fn arg_operand(a: Result<ArgView, Seq<char>>) -> Result<WhenOpView, Seq<char>> {
    match a {
        Ok(ArgView::Input(n)) => Ok(WhenOpView::Input(n)),
        Ok(ArgView::Json { src: JsonSrcView::Input(n), path }) => Ok(
            WhenOpView::Json { input: n, path },
        ),
        Ok(_) => Err(UNSUPPORTED_COND@),
        Err(m) => Err(m + "\n"@ + UNSUPPORTED_COND@),
    }
}

pub open spec fn expr_operand(e: Expr, b: Scope, ins: Seq<Seq<char>>) -> Result<
    WhenOpView,
    Seq<char>,
> {
    match core_of(e) {
        Expr::Lit(l) => match l {
            Lit::Str(s) => Ok(WhenOpView::Str(s@)),
            Lit::Int(d) => Ok(WhenOpView::Int(d@)),
            Lit::Float(d) => Ok(WhenOpView::Int(d@)),
            Lit::Bool(v) => Ok(WhenOpView::Bool(v)),
            _ => Err(UNSUPPORTED_COND@),
        },
        _ => arg_operand(arg_of(e, b, ins)),
    }
}

pub open spec fn operand_of(o: OperandView, b: Scope, ins: Seq<Seq<char>>) -> Result<
    WhenOpView,
    Seq<char>,
> {
    match o {
        OperandView::Hoisted(n) => arg_operand(name_arg(n, b, ins)),
        OperandView::Plain(e) => expr_operand(e, b, ins),
    }
}

/// A condition over the bindings and the inputs in scope.
pub open spec fn when_of(c: CondView, b: Scope, ins: Seq<Seq<char>>) -> Result<
    WhenExprView,
    Seq<char>,
>
    decreases c,
{
    match c {
        CondView::Rel { op, lhs, rhs } => match operand_of(lhs, b, ins) {
            Err(m) => Err(m),
            Ok(l) => match operand_of(rhs, b, ins) {
                Err(m) => Err(m),
                Ok(r) => Ok(WhenExprView::Rel { lhs: l, op, rhs: r }),
            },
        },
        CondView::And(x, y) => match when_of(*x, b, ins) {
            Err(m) => Err(m),
            Ok(l) => match when_of(*y, b, ins) {
                Err(m) => Err(m),
                Ok(r) => Ok(WhenExprView::And(Box::new(l), Box::new(r))),
            },
        },
        CondView::Or(x, y) => match when_of(*x, b, ins) {
            Err(m) => Err(m),
            Ok(l) => match when_of(*y, b, ins) {
                Err(m) => Err(m),
                Ok(r) => Ok(WhenExprView::Or(Box::new(l), Box::new(r))),
            },
        },
        CondView::Not(x) => match when_of(*x, b, ins) {
            Err(m) => Err(m),
            Ok(w) => Ok(WhenExprView::Not(Box::new(w))),
        },
        CondView::Truthy(o) => match operand_of(o, b, ins) {
            Err(m) => Err(m),
            Ok(v) => Ok(WhenExprView::Truthy(v)),
        },
        CondView::Outside(_) => Err(UNSUPPORTED_COND@),
    }
}

fn arg_to_operand(a: Result<Arg, String>) -> (r: Result<WhenOp, String>)
    ensures
        forall|s: Result<ArgView, Seq<char>>| #[trigger]
            agrees(a, s) ==> agrees(r, arg_operand(s)),
{
    match a {
        Ok(Arg::Input(n)) => Ok(WhenOp::Input(n)),
        Ok(Arg::Json { src: JsonSrc::Input(n), path }) => Ok(WhenOp::Json { input: n, path }),
        Ok(_) => Err(UNSUPPORTED_COND.to_owned()),
        Err(m) => Err(cat3(m.as_str(), "\n", UNSUPPORTED_COND)),
    }
}

/// An operand of a condition; literals keep their kind.
pub fn cond_operand(o: &Operand, bindings: &TextMap<String>, inputs: &Vec<String>) -> (r: Result<
    WhenOp,
    String,
>)
    ensures
        agrees(r, operand_of(o.deep_view(), bindings.deep_view(), inputs.deep_view())),
{
    match o {
        Operand::Hoisted(n) => {
            let a = name_to_arg(n.as_str(), bindings, inputs);
            arg_to_operand(a)
        },
        Operand::Plain(e) => match unwrap_expr(e) {
            Expr::Lit(l) => match l {
                Lit::Str(s) => Ok(WhenOp::Str(s.clone())),
                Lit::Int(d) => Ok(WhenOp::Int(d.clone())),
                Lit::Float(d) => Ok(WhenOp::Int(d.clone())),
                Lit::Bool(v) => Ok(WhenOp::Bool(*v)),
                _ => Err(UNSUPPORTED_COND.to_owned()),
            },
            _ => {
                let a = expr_to_arg(e, bindings, inputs);
                arg_to_operand(a)
            },
        },
    }
}

/// Lowers a condition. What is outside the grammar is refused, never
/// mistranslated.
pub fn cond_to_when(c: &Cond, bindings: &TextMap<String>, inputs: &Vec<String>) -> (r: Result<
    WhenExpr,
    String,
>)
    ensures
        agrees(r, when_of(c.deep_view(), bindings.deep_view(), inputs.deep_view())),
    decreases *c,
{
    match c {
        Cond::Rel { op, lhs, rhs } => match cond_operand(lhs, bindings, inputs) {
            Err(m) => Err(m),
            Ok(l) => match cond_operand(rhs, bindings, inputs) {
                Err(m) => Err(m),
                Ok(r) => Ok(WhenExpr::Rel { lhs: l, op: *op, rhs: r }),
            },
        },
        Cond::And(x, y) => match cond_to_when(x, bindings, inputs) {
            Err(m) => Err(m),
            Ok(l) => match cond_to_when(y, bindings, inputs) {
                Err(m) => Err(m),
                Ok(r) => Ok(WhenExpr::And(Box::new(l), Box::new(r))),
            },
        },
        Cond::Or(x, y) => match cond_to_when(x, bindings, inputs) {
            Err(m) => Err(m),
            Ok(l) => match cond_to_when(y, bindings, inputs) {
                Err(m) => Err(m),
                Ok(r) => Ok(WhenExpr::Or(Box::new(l), Box::new(r))),
            },
        },
        Cond::Not(x) => match cond_to_when(x, bindings, inputs) {
            Err(m) => Err(m),
            Ok(w) => Ok(WhenExpr::Not(Box::new(w))),
        },
        Cond::Truthy(o) => match cond_operand(o, bindings, inputs) {
            Err(m) => Err(m),
            Ok(v) => Ok(WhenExpr::Truthy(v)),
        },
        Cond::Outside(_) => Err(UNSUPPORTED_COND.to_owned()),
    }
}

// ---- names -----------------------------------------------------------------------
/// The plain names in an expression, in source order.
pub open spec fn names_in(e: Expr) -> Seq<Seq<char>>
    decreases e,
{
    match e {
        Expr::Lit(_) => Seq::empty(),
        Expr::Path(p) => match p.deep_view().ident() {
            Some(id) => if p.qualified {
                Seq::empty()
            } else {
                seq![id]
            },
            None => Seq::empty(),
        },
        Expr::Field { base, member: _ } => names_in(*base),
        Expr::Index { base, index } => names_in(*base) + names_in(*index),
        Expr::MethodCall { receiver, method: _, args } => names_in(*receiver) + names_in_all(args@),
        Expr::Call { func, args, text: _ } => names_in(*func) + names_in_all(args@),
        Expr::Closure { inputs: _, body } => names_in(*body),
        Expr::Block { stmts } => names_in_stmts(stmts@),
        Expr::If(i) => names_in(*i.cond) + names_in_stmts(i.then_branch@) + match i.else_branch {
            Some(x) => names_in(*x),
            None => Seq::empty(),
        },
        Expr::Binary { op: _, left, right } => names_in(*left) + names_in(*right),
        Expr::Not { expr } => names_in(*expr),
        Expr::Assign { left, right } => names_in(*left) + names_in(*right),
        Expr::Return { value } => match value {
            Some(x) => names_in(*x),
            None => Seq::empty(),
        },
        Expr::Paren { expr } => names_in(*expr),
        Expr::Group { expr } => names_in(*expr),
        Expr::Reference { mutable: _, expr } => names_in(*expr),
        Expr::Macro(_) => Seq::empty(),
        Expr::Other { kind: _, parts, stmts } => names_in_all(parts@) + names_in_stmts(stmts@),
    }
}

pub open spec fn names_in_all(s: Seq<Expr>) -> Seq<Seq<char>>
    decreases s,
{
    if s.len() == 0 {
        Seq::empty()
    } else {
        names_in_all(s.drop_last()) + names_in(s.last())
    }
}

pub open spec fn names_in_stmt(s: Stmt) -> Seq<Seq<char>>
    decreases s,
{
    match s {
        Stmt::Local { pat: _, init } => match init {
            Some(i) => names_in(i.expr) + match i.diverge {
                Some(x) => names_in(*x),
                None => Seq::empty(),
            },
            None => Seq::empty(),
        },
        Stmt::Expr { expr, semi: _ } => names_in(expr),
        Stmt::Macro(_) => Seq::empty(),
        Stmt::Item => Seq::empty(),
    }
}

pub open spec fn names_in_stmts(s: Seq<Stmt>) -> Seq<Seq<char>>
    decreases s,
{
    if s.len() == 0 {
        Seq::empty()
    } else {
        names_in_stmts(s.drop_last()) + names_in_stmt(s.last())
    }
}

pub fn add_name(acc: &mut Vec<String>, n: &str)
    ensures
        final(acc).deep_view() == add_new(old(acc).deep_view(), n@),
{
    let ghost before = acc.deep_view();
    if !has_str(acc, n) {
        acc.push(n.to_owned());
        proof {
            assert(acc.deep_view() =~= before.push(n@));
        }
    }
}

proof fn lemma_add_one(acc: Seq<Seq<char>>, x: Seq<char>)
    ensures
        add_all(acc, seq![x]) == add_new(acc, x),
{
    assert(seq![x].drop_last() =~= Seq::<Seq<char>>::empty());
    assert(add_all(acc, Seq::<Seq<char>>::empty()) == acc);
}

fn collect_expr(e: &Expr, acc: &mut Vec<String>)
    ensures
        final(acc).deep_view() == add_all(old(acc).deep_view(), names_in(*e)),
    decreases *e,
{
    let ghost a0 = acc.deep_view();
    match e {
        Expr::Lit(_) => {},
        Expr::Path(p) => {
            if p.plain && p.segments.len() == 1 && !p.qualified {
                proof {
                    lemma_add_one(a0, p.segments@[0]@);
                    assert(p.deep_view().segments[0] == p.segments@[0]@);
                }
                add_name(acc, p.segments[0].as_str());
            }
        },
        Expr::Field { base, member: _ } => collect_expr(base, acc),
        Expr::Index { base, index } => {
            collect_expr(base, acc);
            collect_expr(index, acc);
            proof {
                lemma_add_all_cat(a0, names_in(**base), names_in(**index));
            }
        },
        Expr::MethodCall { receiver, method: _, args } => {
            collect_expr(receiver, acc);
            collect_exprs(args, acc);
            proof {
                lemma_add_all_cat(a0, names_in(**receiver), names_in_all(args@));
            }
        },
        Expr::Call { func, args, text: _ } => {
            collect_expr(func, acc);
            collect_exprs(args, acc);
            proof {
                lemma_add_all_cat(a0, names_in(**func), names_in_all(args@));
            }
        },
        Expr::Closure { inputs: _, body } => collect_expr(body, acc),
        Expr::Block { stmts } => collect_stmts(stmts, acc),
        Expr::If(i) => {
            collect_expr(&i.cond, acc);
            collect_stmts(&i.then_branch, acc);
            let ghost head = names_in(*i.cond) + names_in_stmts(i.then_branch@);
            proof {
                lemma_add_all_cat(a0, names_in(*i.cond), names_in_stmts(i.then_branch@));
            }
            match &i.else_branch {
                Some(x) => {
                    collect_expr(x, acc);
                    proof {
                        lemma_add_all_cat(a0, head, names_in(**x));
                    }
                },
                None => {
                    proof {
                        assert(head + Seq::<Seq<char>>::empty() =~= head);
                    }
                },
            }
        },
        Expr::Binary { op: _, left, right } => {
            collect_expr(left, acc);
            collect_expr(right, acc);
            proof {
                lemma_add_all_cat(a0, names_in(**left), names_in(**right));
            }
        },
        Expr::Not { expr } => collect_expr(expr, acc),
        Expr::Assign { left, right } => {
            collect_expr(left, acc);
            collect_expr(right, acc);
            proof {
                lemma_add_all_cat(a0, names_in(**left), names_in(**right));
            }
        },
        Expr::Return { value } => {
            match value {
                Some(x) => collect_expr(x, acc),
                None => {},
            }
        },
        Expr::Paren { expr } => collect_expr(expr, acc),
        Expr::Group { expr } => collect_expr(expr, acc),
        Expr::Reference { mutable: _, expr } => collect_expr(expr, acc),
        Expr::Macro(_) => {},
        Expr::Other { kind: _, parts, stmts } => {
            collect_exprs(parts, acc);
            collect_stmts(stmts, acc);
            proof {
                lemma_add_all_cat(a0, names_in_all(parts@), names_in_stmts(stmts@));
            }
        },
    }
}

fn collect_exprs(v: &Vec<Expr>, acc: &mut Vec<String>)
    ensures
        final(acc).deep_view() == add_all(old(acc).deep_view(), names_in_all(v@)),
    decreases v@,
{
    let ghost a0 = acc.deep_view();
    let mut i: usize = 0;
    proof {
        assert(v@.take(0) =~= Seq::<Expr>::empty());
    }
    while i < v.len()
        invariant
            i <= v@.len(),
            acc.deep_view() == add_all(a0, names_in_all(v@.take(i as int))),
        decreases v@.len() - i,
    {
        collect_expr(&v[i], acc);
        proof {
            let t = v@.take(i + 1);
            assert(t.drop_last() =~= v@.take(i as int));
            assert(t.last() == v@[i as int]);
            lemma_add_all_cat(a0, names_in_all(v@.take(i as int)), names_in(v@[i as int]));
        }
        i = i + 1;
    }
    proof {
        assert(v@.take(i as int) =~= v@);
    }
}

fn collect_stmts(v: &Vec<Stmt>, acc: &mut Vec<String>)
    ensures
        final(acc).deep_view() == add_all(old(acc).deep_view(), names_in_stmts(v@)),
    decreases v@,
{
    let ghost a0 = acc.deep_view();
    let mut i: usize = 0;
    proof {
        assert(v@.take(0) =~= Seq::<Stmt>::empty());
    }
    while i < v.len()
        invariant
            i <= v@.len(),
            acc.deep_view() == add_all(a0, names_in_stmts(v@.take(i as int))),
        decreases v@.len() - i,
    {
        let ghost a1 = acc.deep_view();
        match &v[i] {
            Stmt::Local { pat: _, init } => {
                match init {
                    Some(n) => {
                        collect_expr(&n.expr, acc);
                        match &n.diverge {
                            Some(x) => {
                                collect_expr(x, acc);
                                proof {
                                    lemma_add_all_cat(a1, names_in(n.expr), names_in(**x));
                                }
                            },
                            None => {
                                proof {
                                    assert(names_in(n.expr) + Seq::<Seq<char>>::empty()
                                        =~= names_in(n.expr));
                                }
                            },
                        }
                    },
                    None => {},
                }
            },
            Stmt::Expr { expr, semi: _ } => collect_expr(expr, acc),
            Stmt::Macro(_) => {},
            Stmt::Item => {},
        }
        proof {
            let t = v@.take(i + 1);
            assert(t.drop_last() =~= v@.take(i as int));
            assert(t.last() == v@[i as int]);
            lemma_add_all_cat(a0, names_in_stmts(v@.take(i as int)), names_in_stmt(v@[i as int]));
        }
        i = i + 1;
    }
    proof {
        assert(v@.take(i as int) =~= v@);
    }
}

/// The plain names that statements mention, each once, in order of appearance.
pub fn referenced_idents(stmts: &Vec<Stmt>) -> (r: Vec<String>)
    ensures
        r.deep_view() == add_all(Seq::empty(), names_in_stmts(stmts@)),
{
    let mut acc: Vec<String> = Vec::new();
    proof {
        assert(acc.deep_view() =~= Seq::<Seq<char>>::empty());
    }
    collect_stmts(stmts, &mut acc);
    acc
}

pub open spec fn operand_names(o: OperandView) -> Seq<Seq<char>> {
    match o {
        OperandView::Hoisted(n) => seq![n],
        OperandView::Plain(e) => names_in(e),
    }
}

/// The names in a condition, in source order.
pub open spec fn cond_names(c: CondView) -> Seq<Seq<char>>
    decreases c,
{
    match c {
        CondView::Rel { op: _, lhs, rhs } => operand_names(lhs) + operand_names(rhs),
        CondView::And(x, y) => cond_names(*x) + cond_names(*y),
        CondView::Or(x, y) => cond_names(*x) + cond_names(*y),
        CondView::Not(x) => cond_names(*x),
        CondView::Truthy(o) => operand_names(o),
        CondView::Outside(e) => names_in(e),
    }
}

fn collect_operand(o: &Operand, acc: &mut Vec<String>)
    ensures
        final(acc).deep_view() == add_all(old(acc).deep_view(), operand_names(o.deep_view())),
{
    match o {
        Operand::Hoisted(n) => {
            proof {
                lemma_add_one(acc.deep_view(), n@);
            }
            add_name(acc, n.as_str());
        },
        Operand::Plain(e) => collect_expr(e, acc),
    }
}

/// Adds the names in a condition that are not there yet.
pub fn collect_cond(c: &Cond, acc: &mut Vec<String>)
    ensures
        final(acc).deep_view() == add_all(old(acc).deep_view(), cond_names(c.deep_view())),
    decreases *c,
{
    let ghost a0 = acc.deep_view();
    match c {
        Cond::Rel { op: _, lhs, rhs } => {
            collect_operand(lhs, acc);
            collect_operand(rhs, acc);
            proof {
                lemma_add_all_cat(
                    a0,
                    operand_names(lhs.deep_view()),
                    operand_names(rhs.deep_view()),
                );
            }
        },
        Cond::And(x, y) => {
            collect_cond(x, acc);
            collect_cond(y, acc);
            proof {
                lemma_add_all_cat(a0, cond_names(x.deep_view()), cond_names(y.deep_view()));
            }
        },
        Cond::Or(x, y) => {
            collect_cond(x, acc);
            collect_cond(y, acc);
            proof {
                lemma_add_all_cat(a0, cond_names(x.deep_view()), cond_names(y.deep_view()));
            }
        },
        Cond::Not(x) => collect_cond(x, acc),
        Cond::Truthy(o) => collect_operand(o, acc),
        Cond::Outside(e) => collect_expr(e, acc),
    }
}

/// Whether a `let` directly among the statements binds `n`.
pub open spec fn binds(stmts: Seq<Stmt>, n: Seq<char>) -> bool {
    exists|i: int| 0 <= i < stmts.len() && stmt_binds(#[trigger] stmts[i], n)
}

pub open spec fn stmt_binds(s: Stmt, n: Seq<char>) -> bool {
    match s {
        Stmt::Local { pat, init: _ } => bound_name(pat) == Ok::<Option<Seq<char>>, Seq<char>>(
            Some(n),
        ),
        _ => false,
    }
}

/// Whether a `let` directly among the statements binds `n`.
pub fn locally_bound(stmts: &Vec<Stmt>, n: &str) -> (r: bool)
    ensures
        r == binds(stmts@, n@),
{
    let mut i: usize = 0;
    while i < stmts.len()
        invariant
            i <= stmts@.len(),
            forall|j: int| 0 <= j < i ==> !stmt_binds(#[trigger] stmts@[j], n@),
        decreases stmts@.len() - i,
    {
        match &stmts[i] {
            Stmt::Local { pat, init: _ } => match local_binding(pat) {
                Ok(Some(m)) => {
                    if str_eq(m.as_str(), n) {
                        proof {
                            assert(stmt_binds(stmts@[i as int], n@));
                        }
                        return true;
                    }
                },
                _ => {},
            },
            _ => {},
        }
        i = i + 1;
    }
    false
}

} // verus!
