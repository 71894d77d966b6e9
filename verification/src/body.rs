//! Whole workflow bodies: statements, and the workflows that `if` becomes.
//!
//! An `if` / `else if` / `else` becomes one wrapper workflow that holds one task
//! per arm, each guarded by a condition of its own, and one workflow per arm.

use crate::analyze::{
    bad_closure, bound_name, fan_of, fan_out_bad_closure, fan_parts, fan_source, fan_src,
    local_binding, opt_view, path_leaf, peel_builders, peeled, push_call, push_of, uniq_task,
    unique_name, NodeOpts, NodeOptsView, Pushed, Scope,
};
use crate::ast::{
    call_of, call_parts, core_of, lemma_core, unwrap_expr, Expr, IfExpr, OtherKind, Path, PathView,
    Stmt,
};
use crate::conditional::{
    binds, collect_cond, cond_ident, cond_name, cond_names, cond_to_when, hoist_cond, hoisted,
    locally_bound, names_in_stmts, referenced_idents, render_when, when_of, when_text, Cond,
    CondView, Hoist, RelOp, Seen, WhenExpr, WhenExprView, WhenOpView,
};
use crate::folds::{add_all, lemma_map_res_all, lemma_map_res_step, map_res};
use crate::maps::{Data, TextMap};
use crate::names::{misread, yaml_ambiguous};
use crate::node::{
    agrees, Arg, ArgView, FanSrc, HookView, Node, NodeView, SynthOut, SynthOutView, SynthWf,
    SynthWfView,
};
use crate::scope::{
    callee_paths, distinct_paths, fallible_task, fan_list, fan_task, may_fail, retag_refs, retagged,
};
use crate::text::{cat2, cat3, cat5, dec, decimal, has_str};
use vstd::prelude::*;

verus! {

pub const UNSUPPORTED_STMT: &'static str = "unsupported statement in a #[workflow]. \
Only `let x = template(args);`, `template(args);`, and \
`if`/`else if`/`else` are lowered. Anything else is rejected so a step is \
never silently dropped.";

pub const FOR_LOOP: &'static str = "`for` loops aren't lowered. For per-element parallel work use \
`list.fan_out(|x| step(x))`; for sequential work, thread a return \
value through to make the dependency explicit.";

pub const WHILE_LOOP: &'static str = "`while`/`loop` aren't lowered. A #[workflow] body is read \
once to build the DAG, not iterated at runtime. Move the loop \
inside a #[container] body, or use `.fan_out` for parallelism.";

pub const MATCH_STMT: &'static str = "`match` isn't lowered yet. For exclusive branches in a #[workflow], \
use `if` / `else if` / `else` (supported).";

pub const METHOD_CHAIN: &'static str = "(..)` isn't a supported chain in a #[workflow]. \
The lowered chains are `.clone()`/`.to_owned()` on args, \
`.fan_out(|x| C(x, ..))`, `.continue_on(..)`, \
`.on_success(..)`/`.on_failure(..)`/`.on_error(..)`/\
`.on_exit(..)`/`.hook_if(..)`.";

pub const TRY_STMT: &'static str = "`?` (the Try operator) isn't supported in a #[workflow] body. \
Templates can't propagate errors via Rust's Try; use \
`.continue_on(failed, error)` to let dependents proceed when a \
step fails.";

pub const ASYNC_STMT: &'static str = "`async`/`await` isn't supported in a #[workflow] body. \
The workflow is statically analyzed at compile time; the steps \
run in pods, not here. (For async work *inside* a container, \
`#[container] async fn` works with the `tokio` feature.)";

pub const CLOSURE_STMT: &'static str = "a bare closure isn't a statement in a #[workflow]. The only \
place a closure is accepted is inside `.fan_out(|x| C(x, ..))`.";

pub const BLOCK_STMT: &'static str = "a bare block isn't a statement in a #[workflow]. Each step \
must be a single template call; group with a sub-#[workflow] \
if you want reusable composition.";

pub const UNSAFE_STMT: &'static str = "`unsafe` blocks aren't a workflow statement. A #[workflow] \
body only describes the DAG; put any unsafe code inside a \
#[container] body (it runs there).";

pub const NOT_A_TEMPLATE_CALL: &'static str = "expected a template call `name(args)`. \
Only #[container] and #[workflow] are templates - #[fragment]s and regular \
functions can't be called from a #[workflow] body.";

pub const FAN_OUT_BODY_NOT_A_CALL: &'static str = "a `.fan_out(|x| …)` closure body must \
be a single template call like `step(x)` or `step(x, lit)`. The closure \
runs once per element; its return value joins the aggregated `Vec`.";

pub const MACRO_IN_WORKFLOW: &'static str = "macros aren't lowered to workflow steps. \
A macro call here would be dropped from the DAG. If you need pod resources \
(`host!`, `secret!`, `load_artifact!`, `save_artifact!`), declare them \
inside a #[container] body; only container bodies actually run.";

pub const NESTED_ITEM: &'static str = "nested items (fn / mod / struct / enum / etc.) aren't \
lowered in a #[workflow] body. Move helpers to the \
surrounding module.";

pub const RETURN_UNRESOLVED: &'static str = "this #[workflow] declares a return type but \
its returned value isn't produced by a template call. End with a tail \
template call `name(args)` (no `;`) or return a `let` binding from one.";

pub const LET_WITHOUT_INIT: &'static str = "a #[workflow] `let` must bind a template call or \
`if`: `let x = template(args);`.";

pub const LET_ELSE: &'static str = "`let ... else` is not supported in #[workflow].";

pub const EARLY_RETURN: &'static str = "`return` must be the last statement of a #[workflow] \
body — later statements would still run as DAG tasks \
in Argo (nothing is unreachable in a compiled workflow)";

pub const EMPTY_RETURN: &'static str = "#[workflow] `return` must return a template result.";

pub const BUILDER_ON_BINDING: &'static str = "`.continue_on`/`.hooks`/`.on_exit` \
must be chained on a template \
call, not a returned binding.";

pub const FAN_RETURN_UNSUPPORTED: &'static str = "a `fan_out` binding cannot be returned as the workflow's value (the raw \
Argo aggregate's elements are individually JSON-encoded, so the parent would \
read a double-encoded array). Pass the binding to a consuming template inside \
this workflow and return that instead.";

pub const FALLIBLE_RETURN_UNSUPPORTED: &'static str = "a `.continue_on(..)` binding is a `Result<T, ArgoError>` and can't be \
returned as the workflow's value. Pass it to a consuming template inside \
this workflow and return that instead.";

pub const VALUE_IF_WITHOUT_ELSE: &'static str = "an `if` used as a value needs an `else` (both branches must \
produce the value) — Rust requires this too.";

pub const TOO_MANY_IFS: &'static str = "too many `if`s in one #[workflow].";

/// The advice for a statement that is not lowered.
pub open spec fn stmt_message(e: Expr) -> Seq<char> {
    match e {
        Expr::MethodCall { receiver: _, method, args: _ } => "`."@ + method@ + METHOD_CHAIN@,
        Expr::Closure { inputs: _, body: _ } => CLOSURE_STMT@,
        Expr::Block { stmts: _ } => BLOCK_STMT@,
        Expr::Other { kind, parts: _, stmts: _ } => match kind {
            OtherKind::ForLoop => FOR_LOOP@,
            OtherKind::While => WHILE_LOOP@,
            OtherKind::Loop => WHILE_LOOP@,
            OtherKind::Match => MATCH_STMT@,
            OtherKind::Try => TRY_STMT@,
            OtherKind::Async => ASYNC_STMT@,
            OtherKind::Await => ASYNC_STMT@,
            OtherKind::Unsafe => UNSAFE_STMT@,
            OtherKind::Plain => UNSUPPORTED_STMT@,
        },
        _ => UNSUPPORTED_STMT@,
    }
}

/// The advice for a statement that is not lowered.
pub fn unsupported_stmt_msg(e: &Expr) -> (r: String)
    ensures
        r@ == stmt_message(*e),
{
    match e {
        Expr::MethodCall { receiver: _, method, args: _ } => cat3(
            "`.",
            method.as_str(),
            METHOD_CHAIN,
        ),
        Expr::Closure { inputs: _, body: _ } => CLOSURE_STMT.to_owned(),
        Expr::Block { stmts: _ } => BLOCK_STMT.to_owned(),
        Expr::Other { kind, parts: _, stmts: _ } => match kind {
            OtherKind::ForLoop => FOR_LOOP.to_owned(),
            OtherKind::While => WHILE_LOOP.to_owned(),
            OtherKind::Loop => WHILE_LOOP.to_owned(),
            OtherKind::Match => MATCH_STMT.to_owned(),
            OtherKind::Try => TRY_STMT.to_owned(),
            OtherKind::Async => ASYNC_STMT.to_owned(),
            OtherKind::Await => ASYNC_STMT.to_owned(),
            OtherKind::Unsafe => UNSAFE_STMT.to_owned(),
            OtherKind::Plain => UNSUPPORTED_STMT.to_owned(),
        },
        _ => UNSUPPORTED_STMT.to_owned(),
    }
}

// ---- arms ------------------------------------------------------------------------
/// The arms of an `if` chain: each condition with its body, and the `else`
/// without a condition.
pub open spec fn arms_of(i: IfExpr) -> Seq<(Option<Expr>, Seq<Stmt>)>
    decreases i,
{
    seq![(Some(*i.cond), i.then_branch@)] + match i.else_branch {
        Some(x) => match *x {
            Expr::If(n) => arms_of(n),
            Expr::Block { stmts } => seq![(None, stmts@)],
            _ => Seq::empty(),
        },
        None => Seq::empty(),
    }
}

pub proof fn lemma_arms(i: IfExpr)
    ensures
        arms_of(i).len() > 0,
        forall|j: int|
            0 <= j < arms_of(i).len() ==> (#[trigger] decreases_to!(i => arms_of(i)[j].1)),
        forall|j: int| 0 <= j < arms_of(i).len() - 1 ==> (#[trigger] arms_of(i)[j]).0 is Some,
    decreases i,
{
    match i.else_branch {
        Some(x) => match *x {
            Expr::If(n) => {
                lemma_arms(n);
                assert forall|j: int| 0 <= j < arms_of(i).len() implies (#[trigger] decreases_to!(
                i => arms_of(i)[j].1)) by {
                    if j > 0 {
                        assert(arms_of(i)[j] == arms_of(n)[j - 1]);
                        assert(decreases_to!(n => arms_of(n)[j - 1].1));
                    }
                }
                assert forall|j: int| 0 <= j < arms_of(i).len() - 1 implies (
                #[trigger] arms_of(i)[j]).0 is Some by {
                    if j > 0 {
                        assert(arms_of(i)[j] == arms_of(n)[j - 1]);
                    }
                }
            },
            _ => {},
        },
        None => {},
    }
}

/// An arm of an `if` chain: its condition, and its body.
pub struct Arm<'a> {
    pub cond: Option<&'a Expr>,
    pub body: &'a Vec<Stmt>,
}

pub open spec fn arm_view(a: Arm<'_>) -> (Option<Expr>, Seq<Stmt>) {
    (
        match a.cond {
            Some(c) => Some(*c),
            None => None,
        },
        a.body@,
    )
}

impl<'a> DeepView for Arm<'a> {
    type V = (Option<Expr>, Seq<Stmt>);

    open spec fn deep_view(&self) -> (Option<Expr>, Seq<Stmt>) {
        arm_view(*self)
    }
}

/// Lists the arms of an `if` chain in order.
pub fn if_arms<'a>(i: &'a IfExpr) -> (r: Vec<Arm<'a>>)
    ensures
        r.deep_view() == arms_of(*i),
    decreases *i,
{
    let first: Arm = Arm { cond: Some(&*i.cond), body: &i.then_branch };
    let mut out: Vec<Arm> = Vec::new();
    let ghost fv = first.deep_view();
    out.push(first);
    proof {
        assert(out.deep_view() =~= seq![fv]);
    }
    match &i.else_branch {
        Some(x) => match &**x {
            Expr::If(n) => {
                let mut rest = if_arms(n);
                let ghost rv = rest.deep_view();
                out.append(&mut rest);
                proof {
                    assert(out.deep_view() =~= seq![fv] + rv);
                }
            },
            Expr::Block { stmts } => {
                let last: Arm = Arm { cond: None, body: stmts };
                let ghost lv = last.deep_view();
                out.push(last);
                proof {
                    assert(out.deep_view() =~= seq![fv] + seq![lv]);
                }
            },
            _ => {
                proof {
                    assert(seq![fv] + Seq::empty() =~= seq![fv]);
                }
            },
        },
        None => {
            proof {
                assert(seq![fv] + Seq::empty() =~= seq![fv]);
            }
        },
    }
    out
}

// ---- captures ----------------------------------------------------------------------
/// The conditions of the first `n` arms, with their template calls made into
/// tasks.
pub open spec fn conds_upto(
    arms: Seq<(Option<Expr>, Seq<Stmt>)>,
    n: nat,
    b: Scope,
    ins: Seq<Seq<char>>,
    st: Hoist,
) -> Result<(Seq<Option<CondView>>, Hoist), Seq<char>>
    decreases n,
{
    if n == 0 || n > arms.len() {
        Ok((Seq::empty(), st))
    } else {
        match conds_upto(arms, (n - 1) as nat, b, ins, st) {
            Err(m) => Err(m),
            Ok((cs, s1)) => match arms[n - 1].0 {
                Some(e) => match hoisted(e, b, ins, s1) {
                    Err(m) => Err(m),
                    Ok((c, s2)) => Ok((cs.push(Some(c)), s2)),
                },
                None => Ok((cs.push(None), s1)),
            },
        }
    }
}

proof fn lemma_conds_err(
    arms: Seq<(Option<Expr>, Seq<Stmt>)>,
    i: nat,
    n: nat,
    b: Scope,
    ins: Seq<Seq<char>>,
    st: Hoist,
)
    requires
        i <= n <= arms.len(),
        conds_upto(arms, i, b, ins, st) is Err,
    ensures
        conds_upto(arms, n, b, ins, st) == conds_upto(arms, i, b, ins, st),
    decreases n,
{
    if i < n {
        lemma_conds_err(arms, i, (n - 1) as nat, b, ins, st);
    }
}

/// The bindings in scope together with the tasks that conditions made.
pub open spec fn with_conds(b: Scope, seen: Seq<(Seq<char>, Seq<char>)>) -> Scope
    decreases seen.len(),
{
    if seen.len() == 0 {
        b
    } else {
        with_conds(b, seen.drop_last()).insert(cond_name((seen.len() - 1) as nat), seen.last().1)
    }
}

pub open spec fn free_fn(body: Seq<Stmt>) -> spec_fn(Seq<char>) -> bool {
    |n: Seq<char>| !binds(body, n)
}

/// The names that a body mentions and does not bind itself.
pub open spec fn free_names(body: Seq<Stmt>) -> Seq<Seq<char>> {
    add_all(Seq::<Seq<char>>::empty(), names_in_stmts(body)).filter(free_fn(body))
}

/// The names that the first `n` arms mention: free names of the body, then
/// those of the condition.
pub open spec fn mentions(
    arms: Seq<(Option<Expr>, Seq<Stmt>)>,
    conds: Seq<Option<CondView>>,
    n: nat,
) -> Seq<Seq<char>>
    decreases n,
{
    if n == 0 {
        Seq::empty()
    } else {
        let body = add_all(mentions(arms, conds, (n - 1) as nat), free_names(arms[n - 1].1));
        match conds[n - 1] {
            Some(c) => add_all(body, cond_names(c)),
            None => body,
        }
    }
}

pub open spec fn in_scope_fn(b: Scope, ins: Seq<Seq<char>>) -> spec_fn(Seq<char>) -> bool {
    |n: Seq<char>| b.dom().contains(n) || ins.contains(n)
}

/// The names of the enclosing scope that an `if` uses.
pub open spec fn captures_of(
    arms: Seq<(Option<Expr>, Seq<Stmt>)>,
    conds: Seq<Option<CondView>>,
    b: Scope,
    ins: Seq<Seq<char>>,
) -> Seq<Seq<char>> {
    mentions(arms, conds, arms.len()).filter(in_scope_fn(b, ins))
}

pub open spec fn capture_name(c: Seq<char>) -> Result<(), Seq<char>> {
    match misread(c) {
        Some(why) => Err(
            "the `if` captures `"@ + c
                + "`, which becomes an Argo parameter name a YAML 1.1 parser reads as "@ + why
                + ". Rename that binding/input."@,
        ),
        None => Ok(()),
    }
}

pub open spec fn capture_name_fn() -> spec_fn(Seq<char>) -> Result<(), Seq<char>> {
    |c: Seq<char>| capture_name(c)
}

fn check_captures(caps: &Vec<String>) -> (r: Result<(), String>)
    ensures
        match (r, map_res(caps.deep_view(), capture_name_fn())) {
            (Ok(_), Ok(_)) => true,
            (Err(m), Err(n)) => m@ == n,
            _ => false,
        },
{
    let ghost all = caps.deep_view();
    let ghost f = capture_name_fn();
    let mut i: usize = 0;
    proof {
        lemma_map_res_all(all, f);
    }
    while i < caps.len()
        invariant
            all == caps.deep_view(),
            f == capture_name_fn(),
            i <= caps@.len(),
            map_res(all.take(i as int), f) is Ok,
        decreases caps@.len() - i,
    {
        proof {
            lemma_map_res_step(all, f, i as int);
        }
        match yaml_ambiguous(caps[i].as_str()) {
            Some(why) => {
                return Err(
                    cat5(
                        "the `if` captures `",
                        caps[i].as_str(),
                        "`, which becomes an Argo parameter name a YAML 1.1 parser reads as ",
                        why,
                        ". Rename that binding/input.",
                    ),
                );
            },
            None => {},
        }
        i = i + 1;
    }
    proof {
        lemma_map_res_all(all, f);
    }
    Ok(())
}

fn hoist_conds<'a>(
    arms: &Vec<Arm<'a>>,
    used: &mut Vec<String>,
    nodes: &mut Vec<Node>,
    bindings: &TextMap<String>,
    inputs: &Vec<String>,
    seen: &mut Seen,
) -> (r: Result<Vec<Option<Cond<'a>>>, String>)
    ensures
        match (
            r,
            conds_upto(
                arms.deep_view(),
                arms.deep_view().len(),
                bindings.deep_view(),
                inputs.deep_view(),
                (Hoist {
                    used: old(used).deep_view(),
                    nodes: old(nodes).deep_view(),
                    seen: old(seen).deep_view(),
                }),
            ),
        ) {
            (Ok(cs), Ok((cv, h))) => {
                &&& cs.deep_view() == cv
                &&& cs@.len() == arms@.len()
                &&& final(used).deep_view() == h.used
                &&& final(nodes).deep_view() == h.nodes
                &&& final(seen).deep_view() == h.seen
            },
            (Err(m), Err(n)) => m@ == n,
            _ => false,
        },
{
    let ghost av = arms.deep_view();
    let ghost b = bindings.deep_view();
    let ghost ins = inputs.deep_view();
    let ghost start = Hoist {
        used: used.deep_view(),
        nodes: nodes.deep_view(),
        seen: seen.deep_view(),
    };
    let mut out: Vec<Option<Cond>> = Vec::new();
    let mut i: usize = 0;
    proof {
        assert(out.deep_view() =~= Seq::<Option<CondView>>::empty());
    }
    while i < arms.len()
        invariant
            av == arms.deep_view(),
            b == bindings.deep_view(),
            ins == inputs.deep_view(),
            start == (Hoist {
                used: old(used).deep_view(),
                nodes: old(nodes).deep_view(),
                seen: old(seen).deep_view(),
            }),
            i <= arms@.len(),
            out@.len() == i,
            conds_upto(av, i as nat, b, ins, start) == Ok::<
                (Seq<Option<CondView>>, Hoist),
                Seq<char>,
            >(
                (
                    out.deep_view(),
                    Hoist {
                        used: used.deep_view(),
                        nodes: nodes.deep_view(),
                        seen: seen.deep_view(),
                    },
                ),
            ),
        decreases arms@.len() - i,
    {
        let ghost before = out.deep_view();
        let c: Option<Cond> = match arms[i].cond {
            Some(e) => match hoist_cond(e, used, nodes, bindings, inputs, seen) {
                Ok(c) => Some(c),
                Err(m) => {
                    proof {
                        lemma_conds_err(av, (i + 1) as nat, av.len(), b, ins, start);
                    }
                    return Err(m);
                },
            },
            None => None,
        };
        let ghost cv = c.deep_view();
        out.push(c);
        i = i + 1;
        proof {
            assert(out.deep_view() =~= before.push(cv));
        }
    }
    Ok(out)
}

fn add_conds(bindings: &TextMap<String>, seen: &Seen) -> (r: TextMap<String>)
    ensures
        r.deep_view() == with_conds(bindings.deep_view(), seen.deep_view()),
{
    let ghost all = seen.deep_view();
    let mut out: TextMap<String> = bindings.dup();
    let mut i: usize = 0;
    proof {
        assert(all.take(0) =~= Seq::<(Seq<char>, Seq<char>)>::empty());
    }
    while i < seen.calls.len()
        invariant
            all == seen.deep_view(),
            i <= seen.calls@.len(),
            out.deep_view() == with_conds(bindings.deep_view(), all.take(i as int)),
        decreases seen.calls@.len() - i,
    {
        proof {
            let t = all.take(i + 1);
            assert(t.drop_last() =~= all.take(i as int));
            assert(t.last() == all[i as int]);
            assert(all[i as int].1 == seen.calls@[i as int].1@);
        }
        out.insert(cond_ident(i), seen.calls[i].1.clone());
        i = i + 1;
    }
    proof {
        assert(all.take(i as int) =~= all);
    }
    out
}

fn add_free(body: &Vec<Stmt>, acc: &mut Vec<String>)
    ensures
        final(acc).deep_view() == add_all(old(acc).deep_view(), free_names(body@)),
{
    let ghost a0 = acc.deep_view();
    let names: Vec<String> = referenced_idents(body);
    let ghost all = names.deep_view();
    let ghost f = free_fn(body@);
    let mut i: usize = 0;
    proof {
        reveal(Seq::filter);
        assert(all.take(0) =~= Seq::<Seq<char>>::empty());
        assert(add_all(a0, all.take(0).filter(f)) == a0);
    }
    while i < names.len()
        invariant
            all == names.deep_view(),
            f == free_fn(body@),
            i <= names@.len(),
            acc.deep_view() == add_all(a0, all.take(i as int).filter(f)),
        decreases names@.len() - i,
    {
        proof {
            let t = all.take(i + 1);
            assert(t.drop_last() =~= all.take(i as int));
            assert(t.last() == all[i as int]);
            assert(all[i as int] == names@[i as int]@);
            reveal(Seq::filter);
            crate::folds::lemma_add_all_push(a0, all.take(i as int).filter(f), all[i as int]);
        }
        if !locally_bound(body, names[i].as_str()) {
            crate::conditional::add_name(acc, names[i].as_str());
        }
        i = i + 1;
    }
    proof {
        assert(all.take(i as int) =~= all);
    }
}

fn find_captures(
    arms: &Vec<Arm>,
    conds: &Vec<Option<Cond>>,
    bindings: &TextMap<String>,
    inputs: &Vec<String>,
) -> (r: Vec<String>)
    requires
        conds@.len() == arms@.len(),
    ensures
        r.deep_view() == captures_of(
            arms.deep_view(),
            conds.deep_view(),
            bindings.deep_view(),
            inputs.deep_view(),
        ),
{
    let ghost av = arms.deep_view();
    let ghost cv = conds.deep_view();
    let mut refs: Vec<String> = Vec::new();
    let mut i: usize = 0;
    proof {
        assert(refs.deep_view() =~= Seq::<Seq<char>>::empty());
    }
    while i < arms.len()
        invariant
            av == arms.deep_view(),
            cv == conds.deep_view(),
            conds@.len() == arms@.len(),
            i <= arms@.len(),
            refs.deep_view() == mentions(av, cv, i as nat),
        decreases arms@.len() - i,
    {
        add_free(arms[i].body, &mut refs);
        proof {
            assert(av[i as int].1 == arms@[i as int].body@);
            assert(cv[i as int] == conds@[i as int].deep_view());
        }
        match &conds[i] {
            Some(c) => collect_cond(c, &mut refs),
            None => {},
        }
        i = i + 1;
    }
    let ghost all = refs.deep_view();
    let ghost f = in_scope_fn(bindings.deep_view(), inputs.deep_view());
    let mut out: Vec<String> = Vec::new();
    let mut k: usize = 0;
    proof {
        reveal(Seq::filter);
        assert(all.take(0) =~= Seq::<Seq<char>>::empty());
        assert(out.deep_view() =~= all.take(0).filter(f));
    }
    while k < refs.len()
        invariant
            all == refs.deep_view(),
            f == in_scope_fn(bindings.deep_view(), inputs.deep_view()),
            k <= refs@.len(),
            out.deep_view() == all.take(k as int).filter(f),
        decreases refs@.len() - k,
    {
        proof {
            let t = all.take(k + 1);
            assert(t.drop_last() =~= all.take(k as int));
            assert(t.last() == all[k as int]);
            assert(all[k as int] == refs@[k as int]@);
            reveal(Seq::filter);
        }
        let ghost before = out.deep_view();
        let n: &str = refs[k].as_str();
        if bindings.get(n).is_some() || has_str(inputs, n) {
            out.push(refs[k].clone());
            proof {
                assert(out.deep_view() =~= before.push(refs@[k as int]@));
            }
        }
        k = k + 1;
    }
    proof {
        assert(all.take(k as int) =~= all);
    }
    out
}

// ---- gates ------------------------------------------------------------------------
pub open spec fn conj(g: Option<WhenExprView>, w: WhenExprView) -> Option<WhenExprView> {
    match g {
        None => Some(w),
        Some(p) => Some(WhenExprView::And(Box::new(p), Box::new(w))),
    }
}

/// That none of the first `n` conditions holds.
pub open spec fn none_of_upto(conds: Seq<Option<CondView>>, n: nat, ins: Seq<Seq<char>>) -> Result<
    Option<WhenExprView>,
    Seq<char>,
>
    decreases n,
{
    if n == 0 {
        Ok(None)
    } else {
        match none_of_upto(conds, (n - 1) as nat, ins) {
            Err(m) => Err(m),
            Ok(g) => match conds[n - 1] {
                Some(c) => match when_of(c, Map::empty(), ins) {
                    Err(m) => Err(m),
                    Ok(w) => Ok(conj(g, WhenExprView::Not(Box::new(w)))),
                },
                None => Ok(g),
            },
        }
    }
}

/// When arm `j` runs: none of the conditions before it holds, and its own
/// does.
pub open spec fn gate_of(conds: Seq<Option<CondView>>, j: nat, ins: Seq<Seq<char>>) -> Result<
    Option<WhenExprView>,
    Seq<char>,
> {
    match none_of_upto(conds, j, ins) {
        Err(m) => Err(m),
        Ok(g) => match conds[j as int] {
            Some(c) => match when_of(c, Map::empty(), ins) {
                Err(m) => Err(m),
                Ok(w) => Ok(conj(g, w)),
            },
            None => Ok(g),
        },
    }
}

proof fn lemma_none_of_err(conds: Seq<Option<CondView>>, i: nat, n: nat, ins: Seq<Seq<char>>)
    requires
        i <= n,
        none_of_upto(conds, i, ins) is Err,
    ensures
        none_of_upto(conds, n, ins) == none_of_upto(conds, i, ins),
    decreases n,
{
    if i < n {
        lemma_none_of_err(conds, i, (n - 1) as nat, ins);
    }
}

fn and_also(g: Option<WhenExpr>, w: WhenExpr) -> (r: Option<WhenExpr>)
    ensures
        r.deep_view() == conj(g.deep_view(), w.deep_view()),
{
    match g {
        None => Some(w),
        Some(p) => Some(WhenExpr::And(Box::new(p), Box::new(w))),
    }
}

fn build_gate(conds: &Vec<Option<Cond>>, j: usize, inputs: &Vec<String>) -> (r: Result<
    Option<WhenExpr>,
    String,
>)
    requires
        j < conds@.len(),
    ensures
        agrees(r, gate_of(conds.deep_view(), j as nat, inputs.deep_view())),
{
    let ghost cv = conds.deep_view();
    let ghost ins = inputs.deep_view();
    let none: TextMap<String> = TextMap::new();
    let mut g: Option<WhenExpr> = None;
    let mut i: usize = 0;
    while i < j
        invariant
            cv == conds.deep_view(),
            ins == inputs.deep_view(),
            none.deep_view() == Map::<Seq<char>, Seq<char>>::empty(),
            i <= j < conds@.len(),
            none_of_upto(cv, i as nat, ins) == Ok::<Option<WhenExprView>, Seq<char>>(
                g.deep_view(),
            ),
        decreases j - i,
    {
        proof {
            assert(cv[i as int] == conds@[i as int].deep_view());
        }
        match &conds[i] {
            Some(c) => match cond_to_when(c, &none, inputs) {
                Ok(w) => {
                    g = and_also(g, WhenExpr::Not(Box::new(w)));
                },
                Err(m) => {
                    proof {
                        lemma_none_of_err(cv, (i + 1) as nat, j as nat, ins);
                    }
                    return Err(m);
                },
            },
            None => {},
        }
        i = i + 1;
    }
    proof {
        assert(cv[j as int] == conds@[j as int].deep_view());
    }
    match &conds[j] {
        Some(c) => match cond_to_when(c, &none, inputs) {
            Ok(w) => Ok(and_also(g, w)),
            Err(m) => Err(m),
        },
        None => Ok(g),
    }
}

/// Whether a condition holds, where `rel` decides comparisons and `truth`
/// decides bare operands.
pub open spec fn holds(
    w: WhenExprView,
    rel: spec_fn(WhenOpView, RelOp, WhenOpView) -> bool,
    truth: spec_fn(WhenOpView) -> bool,
) -> bool
    decreases w,
{
    match w {
        WhenExprView::Rel { lhs, op, rhs } => rel(lhs, op, rhs),
        WhenExprView::And(a, b) => holds(*a, rel, truth) && holds(*b, rel, truth),
        WhenExprView::Or(a, b) => holds(*a, rel, truth) || holds(*b, rel, truth),
        WhenExprView::Not(a) => !holds(*a, rel, truth),
        WhenExprView::Truthy(o) => truth(o),
    }
}

/// Whether a gate lets its arm run; no gate always does.
pub open spec fn opens(
    g: Option<WhenExprView>,
    rel: spec_fn(WhenOpView, RelOp, WhenOpView) -> bool,
    truth: spec_fn(WhenOpView) -> bool,
) -> bool {
    match g {
        Some(w) => holds(w, rel, truth),
        None => true,
    }
}

proof fn lemma_none_of(
    conds: Seq<Option<CondView>>,
    i: nat,
    n: nat,
    ins: Seq<Seq<char>>,
    rel: spec_fn(WhenOpView, RelOp, WhenOpView) -> bool,
    truth: spec_fn(WhenOpView) -> bool,
)
    requires
        i < n <= conds.len(),
        none_of_upto(conds, n, ins) is Ok,
        conds[i as int] is Some,
    ensures
        none_of_upto(conds, i, ins) is Ok,
        when_of(conds[i as int]->0, Map::empty(), ins) is Ok,
        opens(none_of_upto(conds, n, ins)->Ok_0, rel, truth) ==> !holds(
            when_of(conds[i as int]->0, Map::empty(), ins)->Ok_0,
            rel,
            truth,
        ),
    decreases n,
{
    reveal_with_fuel(holds, 4);
    if i + 1 < n {
        lemma_none_of(conds, i, (n - 1) as nat, ins, rel, truth);
    }
}

/// Gates are mutually exclusive: whatever the operands are, no two arms of an
/// `if` run.
pub proof fn law_gates_exclusive(
    conds: Seq<Option<CondView>>,
    i: nat,
    j: nat,
    ins: Seq<Seq<char>>,
    rel: spec_fn(WhenOpView, RelOp, WhenOpView) -> bool,
    truth: spec_fn(WhenOpView) -> bool,
)
    requires
        i < j < conds.len(),
        conds[i as int] is Some,
        gate_of(conds, i, ins) is Ok,
        gate_of(conds, j, ins) is Ok,
    ensures
        !(opens(gate_of(conds, i, ins)->Ok_0, rel, truth) && opens(
            gate_of(conds, j, ins)->Ok_0,
            rel,
            truth,
        )),
{
    lemma_none_of(conds, i, j, ins, rel, truth);
}

proof fn lemma_some_opens(
    conds: Seq<Option<CondView>>,
    n: nat,
    ins: Seq<Seq<char>>,
    rel: spec_fn(WhenOpView, RelOp, WhenOpView) -> bool,
    truth: spec_fn(WhenOpView) -> bool,
) -> (j: nat)
    requires
        0 < n < conds.len(),
        forall|i: int| 0 <= i < n ==> (#[trigger] conds[i]) is Some,
        none_of_upto(conds, n, ins) is Ok,
        !opens(none_of_upto(conds, n, ins)->Ok_0, rel, truth),
    ensures
        j < n,
        gate_of(conds, j, ins) is Ok,
        opens(gate_of(conds, j, ins)->Ok_0, rel, truth),
    decreases n,
{
    reveal_with_fuel(holds, 4);
    assert(conds[n - 1] is Some);
    let before = none_of_upto(conds, (n - 1) as nat, ins)->Ok_0;
    if opens(before, rel, truth) {
        (n - 1) as nat
    } else {
        lemma_some_opens(conds, (n - 1) as nat, ins, rel, truth)
    }
}

/// With an `else`, some arm runs, whatever the operands are.
pub proof fn law_gates_complete(
    conds: Seq<Option<CondView>>,
    ins: Seq<Seq<char>>,
    rel: spec_fn(WhenOpView, RelOp, WhenOpView) -> bool,
    truth: spec_fn(WhenOpView) -> bool,
)
    requires
        conds.len() > 1,
        conds.last() is None,
        forall|i: int| 0 <= i < conds.len() - 1 ==> (#[trigger] conds[i]) is Some,
        gate_of(conds, (conds.len() - 1) as nat, ins) is Ok,
    ensures
        exists|j: nat|
            j < conds.len() && (#[trigger] gate_of(conds, j, ins)) is Ok && opens(
                gate_of(conds, j, ins)->Ok_0,
                rel,
                truth,
            ),
{
    let n = (conds.len() - 1) as nat;
    let g = none_of_upto(conds, n, ins)->Ok_0;
    if opens(g, rel, truth) {
        assert(gate_of(conds, n, ins) is Ok);
    } else {
        let j = lemma_some_opens(conds, n, ins, rel, truth);
        assert(gate_of(conds, j, ins) is Ok);
    }
}

// ---- statements ----------------------------------------------------------------------
/// What has been read of a body: its tasks, the names they use, the bindings,
/// the task that is returned, the workflows synthesized so far in the whole
/// workflow, and the number of `if`s met in it.
#[verifier::ext_equal]
pub struct Body {
    pub nodes: Seq<NodeView>,
    pub used: Seq<Seq<char>>,
    pub bindings: Scope,
    pub out: Option<Seq<char>>,
    pub synth: Seq<SynthWfView>,
    pub ifs: nat,
}

/// A finished body.
#[verifier::ext_equal]
pub struct Done {
    pub nodes: Seq<NodeView>,
    pub out: Option<Seq<char>>,
    pub synth: Seq<SynthWfView>,
    pub ifs: nat,
}

/// The arms of an `if` that have been read: the wrapper's tasks, the workflows
/// synthesized so far, and the number of `if`s.
#[verifier::ext_equal]
pub struct Arms {
    pub wrap: Seq<NodeView>,
    pub tasks: Seq<Seq<char>>,
    pub synth: Seq<SynthWfView>,
    pub ifs: nat,
}

/// The names of a body: of its Argo template, and as a Rust identifier.
#[verifier::ext_equal]
pub struct SelfName {
    pub argo: Seq<char>,
    pub rust: Seq<char>,
}

pub open spec fn wrap_name(me: SelfName, k: nat) -> SelfName {
    SelfName { argo: me.argo + "-if"@ + dec(k), rust: me.rust + "_if"@ + dec(k) }
}

pub open spec fn arm_name(me: SelfName, k: nat, j: nat) -> SelfName {
    SelfName {
        argo: wrap_name(me, k).argo + "-arm"@ + dec(j),
        rust: wrap_name(me, k).rust + "_arm"@ + dec(j),
    }
}

pub open spec fn synth_ident(rust: Seq<char>) -> Seq<char> {
    "__athena_"@ + rust
}

pub open spec fn input_args(names: Seq<Seq<char>>) -> Seq<ArgView> {
    Seq::new(names.len(), |i: int| ArgView::Input(names[i]))
}

/// How an enclosing body passes the captured names on.
pub open spec fn capture_args(names: Seq<Seq<char>>, b: Scope) -> Seq<ArgView> {
    Seq::new(
        names.len(),
        |i: int|
            if b.dom().contains(names[i]) {
                ArgView::Ref(b[names[i]])
            } else {
                ArgView::Input(names[i])
            },
    )
}

pub open spec fn call_node(
    task: Seq<char>,
    callee: Seq<char>,
    args: Seq<ArgView>,
    when: Option<Seq<char>>,
) -> NodeView {
    NodeView {
        task,
        callee: PathView::of(callee),
        args,
        continue_on: None,
        hooks: Seq::empty(),
        fan: None,
        when,
    }
}

/// Why the task `out` cannot be the value of a body with these tasks.
pub open spec fn bad_output(nodes: Seq<NodeView>, out: Option<Seq<char>>) -> Option<Seq<char>> {
    match out {
        None => Some(RETURN_UNRESOLVED@),
        Some(t) => if fan_list(nodes, t) is Some {
            Some(FAN_RETURN_UNSUPPORTED@)
        } else if may_fail(nodes, t) {
            Some(FALLIBLE_RETURN_UNSUPPORTED@)
        } else {
            None
        },
    }
}

pub open spec fn gate_text(g: Option<WhenExprView>) -> Option<Seq<char>> {
    match g {
        Some(w) => Some(when_text(w)),
        None => None,
    }
}

/// What an `if` takes from the body around it: its conditions, the tasks that
/// they made, the scope with those tasks, and the names it captures.
#[verifier::ext_equal]
pub struct IfHead {
    pub conds: Seq<Option<CondView>>,
    pub hoist: Hoist,
    pub scope: Scope,
    pub caps: Seq<Seq<char>>,
}

#[verifier::opaque]
pub open spec fn if_head(
    arms: Seq<(Option<Expr>, Seq<Stmt>)>,
    value: bool,
    ins: Seq<Seq<char>>,
    st: Body,
) -> Result<IfHead, Seq<char>> {
    if value && arms.last().0 is Some {
        Err(VALUE_IF_WITHOUT_ELSE@)
    } else {
        match conds_upto(
            arms,
            arms.len(),
            st.bindings,
            ins,
            Hoist { used: st.used, nodes: st.nodes, seen: Seq::empty() },
        ) {
            Err(m) => Err(m),
            Ok((conds, hoist)) => {
                let scope = with_conds(st.bindings, hoist.seen);
                let caps = captures_of(arms, conds, scope, ins);
                match map_res(caps, capture_name_fn()) {
                    Err(m) => Err(m),
                    Ok(_) => if st.ifs >= u32::MAX {
                        Err(TOO_MANY_IFS@)
                    } else {
                        Ok(IfHead { conds, hoist, scope, caps })
                    },
                }
            },
        }
    }
}

/// The arms with arm `j` behind them, whose body was read as `done`.
#[verifier::opaque]
pub open spec fn with_arm(
    st: Arms,
    j: nat,
    conds: Seq<Option<CondView>>,
    caps: Seq<Seq<char>>,
    value: bool,
    name: SelfName,
    done: Done,
) -> Result<Arms, Seq<char>> {
    let ident = synth_ident(name.rust);
    if value && bad_output(done.nodes, done.out) is Some {
        Err(bad_output(done.nodes, done.out)->0)
    } else {
        match gate_of(conds, j, caps) {
            Err(m) => Err(m),
            Ok(g) => Ok(
                Arms {
                    wrap: st.wrap.push(
                        call_node("arm"@ + dec(j), ident, input_args(caps), gate_text(g)),
                    ),
                    tasks: st.tasks.push("arm"@ + dec(j)),
                    synth: done.synth.push(
                        SynthWfView {
                            ident,
                            argo_name: name.argo,
                            inputs: caps,
                            nodes: retagged(done.nodes),
                            callees: distinct_paths(retagged(done.nodes), Seq::empty()),
                            output: if value {
                                SynthOutView::Terminal(done.out->0)
                            } else {
                                SynthOutView::Nothing
                            },
                        },
                    ),
                    ifs: done.ifs,
                },
            ),
        }
    }
}

/// The task that runs the wrapper of the `k`-th `if`, and the body after it.
#[verifier::opaque]
pub open spec fn with_wrapper(
    head: IfHead,
    a: Arms,
    bind: Option<Seq<char>>,
    value: bool,
    me: SelfName,
    k: nat,
    st: Body,
) -> (Seq<char>, Body) {
    let ident = synth_ident(wrap_name(me, k).rust);
    let base = match bind {
        Some(n) => n,
        None => "if"@,
    };
    let task = unique_name(head.hoist.used, base);
    (
        task,
        Body {
            nodes: head.hoist.nodes.push(
                call_node(task, ident, capture_args(head.caps, head.scope), None),
            ),
            used: head.hoist.used.push(task),
            bindings: st.bindings,
            out: st.out,
            synth: a.synth.push(
                SynthWfView {
                    ident,
                    argo_name: wrap_name(me, k).argo,
                    inputs: head.caps,
                    nodes: a.wrap,
                    callees: distinct_paths(a.wrap, Seq::empty()),
                    output: if value {
                        SynthOutView::Select(a.tasks)
                    } else {
                        SynthOutView::Nothing
                    },
                },
            ),
            ifs: a.ifs,
        },
    )
}

/// A call in statement position: named after `bind`, else after its callee.
pub open spec fn plain_call(
    base: Expr,
    bind: Option<Seq<char>>,
    opts: NodeOptsView,
    ins: Seq<Seq<char>>,
    st: Body,
) -> Option<Result<Pushed, Seq<char>>> {
    match call_of(base) {
        Some((callee, args)) => Some(
            push_of(
                callee.deep_view(),
                args,
                match bind {
                    Some(n) => n,
                    None => callee.deep_view().leaf(),
                },
                opts,
                None,
                None,
                st.used,
                st.nodes,
                st.bindings,
                ins,
            ),
        ),
        None => None,
    }
}

/// A fan-out or a call in statement position.
pub open spec fn template_call(
    base: Expr,
    bind: Option<Seq<char>>,
    opts: NodeOptsView,
    ins: Seq<Seq<char>>,
    st: Body,
) -> Option<Result<Pushed, Seq<char>>> {
    match fan_of(base) {
        Some(f) => match fan_source(f.list, st.bindings, ins) {
            Err(m) => Some(Err(m)),
            Ok(src) => Some(
                push_of(
                    f.callee.deep_view(),
                    f.args,
                    match bind {
                        Some(n) => n,
                        None => f.callee.deep_view().leaf(),
                    },
                    opts,
                    Some(f.item),
                    Some(src),
                    st.used,
                    st.nodes,
                    st.bindings,
                    ins,
                ),
            ),
        },
        None => plain_call(base, bind, opts, ins, st),
    }
}

pub open spec fn not_a_call(base: Expr) -> Seq<char> {
    if bad_closure(base) {
        FAN_OUT_BODY_NOT_A_CALL@
    } else {
        NOT_A_TEMPLATE_CALL@
    }
}

pub open spec fn recorded(r: Result<Pushed, Seq<char>>, st: Body) -> Result<
    (Seq<char>, Body),
    Seq<char>,
> {
    match r {
        Ok(p) => Ok((p.task, Body { used: p.used, nodes: p.nodes, ..st })),
        Err(m) => Err(m),
    }
}

/// The right-hand side of a `let`, or the value of a `return`: `fan` says
/// whether a fan-out may stand there.
#[verifier::opaque]
pub open spec fn value_call(
    e: Expr,
    bind: Option<Seq<char>>,
    fan: bool,
    ins: Seq<Seq<char>>,
    st: Body,
) -> Result<(Seq<char>, Body), Seq<char>> {
    match peeled(e) {
        Err(m) => Err(m),
        Ok((base, opts)) => match if fan {
            template_call(base, bind, opts, ins, st)
        } else {
            plain_call(base, bind, opts, ins, st)
        } {
            Some(r) => recorded(r, st),
            None => Err(not_a_call(base)),
        },
    }
}

pub open spec fn bound_task(name: Seq<char>, b: Scope) -> Result<Seq<char>, Seq<char>> {
    if b.dom().contains(name) {
        Ok(b[name])
    } else {
        Err("`"@ + name + "` is returned but isn't a binding from a `let = template(...)`."@)
    }
}

pub open spec fn with_out(r: Result<(Seq<char>, Body), Seq<char>>) -> Result<Body, Seq<char>> {
    match r {
        Ok((t, st)) => Ok(Body { out: Some(t), ..st }),
        Err(m) => Err(m),
    }
}

/// The value of a `return` that is no `if`.
#[verifier::opaque]
pub open spec fn return_value(e: Expr, ins: Seq<Seq<char>>, st: Body) -> Result<Body, Seq<char>> {
    match peeled(e) {
        Err(m) => Err(m),
        Ok((base, opts)) => match core_of(base) {
            Expr::Path(p) => if p.segments@.len() == 1 {
                if opts.continue_on is Some || opts.hooks.len() > 0 {
                    Err(BUILDER_ON_BINDING@)
                } else {
                    match bound_task(p.segments@[0]@, st.bindings) {
                        Ok(t) => Ok(Body { out: Some(t), ..st }),
                        Err(m) => Err(m),
                    }
                }
            } else {
                Err(not_a_call(base))
            },
            _ => with_out(value_call(e, None, false, ins, st)),
        },
    }
}

/// An expression statement that is neither `if` nor `return` nor a path.
#[verifier::opaque]
pub open spec fn call_stmt(e: Expr, last: bool, ins: Seq<Seq<char>>, st: Body) -> Result<
    Body,
    Seq<char>,
> {
    match peeled(e) {
        Err(m) => Err(m),
        Ok((base, opts)) => match template_call(base, None, opts, ins, st) {
            Some(r) => match recorded(r, st) {
                Ok((t, s2)) => if last {
                    Ok(Body { out: Some(t), ..s2 })
                } else {
                    Ok(s2)
                },
                Err(m) => Err(m),
            },
            None => Err(stmt_message(e)),
        },
    }
}

/// The `if` that a statement is, what its value is bound to, and whether it has
/// a value.
pub open spec fn if_in(s: Stmt, last: bool, want: bool) -> Option<
    (IfExpr, Option<Seq<char>>, bool),
> {
    match s {
        Stmt::Local { pat, init } => match (bound_name(pat), init) {
            (Ok(bind), Some(n)) => if n.diverge is None {
                match core_of(n.expr) {
                    Expr::If(e) => Some((e, bind, true)),
                    _ => None,
                }
            } else {
                None
            },
            _ => None,
        },
        Stmt::Expr { expr, semi } => match core_of(expr) {
            Expr::If(e) => Some((e, None, last && !semi && want)),
            Expr::Return { value } => match value {
                Some(t) => if last {
                    match core_of(*t) {
                        Expr::If(e) => Some((e, None, true)),
                        _ => None,
                    }
                } else {
                    None
                },
                None => None,
            },
            _ => None,
        },
        _ => None,
    }
}

pub proof fn lemma_if_in(s: Stmt, last: bool, want: bool)
    ensures
        if_in(s, last, want) matches Some((e, _, _)) ==> decreases_to!(s => e),
{
    match s {
        Stmt::Local { pat: _, init } => {
            if let Some(n) = init {
                lemma_core(n.expr);
            }
        },
        Stmt::Expr { expr, semi: _ } => {
            lemma_core(expr);
            match core_of(expr) {
                Expr::Return { value } => {
                    if let Some(t) = value {
                        lemma_core(*t);
                    }
                },
                _ => {},
            }
        },
        _ => {},
    }
}

/// The body after a statement that is an `if` whose wrapper runs as the task of
/// `r`: the task is bound, or it is the value of the body.
#[verifier::opaque]
pub open spec fn after_if(s: Stmt, last: bool, want: bool, r: (Seq<char>, Body)) -> Body {
    match s {
        Stmt::Local { pat, init: _ } => match bound_name(pat) {
            Ok(Some(b)) => Body { bindings: r.1.bindings.insert(b, r.0), ..r.1 },
            _ => r.1,
        },
        Stmt::Expr { expr, semi } => match core_of(expr) {
            Expr::If(_) => if last && !semi && want {
                Body { out: Some(r.0), ..r.1 }
            } else {
                r.1
            },
            _ => Body { out: Some(r.0), ..r.1 },
        },
        _ => r.1,
    }
}

/// The body after a statement that is no `if`.
#[verifier::opaque]
pub open spec fn plain_step(
    s: Stmt,
    last: bool,
    want: bool,
    ins: Seq<Seq<char>>,
    st: Body,
) -> Result<Body, Seq<char>> {
    match s {
        Stmt::Macro(_) => Err(MACRO_IN_WORKFLOW@),
        Stmt::Item => Err(NESTED_ITEM@),
        Stmt::Local { pat, init } => match bound_name(pat) {
            Err(m) => Err(m),
            Ok(bind) => match init {
                None => Err(LET_WITHOUT_INIT@),
                Some(n) => if n.diverge is Some {
                    Err(LET_ELSE@)
                } else {
                    match value_call(n.expr, bind, true, ins, st) {
                        Err(m) => Err(m),
                        Ok((t, s2)) => match bind {
                            Some(b) => Ok(Body { bindings: s2.bindings.insert(b, t), ..s2 }),
                            None => Ok(s2),
                        },
                    }
                },
            },
        },
        Stmt::Expr { expr, semi } => match core_of(expr) {
            Expr::Return { value } => if !last {
                Err(EARLY_RETURN@)
            } else {
                match value {
                    None => Err(EMPTY_RETURN@),
                    Some(target) => return_value(*target, ins, st),
                }
            },
            Expr::Path(p) => if last && !semi && p.segments@.len() == 1 {
                match bound_task(p.segments@[0]@, st.bindings) {
                    Ok(t) => Ok(Body { out: Some(t), ..st }),
                    Err(m) => Err(m),
                }
            } else {
                Err(stmt_message(expr))
            },
            _ => call_stmt(expr, last && !semi && want, ins, st),
        },
    }
}

/// The first `n` arms of an `if` that captures `caps`, is the `k`-th, and whose
/// conditions are `conds`.
#[verifier::opaque]
pub open spec fn arms_upto(
    i: IfExpr,
    n: nat,
    conds: Seq<Option<CondView>>,
    caps: Seq<Seq<char>>,
    value: bool,
    me: SelfName,
    k: nat,
    synth: Seq<SynthWfView>,
    ifs: nat,
) -> Result<Arms, Seq<char>>
    decreases i, n,
{
    if n == 0 || n > arms_of(i).len() {
        Ok(Arms { wrap: Seq::empty(), tasks: Seq::empty(), synth, ifs })
    } else {
        proof {
            lemma_arms(i);
            assert(decreases_to!(i => arms_of(i)[n - 1].1));
        }
        match arms_upto(i, (n - 1) as nat, conds, caps, value, me, k, synth, ifs) {
            Err(m) => Err(m),
            Ok(st) => match stmts_done(
                arms_of(i)[n - 1].1,
                caps,
                value,
                arm_name(me, k, (n - 1) as nat),
                st.synth,
                st.ifs,
            ) {
                Err(m) => Err(m),
                Ok(done) => with_arm(
                    st,
                    (n - 1) as nat,
                    conds,
                    caps,
                    value,
                    arm_name(me, k, (n - 1) as nat),
                    done,
                ),
            },
        }
    }
}

/// Reading an `if`: its wrapper, its arms, and the task that runs the wrapper,
/// named after `bind`.
#[verifier::opaque]
pub open spec fn synth_of(
    i: IfExpr,
    bind: Option<Seq<char>>,
    value: bool,
    ins: Seq<Seq<char>>,
    me: SelfName,
    st: Body,
) -> Result<(Seq<char>, Body), Seq<char>>
    decreases i, arms_of(i).len() + 1,
{
    match if_head(arms_of(i), value, ins, st) {
        Err(m) => Err(m),
        Ok(head) => match arms_upto(
            i,
            arms_of(i).len(),
            head.conds,
            head.caps,
            value,
            me,
            st.ifs,
            st.synth,
            st.ifs + 1,
        ) {
            Err(m) => Err(m),
            Ok(a) => Ok(with_wrapper(head, a, bind, value, me, st.ifs, st)),
        },
    }
}

/// The state after the first `n` statements of a body. `want` says whether the
/// body has a value.
#[verifier::opaque]
pub open spec fn stmts_upto(
    stmts: Seq<Stmt>,
    n: nat,
    ins: Seq<Seq<char>>,
    want: bool,
    me: SelfName,
    synth: Seq<SynthWfView>,
    ifs: nat,
) -> Result<Body, Seq<char>>
    decreases stmts, n,
{
    if n == 0 || n > stmts.len() {
        Ok(
            Body {
                nodes: Seq::empty(),
                used: Seq::empty(),
                bindings: Map::empty(),
                out: None,
                synth,
                ifs,
            },
        )
    } else {
        let s = stmts[n - 1];
        let last = n == stmts.len();
        proof {
            lemma_if_in(s, last, want);
        }
        match stmts_upto(stmts, (n - 1) as nat, ins, want, me, synth, ifs) {
            Err(m) => Err(m),
            Ok(st) => match if_in(s, last, want) {
                Some((e, bind, value)) => match synth_of(e, bind, value, ins, me, st) {
                    Err(m) => Err(m),
                    Ok(r) => Ok(after_if(s, last, want, r)),
                },
                None => plain_step(s, last, want, ins, st),
            },
        }
    }
}

/// A whole body.
#[verifier::opaque]
pub open spec fn stmts_done(
    stmts: Seq<Stmt>,
    ins: Seq<Seq<char>>,
    want: bool,
    me: SelfName,
    synth: Seq<SynthWfView>,
    ifs: nat,
) -> Result<Done, Seq<char>>
    decreases stmts, stmts.len() + 1,
{
    match stmts_upto(stmts, stmts.len(), ins, want, me, synth, ifs) {
        Err(m) => Err(m),
        Ok(st) => Ok(
            Done {
                nodes: st.nodes,
                out: if want {
                    st.out
                } else {
                    None
                },
                synth: st.synth,
                ifs: st.ifs,
            },
        ),
    }
}

pub proof fn lemma_arms_step(
    i: IfExpr,
    n: nat,
    conds: Seq<Option<CondView>>,
    caps: Seq<Seq<char>>,
    value: bool,
    me: SelfName,
    k: nat,
    synth: Seq<SynthWfView>,
    ifs: nat,
)
    ensures
        arms_upto(i, 0, conds, caps, value, me, k, synth, ifs) == Ok::<Arms, Seq<char>>(
            Arms { wrap: Seq::empty(), tasks: Seq::empty(), synth, ifs },
        ),
        0 < n <= arms_of(i).len() ==> arms_upto(i, n, conds, caps, value, me, k, synth, ifs)
            == match arms_upto(i, (n - 1) as nat, conds, caps, value, me, k, synth, ifs) {
            Err(m) => Err(m),
            Ok(st) => match stmts_done(
                arms_of(i)[n - 1].1,
                caps,
                value,
                arm_name(me, k, (n - 1) as nat),
                st.synth,
                st.ifs,
            ) {
                Err(m) => Err(m),
                Ok(done) => with_arm(
                    st,
                    (n - 1) as nat,
                    conds,
                    caps,
                    value,
                    arm_name(me, k, (n - 1) as nat),
                    done,
                ),
            },
        },
{
    reveal(arms_upto);
    reveal(stmts_done);
}

pub proof fn lemma_synth_step(
    i: IfExpr,
    bind: Option<Seq<char>>,
    value: bool,
    ins: Seq<Seq<char>>,
    me: SelfName,
    st: Body,
)
    ensures
        synth_of(i, bind, value, ins, me, st) == match if_head(arms_of(i), value, ins, st) {
            Err(m) => Err(m),
            Ok(head) => match arms_upto(
                i,
                arms_of(i).len(),
                head.conds,
                head.caps,
                value,
                me,
                st.ifs,
                st.synth,
                st.ifs + 1,
            ) {
                Err(m) => Err(m),
                Ok(a) => Ok(with_wrapper(head, a, bind, value, me, st.ifs, st)),
            },
        },
{
    reveal(synth_of);
    reveal(arms_upto);
}

pub proof fn lemma_stmts_step(
    stmts: Seq<Stmt>,
    n: nat,
    ins: Seq<Seq<char>>,
    want: bool,
    me: SelfName,
    synth: Seq<SynthWfView>,
    ifs: nat,
)
    ensures
        stmts_upto(stmts, 0, ins, want, me, synth, ifs) == Ok::<Body, Seq<char>>(
            Body {
                nodes: Seq::empty(),
                used: Seq::empty(),
                bindings: Map::empty(),
                out: None,
                synth,
                ifs,
            },
        ),
        0 < n <= stmts.len() ==> stmts_upto(stmts, n, ins, want, me, synth, ifs)
            == match stmts_upto(stmts, (n - 1) as nat, ins, want, me, synth, ifs) {
            Err(m) => Err(m),
            Ok(st) => match if_in(stmts[n - 1], n == stmts.len(), want) {
                Some((e, bind, value)) => match synth_of(e, bind, value, ins, me, st) {
                    Err(m) => Err(m),
                    Ok(r) => Ok(after_if(stmts[n - 1], n == stmts.len(), want, r)),
                },
                None => plain_step(stmts[n - 1], n == stmts.len(), want, ins, st),
            },
        },
{
    reveal(stmts_upto);
    reveal(synth_of);
}

pub proof fn lemma_done_step(
    stmts: Seq<Stmt>,
    ins: Seq<Seq<char>>,
    want: bool,
    me: SelfName,
    synth: Seq<SynthWfView>,
    ifs: nat,
)
    ensures
        stmts_done(stmts, ins, want, me, synth, ifs) == match stmts_upto(
            stmts,
            stmts.len(),
            ins,
            want,
            me,
            synth,
            ifs,
        ) {
            Err(m) => Err::<Done, Seq<char>>(m),
            Ok(st) => Ok(
                Done {
                    nodes: st.nodes,
                    out: if want {
                        st.out
                    } else {
                        None
                    },
                    synth: st.synth,
                    ifs: st.ifs,
                },
            ),
        },
{
    reveal(stmts_done);
    reveal(stmts_upto);
}

/// What accumulates over a whole workflow: the synthesized workflows, and the
/// number of `if`s met.
pub struct SynthCtx {
    pub synth: Vec<SynthWf>,
    pub if_ctr: u32,
}

/// What has been read of a body.
pub struct BodyState {
    pub nodes: Vec<Node>,
    pub used: Vec<String>,
    pub bindings: TextMap<String>,
    pub out: Option<String>,
}

pub open spec fn body_view(st: BodyState, ctx: SynthCtx) -> Body {
    Body {
        nodes: st.nodes.deep_view(),
        used: st.used.deep_view(),
        bindings: st.bindings.deep_view(),
        out: st.out.deep_view(),
        synth: ctx.synth.deep_view(),
        ifs: ctx.if_ctr as nat,
    }
}

/// The names of a body: of its Argo template, and as a Rust identifier.
pub struct BodyName {
    pub argo: String,
    pub rust: String,
}

impl DeepView for BodyName {
    type V = SelfName;

    open spec fn deep_view(&self) -> SelfName {
        SelfName { argo: self.argo@, rust: self.rust@ }
    }
}

fn name_wrap(me: &BodyName, k: u32) -> (r: BodyName)
    ensures
        r.deep_view() == wrap_name(me.deep_view(), k as nat),
{
    let d: String = decimal(k as u128);
    BodyName {
        argo: cat3(me.argo.as_str(), "-if", d.as_str()),
        rust: cat3(me.rust.as_str(), "_if", d.as_str()),
    }
}

fn name_arm(wrap: &BodyName, j: usize) -> (r: BodyName)
    ensures
        r.argo@ == wrap.argo@ + "-arm"@ + dec(j as nat),
        r.rust@ == wrap.rust@ + "_arm"@ + dec(j as nat),
{
    let d: String = decimal(j as u128);
    BodyName {
        argo: cat3(wrap.argo.as_str(), "-arm", d.as_str()),
        rust: cat3(wrap.rust.as_str(), "_arm", d.as_str()),
    }
}

fn args_from_inputs(names: &Vec<String>) -> (r: Vec<Arg>)
    ensures
        r.deep_view() == input_args(names.deep_view()),
{
    let ghost want = input_args(names.deep_view());
    let mut out: Vec<Arg> = Vec::new();
    let mut i: usize = 0;
    proof {
        assert(out.deep_view() =~= want.take(0));
    }
    while i < names.len()
        invariant
            want == input_args(names.deep_view()),
            i <= names@.len(),
            out.deep_view() == want.take(i as int),
        decreases names@.len() - i,
    {
        let ghost before = out.deep_view();
        out.push(Arg::Input(names[i].clone()));
        proof {
            assert(out.deep_view() =~= before.push(ArgView::Input(names@[i as int]@)));
            assert(out.deep_view() =~= want.take(i + 1));
        }
        i = i + 1;
    }
    proof {
        assert(want.take(i as int) =~= want);
    }
    out
}

fn args_from_scope(names: &Vec<String>, scope: &TextMap<String>) -> (r: Vec<Arg>)
    ensures
        r.deep_view() == capture_args(names.deep_view(), scope.deep_view()),
{
    let ghost want = capture_args(names.deep_view(), scope.deep_view());
    let mut out: Vec<Arg> = Vec::new();
    let mut i: usize = 0;
    proof {
        assert(out.deep_view() =~= want.take(0));
    }
    while i < names.len()
        invariant
            want == capture_args(names.deep_view(), scope.deep_view()),
            i <= names@.len(),
            out.deep_view() == want.take(i as int),
        decreases names@.len() - i,
    {
        let ghost before = out.deep_view();
        let a: Arg = match scope.get(names[i].as_str()) {
            Some(t) => Arg::Ref(t.clone()),
            None => Arg::Input(names[i].clone()),
        };
        let ghost av = a.deep_view();
        out.push(a);
        proof {
            assert(out.deep_view() =~= before.push(av));
            assert(out.deep_view() =~= want.take(i + 1));
        }
        i = i + 1;
    }
    proof {
        assert(want.take(i as int) =~= want);
    }
    out
}

fn make_call_node(task: String, callee: &str, args: Vec<Arg>, when: Option<String>) -> (r: Node)
    ensures
        r.deep_view() == call_node(task@, callee@, args.deep_view(), when.deep_view()),
{
    let r: Node = Node {
        task,
        callee: Path::of(callee),
        args,
        continue_on: None,
        hooks: Vec::new(),
        fan: None,
        when,
    };
    proof {
        assert(r.deep_view().hooks =~= Seq::<HookView>::empty());
    }
    r
}

fn check_output(nodes: &Vec<Node>, out: &Option<String>) -> (r: Option<&'static str>)
    ensures
        match r {
            Some(m) => bad_output(nodes.deep_view(), out.deep_view()) == Some(m@),
            None => bad_output(nodes.deep_view(), out.deep_view()) is None,
        },
{
    match out {
        None => Some(RETURN_UNRESOLVED),
        Some(t) => {
            if fan_task(nodes, t.as_str()).is_some() {
                Some(FAN_RETURN_UNSUPPORTED)
            } else if fallible_task(nodes, t.as_str()) {
                Some(FALLIBLE_RETURN_UNSUPPORTED)
            } else {
                None
            }
        },
    }
}

proof fn lemma_arms_err(
    i: IfExpr,
    a: nat,
    n: nat,
    conds: Seq<Option<CondView>>,
    caps: Seq<Seq<char>>,
    value: bool,
    me: SelfName,
    k: nat,
    synth: Seq<SynthWfView>,
    ifs: nat,
)
    requires
        a <= n <= arms_of(i).len(),
        arms_upto(i, a, conds, caps, value, me, k, synth, ifs) is Err,
    ensures
        arms_upto(i, n, conds, caps, value, me, k, synth, ifs) == arms_upto(
            i,
            a,
            conds,
            caps,
            value,
            me,
            k,
            synth,
            ifs,
        ),
    decreases n,
{
    if a < n {
        lemma_arms_err(i, a, (n - 1) as nat, conds, caps, value, me, k, synth, ifs);
        lemma_arms_step(i, n, conds, caps, value, me, k, synth, ifs);
    }
}

proof fn lemma_stmts_err(
    stmts: Seq<Stmt>,
    i: nat,
    n: nat,
    ins: Seq<Seq<char>>,
    want: bool,
    me: SelfName,
    synth: Seq<SynthWfView>,
    ifs: nat,
)
    requires
        i <= n <= stmts.len(),
        stmts_upto(stmts, i, ins, want, me, synth, ifs) is Err,
    ensures
        stmts_upto(stmts, n, ins, want, me, synth, ifs) == stmts_upto(
            stmts,
            i,
            ins,
            want,
            me,
            synth,
            ifs,
        ),
    decreases n,
{
    if i < n {
        lemma_stmts_err(stmts, i, (n - 1) as nat, ins, want, me, synth, ifs);
        lemma_stmts_step(stmts, n, ins, want, me, synth, ifs);
    }
}

pub open spec fn task_agrees(
    r: Result<String, String>,
    s: Result<(Seq<char>, Body), Seq<char>>,
    st: Body,
) -> bool {
    match (r, s) {
        (Ok(t), Ok((tv, b))) => t@ == tv && st == b,
        (Err(m), Err(n)) => m@ == n,
        _ => false,
    }
}

pub open spec fn state_agrees(r: Result<(), String>, s: Result<Body, Seq<char>>, st: Body) -> bool {
    match (r, s) {
        (Ok(_), Ok(b)) => st == b,
        (Err(m), Err(n)) => m@ == n,
        _ => false,
    }
}

/// Records a call, or where `fan` holds a fan-out, that is under the builders
/// of a statement; `None` where the expression is neither.
fn record_call(
    base: &Expr,
    bind: Option<&str>,
    opts: &NodeOpts,
    fan: bool,
    inputs: &Vec<String>,
    st: &mut BodyState,
) -> (r: Option<Result<String, String>>)
    ensures
        final(st).bindings.deep_view() == old(st).bindings.deep_view(),
        final(st).out == old(st).out,
        forall|b: Body| #![trigger template_call(*base, opt_view(bind), opts.deep_view(), inputs.deep_view(), b)]
            #![trigger plain_call(*base, opt_view(bind), opts.deep_view(), inputs.deep_view(), b)]
            b.nodes == old(st).nodes.deep_view() && b.used == old(st).used.deep_view()
                && b.bindings == old(st).bindings.deep_view() ==> match (
                r,
                if fan {
                    template_call(*base, opt_view(bind), opts.deep_view(), inputs.deep_view(), b)
                } else {
                    plain_call(*base, opt_view(bind), opts.deep_view(), inputs.deep_view(), b)
                },
            ) {
                (Some(Ok(t)), Some(Ok(p))) => {
                    &&& t@ == p.task
                    &&& final(st).used.deep_view() == p.used
                    &&& final(st).nodes.deep_view() == p.nodes
                },
                (Some(Err(m)), Some(Err(n))) => m@ == n,
                (None, None) => final(st).used.deep_view() == old(st).used.deep_view()
                    && final(st).nodes.deep_view() == old(st).nodes.deep_view(),
                _ => false,
            },
{
    if fan {
        match fan_parts(base) {
            Some(f) => {
                let src: FanSrc = match fan_src(f.list, &st.bindings, inputs) {
                    Ok(s) => s,
                    Err(m) => {
                        return Some(Err(m));
                    },
                };
                let leaf: String = path_leaf(f.callee);
                let name: &str = match bind {
                    Some(n) => n,
                    None => leaf.as_str(),
                };
                return Some(
                    push_call(
                        f.callee,
                        f.args,
                        name,
                        opts,
                        Some(f.item.as_str()),
                        Some(src),
                        &mut st.used,
                        &mut st.nodes,
                        &st.bindings,
                        inputs,
                    ),
                );
            },
            None => {},
        }
    }
    match call_parts(base) {
        Some((callee, args)) => {
            let leaf: String = path_leaf(callee);
            let name: &str = match bind {
                Some(n) => n,
                None => leaf.as_str(),
            };
            Some(
                push_call(
                    callee,
                    args,
                    name,
                    opts,
                    None,
                    None,
                    &mut st.used,
                    &mut st.nodes,
                    &st.bindings,
                    inputs,
                ),
            )
        },
        None => None,
    }
}

fn no_call(base: &Expr) -> (r: String)
    ensures
        r@ == not_a_call(*base),
{
    if fan_out_bad_closure(base) {
        FAN_OUT_BODY_NOT_A_CALL.to_owned()
    } else {
        NOT_A_TEMPLATE_CALL.to_owned()
    }
}

fn read_value(
    e: &Expr,
    bind: Option<&str>,
    fan: bool,
    inputs: &Vec<String>,
    st: &mut BodyState,
    Ghost(ctx): Ghost<SynthCtx>,
) -> (r: Result<String, String>)
    ensures
        task_agrees(
            r,
            value_call(
                *e,
                opt_view(bind),
                fan,
                inputs.deep_view(),
                body_view(*old(st), ctx),
            ),
            body_view(*final(st), ctx),
        ),
{
    let ghost b0 = body_view(*st, ctx);
    proof {
        reveal(value_call);
    }
    match peel_builders(e) {
        Err(m) => Err(m),
        Ok((base, opts)) => {
            proof {
                let t = template_call(
                    *base,
                    opt_view(bind),
                    opts.deep_view(),
                    inputs.deep_view(),
                    b0,
                );
                let p = plain_call(
                    *base,
                    opt_view(bind),
                    opts.deep_view(),
                    inputs.deep_view(),
                    b0,
                );
            }
            match record_call(base, bind, &opts, fan, inputs, st) {
                Some(r) => r,
                None => Err(no_call(base)),
            }
        },
    }
}

fn find_bound(name: &str, bindings: &TextMap<String>) -> (r: Result<String, String>)
    ensures
        agrees(r, bound_task(name@, bindings.deep_view())),
{
    match bindings.get(name) {
        Some(t) => Ok(t.clone()),
        None => Err(
            cat3("`", name, "` is returned but isn't a binding from a `let = template(...)`."),
        ),
    }
}

fn read_return(
    e: &Expr,
    inputs: &Vec<String>,
    st: &mut BodyState,
    Ghost(ctx): Ghost<SynthCtx>,
) -> (r: Result<(), String>)
    ensures
        state_agrees(
            r,
            return_value(*e, inputs.deep_view(), body_view(*old(st), ctx)),
            body_view(*final(st), ctx),
        ),
{
    proof {
        reveal(return_value);
    }
    match peel_builders(e) {
        Err(m) => Err(m),
        Ok((base, opts)) => match unwrap_expr(base) {
            Expr::Path(p) => {
                if p.segments.len() == 1 {
                    proof {
                        assert(opts.hooks.deep_view().len() == opts.hooks@.len());
                    }
                    if opts.continue_on.is_some() || opts.hooks.len() > 0 {
                        return Err(BUILDER_ON_BINDING.to_owned());
                    }
                    match find_bound(p.segments[0].as_str(), &st.bindings) {
                        Ok(t) => {
                            st.out = Some(t);
                            Ok(())
                        },
                        Err(m) => Err(m),
                    }
                } else {
                    Err(no_call(base))
                }
            },
            _ => match read_value(e, None, false, inputs, st, Ghost(ctx)) {
                Ok(t) => {
                    st.out = Some(t);
                    Ok(())
                },
                Err(m) => Err(m),
            },
        },
    }
}

fn read_call_stmt(
    e: &Expr,
    last: bool,
    inputs: &Vec<String>,
    st: &mut BodyState,
    Ghost(ctx): Ghost<SynthCtx>,
) -> (r: Result<(), String>)
    ensures
        state_agrees(
            r,
            call_stmt(*e, last, inputs.deep_view(), body_view(*old(st), ctx)),
            body_view(*final(st), ctx),
        ),
{
    let ghost b0 = body_view(*st, ctx);
    proof {
        reveal(call_stmt);
    }
    match peel_builders(e) {
        Err(m) => Err(m),
        Ok((base, opts)) => {
            proof {
                let t = template_call(*base, None, opts.deep_view(), inputs.deep_view(), b0);
            }
            match record_call(base, None, &opts, true, inputs, st) {
                Some(Ok(t)) => {
                    if last {
                        st.out = Some(t);
                    }
                    Ok(())
                },
                Some(Err(m)) => Err(m),
                None => Err(unsupported_stmt_msg(e)),
            }
        },
    }
}

/// An `if` in statement position.
struct IfParts<'a> {
    e: &'a IfExpr,
    bind: Option<String>,
    value: bool,
}

fn if_parts<'a>(s: &'a Stmt, last: bool, want: bool) -> (r: Option<IfParts<'a>>)
    ensures
        match r {
            Some(p) => if_in(*s, last, want) == Some((*p.e, p.bind.deep_view(), p.value)),
            None => if_in(*s, last, want) is None,
        },
{
    match s {
        Stmt::Local { pat, init } => match (local_binding(pat), init) {
            (Ok(bind), Some(n)) => {
                if n.diverge.is_none() {
                    match unwrap_expr(&n.expr) {
                        Expr::If(e) => Some(IfParts { e, bind, value: true }),
                        _ => None,
                    }
                } else {
                    None
                }
            },
            _ => None,
        },
        Stmt::Expr { expr, semi } => match unwrap_expr(expr) {
            Expr::If(e) => Some(IfParts { e, bind: None, value: last && !*semi && want }),
            Expr::Return { value } => match value {
                Some(t) => {
                    if last {
                        match unwrap_expr(t) {
                            Expr::If(e) => Some(IfParts { e, bind: None, value: true }),
                            _ => None,
                        }
                    } else {
                        None
                    }
                },
                None => None,
            },
            _ => None,
        },
        _ => None,
    }
}

fn finish_if(
    s: &Stmt,
    last: bool,
    want: bool,
    task: String,
    st: &mut BodyState,
    Ghost(ctx): Ghost<SynthCtx>,
)
    ensures
        body_view(*final(st), ctx) == after_if(*s, last, want, (task@, body_view(*old(st), ctx))),
{
    proof {
        reveal(after_if);
    }
    match s {
        Stmt::Local { pat, init: _ } => match local_binding(pat) {
            Ok(Some(b)) => {
                st.bindings.insert(b, task);
            },
            _ => {},
        },
        Stmt::Expr { expr, semi } => match unwrap_expr(expr) {
            Expr::If(_) => {
                if last && !*semi && want {
                    st.out = Some(task);
                }
            },
            _ => {
                st.out = Some(task);
            },
        },
        _ => {},
    }
}

fn read_plain(
    s: &Stmt,
    last: bool,
    want: bool,
    inputs: &Vec<String>,
    st: &mut BodyState,
    Ghost(ctx): Ghost<SynthCtx>,
) -> (r: Result<(), String>)
    ensures
        state_agrees(
            r,
            plain_step(*s, last, want, inputs.deep_view(), body_view(*old(st), ctx)),
            body_view(*final(st), ctx),
        ),
{
    proof {
        reveal(plain_step);
    }
    match s {
        Stmt::Macro(_) => Err(MACRO_IN_WORKFLOW.to_owned()),
        Stmt::Item => Err(NESTED_ITEM.to_owned()),
        Stmt::Local { pat, init } => {
            let bind: Option<String> = match local_binding(pat) {
                Ok(b) => b,
                Err(m) => {
                    return Err(m);
                },
            };
            match init {
                None => Err(LET_WITHOUT_INIT.to_owned()),
                Some(n) => {
                    if n.diverge.is_some() {
                        return Err(LET_ELSE.to_owned());
                    }
                    let b: Option<&str> = match &bind {
                        Some(x) => Some(x.as_str()),
                        None => None,
                    };
                    match read_value(&n.expr, b, true, inputs, st, Ghost(ctx)) {
                        Err(m) => Err(m),
                        Ok(t) => {
                            match bind {
                                Some(x) => {
                                    st.bindings.insert(x, t);
                                },
                                None => {},
                            }
                            Ok(())
                        },
                    }
                },
            }
        },
        Stmt::Expr { expr, semi } => match unwrap_expr(expr) {
            Expr::Return { value } => {
                if !last {
                    return Err(EARLY_RETURN.to_owned());
                }
                match value {
                    None => Err(EMPTY_RETURN.to_owned()),
                    Some(target) => read_return(target, inputs, st, Ghost(ctx)),
                }
            },
            Expr::Path(p) => {
                if !(last && !*semi && p.segments.len() == 1) {
                    return Err(unsupported_stmt_msg(expr));
                }
                match find_bound(p.segments[0].as_str(), &st.bindings) {
                    Ok(t) => {
                        st.out = Some(t);
                        Ok(())
                    },
                    Err(m) => Err(m),
                }
            },
            _ => read_call_stmt(expr, last && !*semi && want, inputs, st, Ghost(ctx)),
        },
    }
}

/// What an `if` takes from the body around it.
struct Head<'a> {
    conds: Vec<Option<Cond<'a>>>,
    scope: TextMap<String>,
    caps: Vec<String>,
}

fn read_head<'a>(
    arms: &Vec<Arm<'a>>,
    value: bool,
    inputs: &Vec<String>,
    st: &mut BodyState,
    ifs: u32,
    Ghost(ctx): Ghost<SynthCtx>,
) -> (r: Result<Head<'a>, String>)
    requires
        arms@.len() > 0,
        ctx.if_ctr == ifs,
    ensures
        final(st).bindings.deep_view() == old(st).bindings.deep_view(),
        final(st).out == old(st).out,
        match (
            r,
            if_head(arms.deep_view(), value, inputs.deep_view(), body_view(*old(st), ctx)),
        ) {
            (Ok(h), Ok(hv)) => {
                &&& h.conds.deep_view() == hv.conds
                &&& h.conds@.len() == arms@.len()
                &&& h.scope.deep_view() == hv.scope
                &&& h.caps.deep_view() == hv.caps
                &&& final(st).used.deep_view() == hv.hoist.used
                &&& final(st).nodes.deep_view() == hv.hoist.nodes
                &&& ifs < u32::MAX
            },
            (Err(m), Err(n)) => m@ == n,
            _ => false,
        },
{
    proof {
        reveal(if_head);
        assert(arms.deep_view().last() == arms@.last().deep_view());
    }
    if value && arms[arms.len() - 1].cond.is_some() {
        return Err(VALUE_IF_WITHOUT_ELSE.to_owned());
    }
    let mut seen: Seen = Seen { calls: Vec::new() };
    proof {
        assert(seen.deep_view() =~= Seq::<(Seq<char>, Seq<char>)>::empty());
    }
    let conds: Vec<Option<Cond>> = match hoist_conds(
        arms,
        &mut st.used,
        &mut st.nodes,
        &st.bindings,
        inputs,
        &mut seen,
    ) {
        Ok(c) => c,
        Err(m) => {
            return Err(m);
        },
    };
    let scope: TextMap<String> = add_conds(&st.bindings, &seen);
    let caps: Vec<String> = find_captures(arms, &conds, &scope, inputs);
    match check_captures(&caps) {
        Ok(_) => {},
        Err(m) => {
            return Err(m);
        },
    }
    if ifs == u32::MAX {
        return Err(TOO_MANY_IFS.to_owned());
    }
    Ok(Head { conds, scope, caps })
}

fn add_arm(
    j: usize,
    conds: &Vec<Option<Cond>>,
    caps: &Vec<String>,
    value: bool,
    name: &BodyName,
    nodes: Vec<Node>,
    out: Option<String>,
    wrap: &mut Vec<Node>,
    tasks: &mut Vec<String>,
    ctx: &mut SynthCtx,
) -> (r: Result<(), String>)
    requires
        j < conds@.len(),
    ensures
        final(ctx).if_ctr == old(ctx).if_ctr,
        match (
            r,
            with_arm(
                (Arms {
                    wrap: old(wrap).deep_view(),
                    tasks: old(tasks).deep_view(),
                    synth: Seq::empty(),
                    ifs: 0,
                }),
                j as nat,
                conds.deep_view(),
                caps.deep_view(),
                value,
                name.deep_view(),
                (Done {
                    nodes: nodes.deep_view(),
                    out: out.deep_view(),
                    synth: old(ctx).synth.deep_view(),
                    ifs: old(ctx).if_ctr as nat,
                }),
            ),
        ) {
            (Ok(_), Ok(a)) => {
                &&& final(wrap).deep_view() == a.wrap
                &&& final(tasks).deep_view() == a.tasks
                &&& final(ctx).synth.deep_view() == a.synth
                &&& final(ctx).if_ctr as nat == a.ifs
            },
            (Err(m), Err(n)) => m@ == n,
            _ => false,
        },
{
    proof {
        reveal(with_arm);
    }
    if value {
        match check_output(&nodes, &out) {
            Some(m) => {
                return Err(m.to_owned());
            },
            None => {},
        }
    }
    let when: Option<String> = match build_gate(conds, j, caps) {
        Ok(g) => match g {
            Some(w) => Some(render_when(&w)),
            None => None,
        },
        Err(m) => {
            return Err(m);
        },
    };
    let ident: String = cat2("__athena_", name.rust.as_str());
    let told: Vec<Node> = retag_refs(&nodes);
    let no_paths: Vec<Path> = Vec::new();
    proof {
        assert(no_paths.deep_view() =~= Seq::<PathView>::empty());
    }
    let callees: Vec<Path> = callee_paths(&told, &no_paths);
    let output: SynthOut = match out {
        Some(t) => if value {
            SynthOut::Terminal(t)
        } else {
            SynthOut::Nothing
        },
        None => SynthOut::Nothing,
    };
    let ghost synth1 = ctx.synth.deep_view();
    let wf: SynthWf = SynthWf {
        ident: ident.clone(),
        argo_name: name.argo.clone(),
        inputs: caps.dup(),
        nodes: told,
        callees,
        output,
    };
    let ghost wfv = wf.deep_view();
    ctx.synth.push(wf);
    proof {
        assert(ctx.synth.deep_view() =~= synth1.push(wfv));
    }
    let d: String = decimal(j as u128);
    let task: String = cat2("arm", d.as_str());
    let ghost tasks1 = tasks.deep_view();
    let ghost wrap1 = wrap.deep_view();
    tasks.push(task.clone());
    let node: Node = make_call_node(task, ident.as_str(), args_from_inputs(caps), when);
    let ghost nv = node.deep_view();
    wrap.push(node);
    proof {
        assert(tasks.deep_view() =~= tasks1.push("arm"@ + dec(j as nat)));
        assert(wrap.deep_view() =~= wrap1.push(nv));
    }
    Ok(())
}

proof fn lemma_with_arm(
    a: Arms,
    b: Arms,
    j: nat,
    conds: Seq<Option<CondView>>,
    caps: Seq<Seq<char>>,
    value: bool,
    name: SelfName,
    done: Done,
)
    requires
        a.wrap == b.wrap,
        a.tasks == b.tasks,
    ensures
        with_arm(a, j, conds, caps, value, name, done) == with_arm(
            b,
            j,
            conds,
            caps,
            value,
            name,
            done,
        ),
{
    reveal(with_arm);
}

/// Reads the arms of an `if`: the wrapper's tasks, and their names.
fn read_arms(
    i: &IfExpr,
    arms: &Vec<Arm>,
    conds: &Vec<Option<Cond>>,
    caps: &Vec<String>,
    value: bool,
    me: &BodyName,
    k: u32,
    ctx: &mut SynthCtx,
) -> (r: Result<(Vec<Node>, Vec<String>), String>)
    requires
        arms.deep_view() == arms_of(*i),
        conds@.len() == arms@.len(),
    ensures
        match (
            r,
            arms_upto(
                *i,
                arms_of(*i).len(),
                conds.deep_view(),
                caps.deep_view(),
                value,
                me.deep_view(),
                k as nat,
                old(ctx).synth.deep_view(),
                old(ctx).if_ctr as nat,
            ),
        ) {
            (Ok((wrap, tasks)), Ok(a)) => {
                &&& wrap.deep_view() == a.wrap
                &&& tasks.deep_view() == a.tasks
                &&& final(ctx).synth.deep_view() == a.synth
                &&& final(ctx).if_ctr as nat == a.ifs
            },
            (Err(m), Err(n)) => m@ == n,
            _ => false,
        },
    decreases *i, 0int,
{
    let ghost av = arms.deep_view();
    let ghost cv = conds.deep_view();
    let ghost cap = caps.deep_view();
    let ghost mv = me.deep_view();
    let ghost kn = k as nat;
    let ghost synth0 = ctx.synth.deep_view();
    let ghost ifs0 = ctx.if_ctr as nat;
    let wrapped: BodyName = name_wrap(me, k);
    let mut wrap: Vec<Node> = Vec::new();
    let mut tasks: Vec<String> = Vec::new();
    let mut j: usize = 0;
    proof {
        assert(wrap.deep_view() =~= Seq::<NodeView>::empty());
        assert(tasks.deep_view() =~= Seq::<Seq<char>>::empty());
        lemma_arms_step(*i, 0, cv, cap, value, mv, kn, synth0, ifs0);
    }
    while j < arms.len()
        invariant
            av == arms.deep_view(),
            av == arms_of(*i),
            cv == conds.deep_view(),
            conds@.len() == arms@.len(),
            cap == caps.deep_view(),
            mv == me.deep_view(),
            kn == k as nat,
            synth0 == old(ctx).synth.deep_view(),
            ifs0 == old(ctx).if_ctr as nat,
            wrapped.deep_view() == wrap_name(mv, kn),
            j <= arms@.len(),
            arms_upto(*i, j as nat, cv, cap, value, mv, kn, synth0, ifs0) == Ok::<
                Arms,
                Seq<char>,
            >(
                Arms {
                    wrap: wrap.deep_view(),
                    tasks: tasks.deep_view(),
                    synth: ctx.synth.deep_view(),
                    ifs: ctx.if_ctr as nat,
                },
            ),
        decreases arms@.len() - j,
    {
        let ghost st0 = Arms {
            wrap: wrap.deep_view(),
            tasks: tasks.deep_view(),
            synth: ctx.synth.deep_view(),
            ifs: ctx.if_ctr as nat,
        };
        let ghost next = (j + 1) as nat;
        proof {
            lemma_arms(*i);
            assert(decreases_to!(*i => arms_of(*i)[j as int].1));
            assert(av[j as int].1 == arms@[j as int].body@);
            lemma_arms_step(*i, next, cv, cap, value, mv, kn, synth0, ifs0);
            if arms_upto(*i, next, cv, cap, value, mv, kn, synth0, ifs0) is Err {
                lemma_arms_err(*i, next, av.len(), cv, cap, value, mv, kn, synth0, ifs0);
            }
        }
        let name: BodyName = name_arm(&wrapped, j);
        proof {
            assert(name.deep_view() == arm_name(mv, kn, j as nat));
        }
        let (nodes, out) = match analyze_stmts(arms[j].body, caps, value, &name, ctx) {
            Ok(p) => p,
            Err(m) => {
                return Err(m);
            },
        };
        proof {
            let done = Done {
                nodes: nodes.deep_view(),
                out: out.deep_view(),
                synth: ctx.synth.deep_view(),
                ifs: ctx.if_ctr as nat,
            };
            lemma_with_arm(
                st0,
                Arms { wrap: st0.wrap, tasks: st0.tasks, synth: Seq::empty(), ifs: 0 },
                j as nat,
                cv,
                cap,
                value,
                name.deep_view(),
                done,
            );
        }
        match add_arm(j, conds, caps, value, &name, nodes, out, &mut wrap, &mut tasks, ctx) {
            Ok(_) => {},
            Err(m) => {
                return Err(m);
            },
        }
        j = j + 1;
    }
    Ok((wrap, tasks))
}

fn add_wrapper(
    scope: &TextMap<String>,
    caps: &Vec<String>,
    wrap: Vec<Node>,
    tasks: Vec<String>,
    bind: Option<&str>,
    value: bool,
    me: &BodyName,
    k: u32,
    st: &mut BodyState,
    ctx: &mut SynthCtx,
    Ghost(head): Ghost<IfHead>,
    Ghost(b0): Ghost<Body>,
) -> (r: String)
    requires
        head.scope == scope.deep_view(),
        head.caps == caps.deep_view(),
        head.hoist.used == old(st).used.deep_view(),
        head.hoist.nodes == old(st).nodes.deep_view(),
        b0.bindings == old(st).bindings.deep_view(),
        b0.out == old(st).out.deep_view(),
    ensures
        (r@, body_view(*final(st), *final(ctx))) == with_wrapper(
            head,
            (Arms {
                wrap: wrap.deep_view(),
                tasks: tasks.deep_view(),
                synth: old(ctx).synth.deep_view(),
                ifs: old(ctx).if_ctr as nat,
            }),
            opt_view(bind),
            value,
            me.deep_view(),
            k as nat,
            b0,
        ),
{
    proof {
        reveal(with_wrapper);
    }
    let wrapped: BodyName = name_wrap(me, k);
    let ident: String = cat2("__athena_", wrapped.rust.as_str());
    let no_paths: Vec<Path> = Vec::new();
    proof {
        assert(no_paths.deep_view() =~= Seq::<PathView>::empty());
    }
    let callees: Vec<Path> = callee_paths(&wrap, &no_paths);
    let output: SynthOut = if value {
        SynthOut::Select(tasks)
    } else {
        SynthOut::Nothing
    };
    let ghost synth1 = ctx.synth.deep_view();
    let wf: SynthWf = SynthWf {
        ident: ident.clone(),
        argo_name: wrapped.argo,
        inputs: caps.dup(),
        nodes: wrap,
        callees,
        output,
    };
    let ghost wfv = wf.deep_view();
    ctx.synth.push(wf);
    proof {
        assert(ctx.synth.deep_view() =~= synth1.push(wfv));
    }
    let base: &str = match bind {
        Some(n) => n,
        None => "if",
    };
    let task: String = uniq_task(&mut st.used, base);
    let args: Vec<Arg> = args_from_scope(caps, scope);
    let ghost nodes1 = st.nodes.deep_view();
    let node: Node = make_call_node(task.clone(), ident.as_str(), args, None);
    let ghost nv = node.deep_view();
    st.nodes.push(node);
    proof {
        assert(st.nodes.deep_view() =~= nodes1.push(nv));
    }
    task
}

/// Reads an `if`: synthesizes its wrapper and its arms, and records the task
/// that runs the wrapper. `value` says whether the `if` has a value; that takes
/// an `else`, and a value in every arm.
pub fn synth_if(
    i: &IfExpr,
    bind: Option<&str>,
    value: bool,
    inputs: &Vec<String>,
    me: &BodyName,
    st: &mut BodyState,
    ctx: &mut SynthCtx,
) -> (r: Result<String, String>)
    ensures
        task_agrees(
            r,
            synth_of(
                *i,
                opt_view(bind),
                value,
                inputs.deep_view(),
                me.deep_view(),
                body_view(*old(st), *old(ctx)),
            ),
            body_view(*final(st), *final(ctx)),
        ),
    decreases *i, 1int,
{
    let ghost b0 = body_view(*st, *ctx);
    let arms: Vec<Arm> = if_arms(i);
    proof {
        lemma_arms(*i);
        lemma_synth_step(*i, opt_view(bind), value, inputs.deep_view(), me.deep_view(), b0);
        assert(arms@.len() == arms.deep_view().len());
    }
    let k: u32 = ctx.if_ctr;
    let head: Head = match read_head(&arms, value, inputs, st, k, Ghost(*ctx)) {
        Ok(h) => h,
        Err(m) => {
            return Err(m);
        },
    };
    let ghost hv = if_head(arms_of(*i), value, inputs.deep_view(), b0)->Ok_0;
    ctx.if_ctr = k + 1;
    let (wrap, tasks) = match read_arms(i, &arms, &head.conds, &head.caps, value, me, k, ctx) {
        Ok(p) => p,
        Err(m) => {
            return Err(m);
        },
    };
    let task: String = add_wrapper(
        &head.scope,
        &head.caps,
        wrap,
        tasks,
        bind,
        value,
        me,
        k,
        st,
        ctx,
        Ghost(hv),
        Ghost(b0),
    );
    Ok(task)
}

/// Reads a body: its tasks, and the task whose result it returns, where it has
/// a value.
pub fn analyze_stmts(
    stmts: &Vec<Stmt>,
    inputs: &Vec<String>,
    want_output: bool,
    me: &BodyName,
    ctx: &mut SynthCtx,
) -> (r: Result<(Vec<Node>, Option<String>), String>)
    ensures
        match (
            r,
            stmts_done(
                stmts@,
                inputs.deep_view(),
                want_output,
                me.deep_view(),
                old(ctx).synth.deep_view(),
                old(ctx).if_ctr as nat,
            ),
        ) {
            (Ok((nodes, out)), Ok(d)) => {
                &&& nodes.deep_view() == d.nodes
                &&& out.deep_view() == d.out
                &&& final(ctx).synth.deep_view() == d.synth
                &&& final(ctx).if_ctr as nat == d.ifs
            },
            (Err(m), Err(n)) => m@ == n,
            _ => false,
        },
    decreases stmts@, 1int,
{
    let ghost ins = inputs.deep_view();
    let ghost mv = me.deep_view();
    let ghost synth0 = ctx.synth.deep_view();
    let ghost ifs0 = ctx.if_ctr as nat;
    let mut st: BodyState = BodyState {
        nodes: Vec::new(),
        used: Vec::new(),
        bindings: TextMap::new(),
        out: None,
    };
    let mut i: usize = 0;
    proof {
        assert(st.nodes.deep_view() =~= Seq::<NodeView>::empty());
        assert(st.used.deep_view() =~= Seq::<Seq<char>>::empty());
        lemma_stmts_step(stmts@, 0, ins, want_output, mv, synth0, ifs0);
        lemma_done_step(stmts@, ins, want_output, mv, synth0, ifs0);
    }
    while i < stmts.len()
        invariant
            ins == inputs.deep_view(),
            mv == me.deep_view(),
            synth0 == old(ctx).synth.deep_view(),
            ifs0 == old(ctx).if_ctr as nat,
            i <= stmts@.len(),
            stmts_upto(stmts@, i as nat, ins, want_output, mv, synth0, ifs0) == Ok::<
                Body,
                Seq<char>,
            >(body_view(st, *ctx)),
        decreases stmts@.len() - i,
    {
        let last: bool = i + 1 == stmts.len();
        proof {
            let next = (i + 1) as nat;
            lemma_stmts_step(stmts@, next, ins, want_output, mv, synth0, ifs0);
            lemma_if_in(stmts@[i as int], last, want_output);
            lemma_done_step(stmts@, ins, want_output, mv, synth0, ifs0);
            if stmts_upto(stmts@, next, ins, want_output, mv, synth0, ifs0) is Err {
                lemma_stmts_err(
                    stmts@,
                    next,
                    stmts@.len(),
                    ins,
                    want_output,
                    mv,
                    synth0,
                    ifs0,
                );
            }
        }
        match if_parts(&stmts[i], last, want_output) {
            Some(p) => {
                let b: Option<&str> = match &p.bind {
                    Some(x) => Some(x.as_str()),
                    None => None,
                };
                match synth_if(p.e, b, p.value, inputs, me, &mut st, ctx) {
                    Ok(t) => finish_if(&stmts[i], last, want_output, t, &mut st, Ghost(*ctx)),
                    Err(m) => {
                        return Err(m);
                    },
                }
            },
            None => match read_plain(
                &stmts[i],
                last,
                want_output,
                inputs,
                &mut st,
                Ghost(*ctx),
            ) {
                Ok(_) => {},
                Err(m) => {
                    return Err(m);
                },
            },
        }
        i = i + 1;
    }
    let out: Option<String> = if want_output {
        st.out
    } else {
        None
    };
    Ok((st.nodes, out))
}

} // verus!
