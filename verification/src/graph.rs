//! What holds of every graph of tasks that a workflow body becomes.

use crate::analyze::{
    arg_fn, arg_of, args_upto, hook_fn, law_unique_name_is_free, lemma_dec_value, push_of,
    resolved_arg, unique_name, HookSpecView, NodeOptsView, Scope,
};
use crate::api::DagTaskView;
use crate::ast::{call_of, core_of, lemma_call, lemma_core, BinOp, Expr, FnDecl, IfExpr, PathView, Stmt};
use crate::body::{
    after_if, arm_name, arms_of, arms_upto, call_stmt, capture_args, conds_upto, if_head, if_in,
    input_args, lemma_arms, lemma_arms_step, lemma_done_step, lemma_if_in, lemma_stmts_step,
    lemma_synth_step, plain_step, return_value, stmts_done, stmts_upto, synth_of, template_call,
    value_call, with_arm, with_conds, with_wrapper, Arms, Body, Done, IfHead, SelfName,
};
use crate::conditional::{hoisted, hoisted_operand, rel_of, CondView, Hoist};
use crate::folds::{lemma_map_res_len, map_res};
use crate::lower::{deps_upto, needs, task_of, TemplateInfoView};
use crate::node::{
    ArgView, FanSrcView, HookView, NodeView, SynthOutView, SynthWfView,
};
use crate::scope::{retag_arg, retagged};
use crate::sorted::law_text_order;
use crate::text::dec;
use crate::workflow::{
    analyzed, node_wire_fn, one_each, workflow_template_of, Known, WorkflowDeclView,
};
use vstd::prelude::*;

verus! {

/// Whether a task is called `t`.
pub open spec fn has_task(nodes: Seq<NodeView>, t: Seq<char>) -> bool {
    exists|i: int| 0 <= i < nodes.len() && (#[trigger] nodes[i]).task == t
}

/// Whether one of these arguments needs the result of the task `t`.
pub open spec fn some_needs(args: Seq<ArgView>, t: Seq<char>) -> bool {
    exists|k: int| 0 <= k < args.len() && needs(#[trigger] args[k]) == Some(t)
}

/// Whether one of these hooks needs the result of the task `t`.
pub open spec fn hooks_need(hooks: Seq<HookView>, t: Seq<char>) -> bool {
    exists|h: int| 0 <= h < hooks.len() && some_needs((#[trigger] hooks[h]).args, t)
}

/// Whether a task refers to the task `t`: by an argument, by the list it walks, or
/// by a hook.
pub open spec fn refers(n: NodeView, t: Seq<char>) -> bool {
    some_needs(n.args, t) || n.fan == Some(FanSrcView::Task(t)) || hooks_need(n.hooks, t)
}

pub open spec fn distinct_tasks(nodes: Seq<NodeView>) -> bool {
    forall|i: int, j: int|
        0 <= i < j < nodes.len() ==> (#[trigger] nodes[i]).task != (#[trigger] nodes[j]).task
}

/// Whether every task refers to earlier tasks only.
pub open spec fn backward(nodes: Seq<NodeView>) -> bool {
    forall|i: int, t: Seq<char>|
        0 <= i < nodes.len() && #[trigger] refers(nodes[i], t) ==> has_task(nodes.take(i), t)
}

/// A graph of tasks that can run: no name twice, and nothing waits for a task that
/// is not before it.
pub open spec fn sound_graph(nodes: Seq<NodeView>) -> bool {
    distinct_tasks(nodes) && backward(nodes)
}

/// A workflow of an `if` whose graph can run, and that returns results of its own
/// tasks.
pub open spec fn sound_synth(s: SynthWfView) -> bool {
    &&& sound_graph(s.nodes)
    &&& match s.output {
        SynthOutView::Nothing => true,
        SynthOutView::Terminal(t) => has_task(s.nodes, t),
        SynthOutView::Select(ts) => ts.len() > 0 && forall|i: int|
            0 <= i < ts.len() ==> has_task(s.nodes, #[trigger] ts[i]),
    }
}

pub open spec fn sound_synths(s: Seq<SynthWfView>) -> bool {
    forall|i: int| 0 <= i < s.len() ==> sound_synth(#[trigger] s[i])
}

/// Names and tasks that fit: a sound graph all of whose names are taken.
spec fn tidy(used: Seq<Seq<char>>, nodes: Seq<NodeView>) -> bool {
    &&& sound_graph(nodes)
    &&& forall|i: int| 0 <= i < nodes.len() ==> used.contains((#[trigger] nodes[i]).task)
}

spec fn grows(
    used: Seq<Seq<char>>,
    nodes: Seq<NodeView>,
    used2: Seq<Seq<char>>,
    nodes2: Seq<NodeView>,
) -> bool {
    &&& nodes.len() <= nodes2.len()
    &&& nodes2.take(nodes.len() as int) == nodes
    &&& forall|t: Seq<char>| #[trigger] used.contains(t) ==> used2.contains(t)
    &&& forall|i: int|
        nodes.len() <= i < nodes2.len() ==> !used.contains((#[trigger] nodes2[i]).task)
}

/// Whether every binding stands for a task.
spec fn bound(b: Scope, nodes: Seq<NodeView>) -> bool {
    forall|n: Seq<char>| #[trigger] b.dom().contains(n) ==> has_task(nodes, b[n])
}

proof fn lemma_has_more(a: Seq<NodeView>, b: Seq<NodeView>, t: Seq<char>)
    requires
        a.len() <= b.len(),
        b.take(a.len() as int) == a,
        has_task(a, t),
    ensures
        has_task(b, t),
{
    let i = choose|i: int| 0 <= i < a.len() && (#[trigger] a[i]).task == t;
    assert(b.take(a.len() as int)[i] == b[i]);
}

proof fn lemma_bound_more(s: Scope, a: Seq<NodeView>, b: Seq<NodeView>)
    requires
        a.len() <= b.len(),
        b.take(a.len() as int) == a,
        bound(s, a),
    ensures
        bound(s, b),
{
    assert forall|n: Seq<char>| #[trigger] s.dom().contains(n) implies has_task(b, s[n]) by {
        lemma_has_more(a, b, s[n]);
    }
}

proof fn lemma_grows_trans(
    u0: Seq<Seq<char>>,
    n0: Seq<NodeView>,
    u1: Seq<Seq<char>>,
    n1: Seq<NodeView>,
    u2: Seq<Seq<char>>,
    n2: Seq<NodeView>,
)
    requires
        grows(u0, n0, u1, n1),
        grows(u1, n1, u2, n2),
    ensures
        grows(u0, n0, u2, n2),
{
    assert(n2.take(n0.len() as int) =~= n0) by {
        assert forall|i: int| 0 <= i < n0.len() implies n2[i] == n0[i] by {
            assert(n2.take(n1.len() as int)[i] == n2[i]);
            assert(n1.take(n0.len() as int)[i] == n1[i]);
        }
    }
    assert forall|i: int| n0.len() <= i < n2.len() implies !u0.contains(
        (#[trigger] n2[i]).task,
    ) by {
        if i < n1.len() {
            assert(n2.take(n1.len() as int)[i] == n2[i]);
            assert(!u0.contains(n1[i].task));
        } else {
            assert(!u1.contains(n2[i].task));
        }
    }
}

// ---- arguments -------------------------------------------------------------------------
proof fn lemma_arg(e: Expr, b: Scope, ins: Seq<Seq<char>>)
    ensures
        arg_of(e, b, ins) matches Ok(a) ==> (needs(a) matches Some(t) ==> exists|n: Seq<char>| #[trigger]
            b.dom().contains(n) && b[n] == t),
    decreases e,
{
    match e {
        Expr::Paren { expr } => lemma_arg(*expr, b, ins),
        Expr::Group { expr } => lemma_arg(*expr, b, ins),
        Expr::Reference { mutable: _, expr } => lemma_arg(*expr, b, ins),
        Expr::MethodCall { receiver, method: _, args: _ } => lemma_arg(*receiver, b, ins),
        _ => {},
    }
}

proof fn lemma_resolved(
    e: Expr,
    item: Option<Seq<char>>,
    b: Scope,
    ins: Seq<Seq<char>>,
    nodes: Seq<NodeView>,
)
    requires
        bound(b, nodes),
    ensures
        resolved_arg(e, item, b, ins) matches Ok(a) ==> (needs(a) matches Some(t) ==> has_task(
            nodes,
            t,
        )),
{
    lemma_arg(e, b, ins);
}

proof fn lemma_hooks(
    hooks: Seq<HookSpecView>,
    item: Option<Seq<char>>,
    b: Scope,
    ins: Seq<Seq<char>>,
    nodes: Seq<NodeView>,
)
    requires
        bound(b, nodes),
    ensures
        map_res(hooks, hook_fn(item, b, ins)) matches Ok(hs) ==> forall|t: Seq<char>| #[trigger]
            hooks_need(hs, t) ==> has_task(nodes, t),
{
    let f = hook_fn(item, b, ins);
    lemma_map_res_len(hooks, f);
    if map_res(hooks, f) is Ok {
        let hs = map_res(hooks, f)->Ok_0;
        assert forall|t: Seq<char>| #[trigger] hooks_need(hs, t) implies has_task(nodes, t) by {
            let h = choose|h: int| 0 <= h < hs.len() && some_needs((#[trigger] hs[h]).args, t);
            assert(f(hooks[h]) == Ok::<HookView, Seq<char>>(hs[h]));
            let g = arg_fn(item, b, ins);
            let raw = hooks[h].raw_args;
            lemma_map_res_len(raw, g);
            let args = hs[h].args;
            let k = choose|k: int| 0 <= k < args.len() && needs(#[trigger] args[k]) == Some(t);
            assert(g(raw[k]) == Ok::<ArgView, Seq<char>>(args[k]));
            lemma_resolved(raw[k], item, b, ins, nodes);
        }
    }
}

/// One more task, whose name is free and which refers to tasks that are there.
proof fn lemma_one_more(used: Seq<Seq<char>>, nodes: Seq<NodeView>, n: NodeView)
    requires
        tidy(used, nodes),
        used.contains(n.task),
        !has_task(nodes, n.task),
        forall|t: Seq<char>| #[trigger] refers(n, t) ==> has_task(nodes, t),
    ensures
        tidy(used, nodes.push(n)),
        has_task(nodes.push(n), n.task),
{
    let r = nodes.push(n);
    assert(r[nodes.len() as int] == n);
    assert forall|i: int, j: int| 0 <= i < j < r.len() implies (#[trigger] r[i]).task != (
    #[trigger] r[j]).task by {
        if j == nodes.len() {
            assert(r[i] == nodes[i]);
        } else {
            assert(r[i] == nodes[i] && r[j] == nodes[j]);
        }
    }
    assert forall|i: int, t: Seq<char>| 0 <= i < r.len() && #[trigger] refers(
        r[i],
        t,
    ) implies has_task(r.take(i), t) by {
        if i < nodes.len() {
            assert(r[i] == nodes[i]);
            assert(refers(nodes[i], t));
            assert(r.take(i) =~= nodes.take(i));
        } else {
            assert(r.take(i) =~= nodes);
        }
    }
    assert forall|i: int| 0 <= i < r.len() implies used.contains((#[trigger] r[i]).task) by {
        if i < nodes.len() {
            assert(r[i] == nodes[i]);
        }
    }
}

spec fn args_fit(args: Seq<ArgView>, nodes: Seq<NodeView>) -> bool {
    forall|t: Seq<char>| #[trigger] some_needs(args, t) ==> has_task(nodes, t)
}

proof fn lemma_args_push(args: Seq<ArgView>, a: ArgView, nodes: Seq<NodeView>)
    requires
        args_fit(args, nodes),
        needs(a) matches Some(t) ==> has_task(nodes, t),
    ensures
        args_fit(args.push(a), nodes),
{
    let r = args.push(a);
    assert forall|t: Seq<char>| #[trigger] some_needs(r, t) implies has_task(nodes, t) by {
        let k = choose|k: int| 0 <= k < r.len() && needs(#[trigger] r[k]) == Some(t);
        if k < args.len() {
            assert(needs(args[k]) == Some(t));
            assert(some_needs(args, t));
        }
    }
}

proof fn lemma_args_more(args: Seq<ArgView>, a: Seq<NodeView>, b: Seq<NodeView>)
    requires
        args_fit(args, a),
        a.len() <= b.len(),
        b.take(a.len() as int) == a,
    ensures
        args_fit(args, b),
{
    assert forall|t: Seq<char>| #[trigger] some_needs(args, t) implies has_task(b, t) by {
        lemma_has_more(a, b, t);
    }
}

proof fn lemma_args(
    raw: Seq<Expr>,
    n: nat,
    item: Option<Seq<char>>,
    used: Seq<Seq<char>>,
    nodes: Seq<NodeView>,
    b: Scope,
    ins: Seq<Seq<char>>,
)
    requires
        tidy(used, nodes),
        bound(b, nodes),
    ensures
        args_upto(raw, n, item, used, nodes, b, ins) matches Ok(d) ==> {
            &&& tidy(d.used, d.nodes)
            &&& grows(used, nodes, d.used, d.nodes)
            &&& args_fit(d.args, d.nodes)
        },
    decreases raw, n,
{
    if n == 0 || n > raw.len() {
        assert(nodes.take(nodes.len() as int) =~= nodes);
    } else {
        lemma_call(raw[n - 1]);
        lemma_args(raw, (n - 1) as nat, item, used, nodes, b, ins);
        if args_upto(raw, (n - 1) as nat, item, used, nodes, b, ins) is Ok {
            let done = args_upto(raw, (n - 1) as nat, item, used, nodes, b, ins)->Ok_0;
            lemma_bound_more(b, nodes, done.nodes);
            match (item, call_of(raw[n - 1])) {
                (None, Some((callee, inner))) => {
                    let c = callee.deep_view();
                    lemma_push(
                        c,
                        inner,
                        c.leaf(),
                        NodeOptsView::empty(),
                        None,
                        None,
                        done.used,
                        done.nodes,
                        b,
                        ins,
                    );
                    let r = push_of(
                        c,
                        inner,
                        c.leaf(),
                        NodeOptsView::empty(),
                        None,
                        None,
                        done.used,
                        done.nodes,
                        b,
                        ins,
                    );
                    if r is Ok {
                        let p = r->Ok_0;
                        lemma_grows_trans(used, nodes, done.used, done.nodes, p.used, p.nodes);
                        lemma_args_more(done.args, done.nodes, p.nodes);
                        lemma_args_push(done.args, ArgView::Ref(p.task), p.nodes);
                    }
                },
                _ => {
                    lemma_resolved(raw[n - 1], item, b, ins, done.nodes);
                    let r = resolved_arg(raw[n - 1], item, b, ins);
                    if r is Ok {
                        lemma_args_push(done.args, r->Ok_0, done.nodes);
                    }
                },
            }
        }
    }
}

/// A list that a fan-out walks and that is there.
spec fn fan_fits(fan: Option<FanSrcView>, nodes: Seq<NodeView>) -> bool {
    fan matches Some(FanSrcView::Task(t)) ==> has_task(nodes, t)
}

proof fn lemma_push(
    callee: PathView,
    raw: Seq<Expr>,
    base: Seq<char>,
    opts: NodeOptsView,
    item: Option<Seq<char>>,
    fan: Option<FanSrcView>,
    used: Seq<Seq<char>>,
    nodes: Seq<NodeView>,
    b: Scope,
    ins: Seq<Seq<char>>,
)
    requires
        tidy(used, nodes),
        bound(b, nodes),
        fan_fits(fan, nodes),
    ensures
        push_of(callee, raw, base, opts, item, fan, used, nodes, b, ins) matches Ok(p) ==> {
            &&& tidy(p.used, p.nodes)
            &&& grows(used, nodes, p.used, p.nodes)
            &&& has_task(p.nodes, p.task)
        },
    decreases raw, raw.len() + 1,
{
    let task = unique_name(used, base);
    let used1 = used.push(task);
    law_unique_name_is_free(used, base);
    assert forall|t: Seq<char>| #[trigger] used.contains(t) implies used1.contains(t) by {
        let i = choose|i: int| 0 <= i < used.len() && used[i] == t;
        assert(used1[i] == t);
    }
    assert(used1[used.len() as int] == task);
    lemma_args(raw, raw.len(), item, used1, nodes, b, ins);
    let a = args_upto(raw, raw.len(), item, used1, nodes, b, ins);
    let h = map_res(opts.hooks, hook_fn(item, b, ins));
    if a is Ok && h is Ok {
        let done = a->Ok_0;
        let hooks = h->Ok_0;
        lemma_bound_more(b, nodes, done.nodes);
        lemma_hooks(opts.hooks, item, b, ins, done.nodes);
        let n = NodeView {
            task,
            callee,
            args: done.args,
            continue_on: opts.continue_on,
            hooks,
            fan,
            when: None,
        };
        assert(used1.contains(task));
        assert(done.used.contains(task));
        assert(!has_task(done.nodes, task)) by {
            if has_task(done.nodes, task) {
                let i = choose|i: int|
                    0 <= i < done.nodes.len() && (#[trigger] done.nodes[i]).task == task;
                if i < nodes.len() {
                    assert(done.nodes.take(nodes.len() as int)[i] == done.nodes[i]);
                    assert(used.contains(nodes[i].task));
                } else {
                    assert(!used1.contains(done.nodes[i].task));
                }
            }
        }
        assert forall|t: Seq<char>| #[trigger] refers(n, t) implies has_task(done.nodes, t) by {
            if some_needs(n.args, t) {
            } else if n.fan == Some(FanSrcView::Task(t)) {
                lemma_has_more(nodes, done.nodes, t);
            } else {
                assert(hooks_need(hooks, t));
            }
        }
        lemma_one_more(done.used, done.nodes, n);
        let r = done.nodes.push(n);
        assert(r.take(nodes.len() as int) =~= nodes) by {
            assert forall|i: int| 0 <= i < nodes.len() implies r[i] == nodes[i] by {
                assert(done.nodes.take(nodes.len() as int)[i] == done.nodes[i]);
            }
        }
        assert forall|i: int| nodes.len() <= i < r.len() implies !used.contains(
            (#[trigger] r[i]).task,
        ) by {
            if i < done.nodes.len() {
                assert(r[i] == done.nodes[i]);
                assert(!used1.contains(done.nodes[i].task));
            }
        }
        assert forall|t: Seq<char>| #[trigger] used.contains(t) implies done.used.contains(t) by {
            assert(used1.contains(t));
        }
    }
}

// ---- conditions ------------------------------------------------------------------------
spec fn hoist_fits(h: Hoist) -> bool {
    &&& tidy(h.used, h.nodes)
    &&& forall|i: int| 0 <= i < h.seen.len() ==> has_task(h.nodes, (#[trigger] h.seen[i]).1)
}

proof fn lemma_operand(e: Expr, b: Scope, ins: Seq<Seq<char>>, st: Hoist)
    requires
        hoist_fits(st),
        bound(b, st.nodes),
    ensures
        hoisted_operand(e, b, ins, st) matches Ok((_, s)) ==> hoist_fits(s) && grows(
            st.used,
            st.nodes,
            s.used,
            s.nodes,
        ),
{
    assert(st.nodes.take(st.nodes.len() as int) =~= st.nodes);
    match call_of(e) {
        Some((callee, args)) => {
            let c = callee.deep_view();
            lemma_push(
                c,
                args,
                c.leaf(),
                NodeOptsView::empty(),
                None,
                None,
                st.used,
                st.nodes,
                b,
                ins,
            );
            if hoisted_operand(e, b, ins, st) is Ok {
                let s = (hoisted_operand(e, b, ins, st)->Ok_0).1;
                assert forall|i: int| 0 <= i < s.seen.len() implies has_task(
                    s.nodes,
                    (#[trigger] s.seen[i]).1,
                ) by {
                    if i < st.seen.len() {
                        assert(s.seen[i] == st.seen[i]);
                        lemma_has_more(st.nodes, s.nodes, st.seen[i].1);
                    }
                }
            }
        },
        None => {},
    }
}

proof fn lemma_hoisted(e: Expr, b: Scope, ins: Seq<Seq<char>>, st: Hoist)
    requires
        hoist_fits(st),
        bound(b, st.nodes),
    ensures
        hoisted(e, b, ins, st) matches Ok((_, s)) ==> hoist_fits(s) && grows(
            st.used,
            st.nodes,
            s.used,
            s.nodes,
        ),
    decreases e,
{
    lemma_core(e);
    assert(st.nodes.take(st.nodes.len() as int) =~= st.nodes);
    match core_of(e) {
        Expr::Binary { op, left, right } => match rel_of(op) {
            Some(_) => {
                lemma_operand(*left, b, ins, st);
                if hoisted_operand(*left, b, ins, st) is Ok {
                    let s1 = (hoisted_operand(*left, b, ins, st)->Ok_0).1;
                    lemma_bound_more(b, st.nodes, s1.nodes);
                    lemma_operand(*right, b, ins, s1);
                    if hoisted_operand(*right, b, ins, s1) is Ok {
                        let s2 = (hoisted_operand(*right, b, ins, s1)->Ok_0).1;
                        lemma_grows_trans(
                            st.used,
                            st.nodes,
                            s1.used,
                            s1.nodes,
                            s2.used,
                            s2.nodes,
                        );
                    }
                }
            },
            None => {
                if op == BinOp::And || op == BinOp::Or {
                    lemma_hoisted(*left, b, ins, st);
                    if hoisted(*left, b, ins, st) is Ok {
                        let s1 = (hoisted(*left, b, ins, st)->Ok_0).1;
                        lemma_bound_more(b, st.nodes, s1.nodes);
                        lemma_hoisted(*right, b, ins, s1);
                        if hoisted(*right, b, ins, s1) is Ok {
                            let s2 = (hoisted(*right, b, ins, s1)->Ok_0).1;
                            lemma_grows_trans(
                                st.used,
                                st.nodes,
                                s1.used,
                                s1.nodes,
                                s2.used,
                                s2.nodes,
                            );
                        }
                    }
                }
            },
        },
        Expr::Not { expr } => lemma_hoisted(*expr, b, ins, st),
        _ => lemma_operand(e, b, ins, st),
    }
}

proof fn lemma_conds(
    arms: Seq<(Option<Expr>, Seq<Stmt>)>,
    n: nat,
    b: Scope,
    ins: Seq<Seq<char>>,
    st: Hoist,
)
    requires
        hoist_fits(st),
        bound(b, st.nodes),
    ensures
        conds_upto(arms, n, b, ins, st) matches Ok((_, s)) ==> hoist_fits(s) && grows(
            st.used,
            st.nodes,
            s.used,
            s.nodes,
        ),
    decreases n,
{
    assert(st.nodes.take(st.nodes.len() as int) =~= st.nodes);
    if 0 < n <= arms.len() {
        lemma_conds(arms, (n - 1) as nat, b, ins, st);
        if conds_upto(arms, (n - 1) as nat, b, ins, st) is Ok {
            let s1 = (conds_upto(arms, (n - 1) as nat, b, ins, st)->Ok_0).1;
            lemma_bound_more(b, st.nodes, s1.nodes);
            match arms[n - 1].0 {
                Some(e) => {
                    lemma_hoisted(e, b, ins, s1);
                    if hoisted(e, b, ins, s1) is Ok {
                        let s2 = (hoisted(e, b, ins, s1)->Ok_0).1;
                        lemma_grows_trans(
                            st.used,
                            st.nodes,
                            s1.used,
                            s1.nodes,
                            s2.used,
                            s2.nodes,
                        );
                    }
                },
                None => {},
            }
        }
    }
}

proof fn lemma_with_conds(b: Scope, seen: Seq<(Seq<char>, Seq<char>)>, nodes: Seq<NodeView>)
    requires
        bound(b, nodes),
        forall|i: int| 0 <= i < seen.len() ==> has_task(nodes, (#[trigger] seen[i]).1),
    ensures
        bound(with_conds(b, seen), nodes),
    decreases seen.len(),
{
    if seen.len() > 0 {
        let front = seen.drop_last();
        assert forall|i: int| 0 <= i < front.len() implies has_task(
            nodes,
            (#[trigger] front[i]).1,
        ) by {
            assert(seen[i] == front[i]);
        }
        lemma_with_conds(b, front, nodes);
        assert(has_task(nodes, seen[seen.len() - 1].1));
    }
}

// ---- bodies ------------------------------------------------------------------------------
spec fn fits(st: Body) -> bool {
    &&& tidy(st.used, st.nodes)
    &&& bound(st.bindings, st.nodes)
    &&& st.out matches Some(t) ==> has_task(st.nodes, t)
    &&& sound_synths(st.synth)
}

proof fn lemma_recorded(st: Body, used: Seq<Seq<char>>, nodes: Seq<NodeView>)
    requires
        fits(st),
        tidy(used, nodes),
        grows(st.used, st.nodes, used, nodes),
    ensures
        fits(Body { used, nodes, ..st }),
{
    lemma_bound_more(st.bindings, st.nodes, nodes);
    if let Some(t) = st.out {
        lemma_has_more(st.nodes, nodes, t);
    }
}

proof fn lemma_template_call(
    base: Expr,
    bind: Option<Seq<char>>,
    opts: NodeOptsView,
    ins: Seq<Seq<char>>,
    st: Body,
    fan: bool,
)
    requires
        fits(st),
    ensures
        ({
            let r = if fan {
                template_call(base, bind, opts, ins, st)
            } else {
                crate::body::plain_call(base, bind, opts, ins, st)
            };
            r matches Some(Ok(p)) ==> fits(Body { used: p.used, nodes: p.nodes, ..st })
                && has_task(p.nodes, p.task)
        }),
{
    if fan && crate::analyze::fan_of(base) is Some {
        let f = crate::analyze::fan_of(base)->0;
        let src = crate::analyze::fan_source(f.list, st.bindings, ins);
        if src is Ok {
            let c = f.callee.deep_view();
            let name = match bind {
                Some(n) => n,
                None => c.leaf(),
            };
            assert(fan_fits(Some(src->Ok_0), st.nodes));
            lemma_push(
                c,
                f.args,
                name,
                opts,
                Some(f.item),
                Some(src->Ok_0),
                st.used,
                st.nodes,
                st.bindings,
                ins,
            );
            let r = push_of(
                c,
                f.args,
                name,
                opts,
                Some(f.item),
                Some(src->Ok_0),
                st.used,
                st.nodes,
                st.bindings,
                ins,
            );
            if r is Ok {
                lemma_recorded(st, r->Ok_0.used, r->Ok_0.nodes);
            }
        }
    } else if call_of(base) is Some {
        let (callee, args) = call_of(base)->0;
        let c = callee.deep_view();
        let name = match bind {
            Some(n) => n,
            None => c.leaf(),
        };
        lemma_push(c, args, name, opts, None, None, st.used, st.nodes, st.bindings, ins);
        let r = push_of(c, args, name, opts, None, None, st.used, st.nodes, st.bindings, ins);
        if r is Ok {
            lemma_recorded(st, r->Ok_0.used, r->Ok_0.nodes);
        }
    }
}

proof fn lemma_value_call(
    e: Expr,
    bind: Option<Seq<char>>,
    fan: bool,
    ins: Seq<Seq<char>>,
    st: Body,
)
    requires
        fits(st),
    ensures
        value_call(e, bind, fan, ins, st) matches Ok((t, s)) ==> fits(s) && has_task(s.nodes, t),
{
    reveal(value_call);
    if crate::analyze::peeled(e) is Ok {
        let (base, opts) = crate::analyze::peeled(e)->Ok_0;
        lemma_template_call(base, bind, opts, ins, st, fan);
    }
}

proof fn lemma_plain(s: Stmt, last: bool, want: bool, ins: Seq<Seq<char>>, st: Body)
    requires
        fits(st),
    ensures
        plain_step(s, last, want, ins, st) matches Ok(r) ==> fits(r),
{
    reveal(plain_step);
    match s {
        Stmt::Local { pat, init } => match init {
            Some(n) => match crate::analyze::bound_name(pat) {
                Ok(bind) => {
                    lemma_value_call(n.expr, bind, true, ins, st);
                },
                Err(_) => {},
            },
            None => {},
        },
        Stmt::Expr { expr, semi } => match core_of(expr) {
            Expr::Return { value } => match value {
                Some(target) => {
                    reveal(return_value);
                    lemma_value_call(*target, None, false, ins, st);
                },
                None => {},
            },
            Expr::Path(_) => {},
            _ => {
                reveal(call_stmt);
                if crate::analyze::peeled(expr) is Ok {
                    let (base, opts) = crate::analyze::peeled(expr)->Ok_0;
                    lemma_template_call(base, None, opts, ins, st, true);
                }
            },
        },
        _ => {},
    }
}

proof fn lemma_retagged(nodes: Seq<NodeView>)
    requires
        sound_graph(nodes),
    ensures
        sound_graph(retagged(nodes)),
        forall|t: Seq<char>| #[trigger] has_task(nodes, t) ==> has_task(retagged(nodes), t),
{
    let r = retagged(nodes);
    assert forall|i: int, j: int| 0 <= i < j < r.len() implies (#[trigger] r[i]).task != (
    #[trigger] r[j]).task by {
        assert(r[i].task == nodes[i].task && r[j].task == nodes[j].task);
    }
    assert forall|i: int, t: Seq<char>| 0 <= i < r.len() && #[trigger] refers(
        r[i],
        t,
    ) implies has_task(r.take(i), t) by {
        assert(refers(nodes[i], t)) by {
            if some_needs(r[i].args, t) {
                let k = choose|k: int|
                    0 <= k < r[i].args.len() && needs(#[trigger] r[i].args[k]) == Some(t);
                assert(r[i].args[k] == retag_arg(nodes[i].args[k], nodes));
                assert(needs(nodes[i].args[k]) == Some(t));
            } else if hooks_need(r[i].hooks, t) {
                let h = choose|h: int|
                    0 <= h < r[i].hooks.len() && some_needs((#[trigger] r[i].hooks[h]).args, t);
                let a = r[i].hooks[h].args;
                let k = choose|k: int| 0 <= k < a.len() && needs(#[trigger] a[k]) == Some(t);
                assert(a[k] == retag_arg(nodes[i].hooks[h].args[k], nodes));
                assert(needs(nodes[i].hooks[h].args[k]) == Some(t));
                assert(some_needs(nodes[i].hooks[h].args, t));
            }
        }
        let front = nodes.take(i);
        let j = choose|j: int| 0 <= j < front.len() && (#[trigger] front[j]).task == t;
        assert(r.take(i)[j].task == t);
    }
    assert forall|t: Seq<char>| #[trigger] has_task(nodes, t) implies has_task(r, t) by {
        let i = choose|i: int| 0 <= i < nodes.len() && (#[trigger] nodes[i]).task == t;
        assert(r[i].task == t);
    }
}

proof fn lemma_arm_tasks_differ(a: nat, b: nat)
    requires
        a != b,
    ensures
        "arm"@ + dec(a) != "arm"@ + dec(b),
{
    lemma_dec_value(a);
    lemma_dec_value(b);
    let x = "arm"@ + dec(a);
    let y = "arm"@ + dec(b);
    if x == y {
        let n = "arm"@.len() as int;
        assert(x.skip(n) =~= dec(a));
        assert(y.skip(n) =~= dec(b));
    }
}

/// The arms so far: the wrapper runs one task for each, and all that they are made
/// of is sound.
spec fn arms_fit(a: Arms, n: nat) -> bool {
    &&& a.wrap.len() == n
    &&& a.tasks.len() == n
    &&& forall|j: int| 0 <= j < n ==> (#[trigger] a.wrap[j]).task == "arm"@ + dec(j as nat)
    &&& forall|j: int| 0 <= j < n ==> (#[trigger] a.tasks[j]) == "arm"@ + dec(j as nat)
    &&& forall|j: int, t: Seq<char>| 0 <= j < n ==> !#[trigger] refers(a.wrap[j], t)
    &&& sound_synths(a.synth)
}

proof fn lemma_wrapper_graph(a: Arms, n: nat)
    requires
        arms_fit(a, n),
    ensures
        sound_graph(a.wrap),
        forall|i: int| 0 <= i < a.tasks.len() ==> has_task(a.wrap, #[trigger] a.tasks[i]),
{
    assert forall|i: int, j: int| 0 <= i < j < a.wrap.len() implies (#[trigger] a.wrap[i]).task != (
    #[trigger] a.wrap[j]).task by {
        lemma_arm_tasks_differ(i as nat, j as nat);
    }
    assert forall|i: int| 0 <= i < a.tasks.len() implies has_task(a.wrap, #[trigger] a.tasks[i]) by {
        assert(a.wrap[i].task == a.tasks[i]);
    }
}

proof fn lemma_synths_push(s: Seq<SynthWfView>, x: SynthWfView)
    requires
        sound_synths(s),
        sound_synth(x),
    ensures
        sound_synths(s.push(x)),
{
    let r = s.push(x);
    assert forall|i: int| 0 <= i < r.len() implies sound_synth(#[trigger] r[i]) by {
        if i < s.len() {
            assert(r[i] == s[i]);
        }
    }
}

/// A body that was read to its end: its graph can run, it returns the result of one
/// of its own tasks or, where it has no value, none, and all workflows of an `if` so
/// far are sound.
pub open spec fn sound_body(d: Done, want: bool) -> bool {
    &&& sound_graph(d.nodes)
    &&& match d.out {
        Some(t) => want && has_task(d.nodes, t),
        None => true,
    }
    &&& sound_synths(d.synth)
}

proof fn lemma_with_arm(
    st: Arms,
    j: nat,
    conds: Seq<Option<CondView>>,
    caps: Seq<Seq<char>>,
    value: bool,
    name: SelfName,
    done: Done,
)
    requires
        arms_fit(st, j),
        sound_body(done, value),
    ensures
        with_arm(st, j, conds, caps, value, name, done) matches Ok(a) ==> arms_fit(a, j + 1),
{
    reveal(with_arm);
    if with_arm(st, j, conds, caps, value, name, done) is Ok {
        let a = with_arm(st, j, conds, caps, value, name, done)->Ok_0;
        lemma_retagged(done.nodes);
        let x = a.synth.last();
        assert(a.synth =~= done.synth.push(x));
        assert(sound_synth(x));
        lemma_synths_push(done.synth, x);
        assert forall|i: int| 0 <= i < j + 1 implies (#[trigger] a.wrap[i]).task == "arm"@ + dec(
            i as nat,
        ) by {
            if i < j {
                assert(a.wrap[i] == st.wrap[i]);
            }
        }
        assert forall|i: int| 0 <= i < j + 1 implies (#[trigger] a.tasks[i]) == "arm"@ + dec(
            i as nat,
        ) by {
            if i < j {
                assert(a.tasks[i] == st.tasks[i]);
            }
        }
        assert forall|i: int, t: Seq<char>| 0 <= i < j + 1 implies !#[trigger] refers(
            a.wrap[i],
            t,
        ) by {
            if i < j {
                assert(a.wrap[i] == st.wrap[i]);
                assert(!refers(st.wrap[i], t));
            } else {
                let n = a.wrap[i];
                assert(n.args == input_args(caps));
                if some_needs(n.args, t) {
                    let k = choose|k: int|
                        0 <= k < n.args.len() && needs(#[trigger] n.args[k]) == Some(t);
                    assert(n.args[k] == ArgView::Input(caps[k]));
                }
                assert(n.hooks.len() == 0);
            }
        }
    }
}

proof fn lemma_wrapper(
    head: IfHead,
    a: Arms,
    n: nat,
    bind: Option<Seq<char>>,
    value: bool,
    me: SelfName,
    k: nat,
    st: Body,
)
    requires
        fits(st),
        tidy(head.hoist.used, head.hoist.nodes),
        grows(st.used, st.nodes, head.hoist.used, head.hoist.nodes),
        bound(head.scope, head.hoist.nodes),
        arms_fit(a, n),
        n > 0,
    ensures
        fits(with_wrapper(head, a, bind, value, me, k, st).1),
        has_task(
            with_wrapper(head, a, bind, value, me, k, st).1.nodes,
            with_wrapper(head, a, bind, value, me, k, st).0,
        ),
{
    reveal(with_wrapper);
    let (task, r) = with_wrapper(head, a, bind, value, me, k, st);
    let base = match bind {
        Some(b) => b,
        None => "if"@,
    };
    let used = head.hoist.used;
    let nodes = head.hoist.nodes;
    law_unique_name_is_free(used, base);
    let used1 = used.push(task);
    assert forall|t: Seq<char>| #[trigger] used.contains(t) implies used1.contains(t) by {
        let i = choose|i: int| 0 <= i < used.len() && used[i] == t;
        assert(used1[i] == t);
    }
    assert(used1[used.len() as int] == task);
    assert(tidy(used1, nodes));
    let node = r.nodes.last();
    assert(r.nodes =~= nodes.push(node));
    assert(!has_task(nodes, task)) by {
        if has_task(nodes, task) {
            let i = choose|i: int| 0 <= i < nodes.len() && (#[trigger] nodes[i]).task == task;
            assert(used.contains(nodes[i].task));
        }
    }
    assert forall|t: Seq<char>| #[trigger] refers(node, t) implies has_task(nodes, t) by {
        assert(node.hooks.len() == 0);
        let args = capture_args(head.caps, head.scope);
        assert(node.args == args);
        let i = choose|i: int| 0 <= i < args.len() && needs(#[trigger] args[i]) == Some(t);
        assert(head.scope.dom().contains(head.caps[i]));
    }
    lemma_one_more(used1, nodes, node);
    let grown = nodes.push(node);
    assert(grown.take(nodes.len() as int) =~= nodes);
    assert(grows(used, nodes, used1, grown)) by {
        assert forall|i: int| nodes.len() <= i < grown.len() implies !used.contains(
            (#[trigger] grown[i]).task,
        ) by {
            assert(grown[i] == node);
        }
    }
    lemma_grows_trans(st.used, st.nodes, used, nodes, used1, grown);
    lemma_recorded(st, used1, grown);
    lemma_wrapper_graph(a, n);
    let x = r.synth.last();
    assert(r.synth =~= a.synth.push(x));
    assert(sound_synth(x));
    lemma_synths_push(a.synth, x);
}

proof fn lemma_if_arms(
    i: IfExpr,
    n: nat,
    conds: Seq<Option<CondView>>,
    caps: Seq<Seq<char>>,
    value: bool,
    me: SelfName,
    k: nat,
    synth: Seq<SynthWfView>,
    ifs: nat,
)
    requires
        sound_synths(synth),
        n <= arms_of(i).len(),
    ensures
        arms_upto(i, n, conds, caps, value, me, k, synth, ifs) matches Ok(a) ==> arms_fit(a, n),
    decreases i, n,
{
    lemma_arms_step(i, n, conds, caps, value, me, k, synth, ifs);
    if n > 0 {
        lemma_arms(i);
        assert(decreases_to!(i => arms_of(i)[n - 1].1));
        let m = (n - 1) as nat;
        lemma_if_arms(i, m, conds, caps, value, me, k, synth, ifs);
        let before = arms_upto(i, m, conds, caps, value, me, k, synth, ifs);
        if before is Ok {
            let st = before->Ok_0;
            let name = arm_name(me, k, m);
            let body = arms_of(i)[n - 1].1;
            law_body_graph(body, caps, value, name, st.synth, st.ifs);
            let d = stmts_done(body, caps, value, name, st.synth, st.ifs);
            if d is Ok {
                lemma_with_arm(st, m, conds, caps, value, name, d->Ok_0);
            }
        }
    }
}

proof fn lemma_if(
    i: IfExpr,
    bind: Option<Seq<char>>,
    value: bool,
    ins: Seq<Seq<char>>,
    me: SelfName,
    st: Body,
)
    requires
        fits(st),
    ensures
        synth_of(i, bind, value, ins, me, st) matches Ok((t, s)) ==> fits(s) && has_task(
            s.nodes,
            t,
        ),
    decreases i, arms_of(i).len() + 1,
{
    lemma_synth_step(i, bind, value, ins, me, st);
    let arms = arms_of(i);
    lemma_arms(i);
    let h = if_head(arms, value, ins, st);
    if h is Ok {
        let head = h->Ok_0;
        let start = Hoist { used: st.used, nodes: st.nodes, seen: Seq::empty() };
        assert(hoist_fits(start));
        lemma_conds(arms, arms.len(), st.bindings, ins, start);
        assert(hoist_fits(head.hoist) && grows(
            st.used,
            st.nodes,
            head.hoist.used,
            head.hoist.nodes,
        ) && head.scope == with_conds(st.bindings, head.hoist.seen)) by {
            reveal(if_head);
        }
        lemma_bound_more(st.bindings, st.nodes, head.hoist.nodes);
        lemma_with_conds(st.bindings, head.hoist.seen, head.hoist.nodes);
        lemma_if_arms(
            i,
            arms.len(),
            head.conds,
            head.caps,
            value,
            me,
            st.ifs,
            st.synth,
            st.ifs + 1,
        );
        let a = arms_upto(
            i,
            arms.len(),
            head.conds,
            head.caps,
            value,
            me,
            st.ifs,
            st.synth,
            st.ifs + 1,
        );
        if a is Ok {
            lemma_wrapper(head, a->Ok_0, arms.len(), bind, value, me, st.ifs, st);
        }
    }
}

proof fn lemma_after_if(s: Stmt, last: bool, want: bool, r: (Seq<char>, Body))
    requires
        fits(r.1),
        has_task(r.1.nodes, r.0),
    ensures
        fits(after_if(s, last, want, r)),
{
    reveal(after_if);
}

proof fn lemma_upto(
    stmts: Seq<Stmt>,
    n: nat,
    ins: Seq<Seq<char>>,
    want: bool,
    me: SelfName,
    synth: Seq<SynthWfView>,
    ifs: nat,
)
    requires
        sound_synths(synth),
        n <= stmts.len(),
    ensures
        stmts_upto(stmts, n, ins, want, me, synth, ifs) matches Ok(st) ==> fits(st),
    decreases stmts, n,
{
    lemma_stmts_step(stmts, n, ins, want, me, synth, ifs);
    if n > 0 {
        let s = stmts[n - 1];
        let last = n == stmts.len();
        lemma_if_in(s, last, want);
        lemma_upto(stmts, (n - 1) as nat, ins, want, me, synth, ifs);
        let before = stmts_upto(stmts, (n - 1) as nat, ins, want, me, synth, ifs);
        if before is Ok {
            let st = before->Ok_0;
            match if_in(s, last, want) {
                Some((e, bind, value)) => {
                    lemma_if(e, bind, value, ins, me, st);
                    let r = synth_of(e, bind, value, ins, me, st);
                    if r is Ok {
                        lemma_after_if(s, last, want, r->Ok_0);
                    }
                },
                None => lemma_plain(s, last, want, ins, st),
            }
        }
    }
}

/// Whatever a body is, at the top of a workflow or in an arm of an `if`: if it is
/// accepted, no two of its tasks have one name, every task refers to earlier tasks
/// only, what it returns is the result of one of its own tasks, and nothing where no
/// value is wanted. The same holds of every workflow that an `if` in it becomes.
pub proof fn law_body_graph(
    stmts: Seq<Stmt>,
    ins: Seq<Seq<char>>,
    want: bool,
    me: SelfName,
    synth: Seq<SynthWfView>,
    ifs: nat,
)
    requires
        sound_synths(synth),
    ensures
        stmts_done(stmts, ins, want, me, synth, ifs) matches Ok(d) ==> sound_body(d, want),
    decreases stmts, stmts.len() + 1,
{
    lemma_done_step(stmts, ins, want, me, synth, ifs);
    lemma_upto(stmts, stmts.len(), ins, want, me, synth, ifs);
}

/// Whatever a workflow is, if it is accepted, no two of its tasks have one name,
/// every task refers to earlier tasks only, it returns the result of a task exactly
/// where it has a value, that task is one of its own, and the same holds of every
/// workflow that an `if` in it becomes.
pub proof fn law_workflow_graph(f: FnDecl, argo: Seq<char>)
    ensures
        analyzed(f, argo) matches Ok(a) ==> {
            &&& sound_graph(a.nodes)
            &&& a.output_task is Some <==> f.output is Some
            &&& a.output_task matches Some(t) ==> has_task(a.nodes, t)
            &&& sound_synths(a.synths)
        },
{
    let ins = crate::signature::signature_of(crate::signature::args_of(f.params@)).inputs;
    let me = SelfName { argo, rust: f.name@ };
    law_body_graph(f.body@, ins, f.output is Some, me, Seq::empty(), 0);
    let d = stmts_done(f.body@, ins, f.output is Some, me, Seq::empty(), 0);
    if d is Ok {
        lemma_retagged(d->Ok_0.nodes);
    }
}

proof fn lemma_deps(n: NodeView, k: nat, t: Seq<char>)
    requires
        k <= n.args.len(),
        deps_upto(n.fan, n.args, k, false).contains(t),
    ensures
        refers(n, t),
    decreases k,
{
    let d = deps_upto(n.fan, n.args, k, false);
    if k > 0 {
        let front = deps_upto(n.fan, n.args, (k - 1) as nat, false);
        if front.contains(t) {
            lemma_deps(n, (k - 1) as nat, t);
        } else {
            let i = choose|i: int| 0 <= i < d.len() && d[i] == t;
            if i < front.len() {
                assert(front[i] == t);
            }
            assert(needs(n.args[k - 1]) == Some(t));
            assert(some_needs(n.args, t));
        }
    } else {
        let i = choose|i: int| 0 <= i < d.len() && d[i] == t;
    }
}

/// In a sound graph every dependency that is written for a task names a task
/// before it, so the graph that is run has no cycle.
pub proof fn law_dependencies_are_earlier(
    nodes: Seq<NodeView>,
    i: int,
    callee: TemplateInfoView,
    hooks: Seq<TemplateInfoView>,
    t: Seq<char>,
)
    requires
        sound_graph(nodes),
        0 <= i < nodes.len(),
        task_of(nodes[i], callee, hooks, false).dependencies.contains(t),
    ensures
        has_task(nodes.take(i), t),
{
    let n = nodes[i];
    law_text_order();
    let d = deps_upto(n.fan, n.args, n.args.len(), false);
    crate::sorted::law_once_by(d, crate::sorted::text_lt());
    assert(d.contains(t));
    lemma_deps(n, n.args.len(), t);
}

proof fn lemma_waits(n: NodeView, k: nat, j: int)
    requires
        k <= n.args.len(),
        0 <= j < k,
        needs(n.args[j]) is Some,
    ensures
        deps_upto(n.fan, n.args, k, false).contains(needs(n.args[j])->0),
    decreases k,
{
    let t = needs(n.args[j])->0;
    let front = deps_upto(n.fan, n.args, (k - 1) as nat, false);
    if j < k - 1 {
        lemma_waits(n, (k - 1) as nat, j);
        let i = choose|i: int| 0 <= i < front.len() && front[i] == t;
        assert(deps_upto(n.fan, n.args, k, false)[i] == t);
    } else {
        assert(front.push(t)[front.len() as int] == t);
    }
}

proof fn lemma_walks(n: NodeView, k: nat, t: Seq<char>)
    requires
        k <= n.args.len(),
        n.fan == Some(FanSrcView::Task(t)),
    ensures
        deps_upto(n.fan, n.args, k, false).contains(t),
    decreases k,
{
    if k > 0 {
        lemma_walks(n, (k - 1) as nat, t);
        let front = deps_upto(n.fan, n.args, (k - 1) as nat, false);
        let i = choose|i: int| 0 <= i < front.len() && front[i] == t;
        assert(deps_upto(n.fan, n.args, k, false)[i] == t);
    } else {
        assert(seq![t][0] == t);
    }
}

/// Data is awaited: a task of a graph depends on every task whose result it is
/// given as an argument, and on the one whose list it walks.
pub proof fn law_data_is_awaited(
    n: NodeView,
    callee: TemplateInfoView,
    hooks: Seq<TemplateInfoView>,
    t: Seq<char>,
)
    requires
        some_needs(n.args, t) || n.fan == Some(FanSrcView::Task(t)),
    ensures
        task_of(n, callee, hooks, false).dependencies.contains(t),
{
    let d = deps_upto(n.fan, n.args, n.args.len(), false);
    if some_needs(n.args, t) {
        let j = choose|j: int| 0 <= j < n.args.len() && needs(#[trigger] n.args[j]) == Some(t);
        lemma_waits(n, n.args.len(), j);
    } else {
        lemma_walks(n, n.args.len(), t);
    }
    law_text_order();
    crate::sorted::law_once_by(d, crate::sorted::text_lt());
    assert(d.contains(t));
}

/// Steps follow the data: in a workflow of steps each task is a step of its own,
/// in the order of the body, and a task that another one refers to is an earlier
/// step.
pub proof fn law_steps_follow_the_data(d: WorkflowDeclView, reg: Known, i: int, t: Seq<char>)
    requires
        d.steps,
        sound_graph(d.nodes),
        workflow_template_of(d, reg) is Ok,
        0 <= i < d.nodes.len(),
        refers(d.nodes[i], t),
    ensures
        ({
            let steps = workflow_template_of(d, reg)->Ok_0.steps;
            &&& steps.len() == d.nodes.len()
            &&& steps[i].len() == 1 && steps[i][0].name == d.nodes[i].task
            &&& exists|j: int|
                0 <= j < i && (#[trigger] steps[j]).len() == 1 && steps[j][0].name == t
        }),
{
    let f = node_wire_fn(reg, true);
    lemma_map_res_len(d.nodes, f);
    let tasks = map_res(d.nodes, f)->Ok_0;
    let steps = workflow_template_of(d, reg)->Ok_0.steps;
    assert(steps == one_each(tasks));
    assert(has_task(d.nodes.take(i), t));
    let j = choose|j: int| 0 <= j < i && (#[trigger] d.nodes.take(i)[j]).task == t;
    assert(d.nodes.take(i)[j] == d.nodes[j]);
    assert(f(d.nodes[j]) == Ok::<DagTaskView, Seq<char>>(tasks[j]));
    assert(f(d.nodes[i]) == Ok::<DagTaskView, Seq<char>>(tasks[i]));
    assert(steps[j].len() == 1 && steps[j][0].name == t);
}

} // verus!
