//! What holds of a whole scope of tasks: which templates it calls, and which of
//! its references collect a fan-out or may fail.

use crate::ast::{Path, PathView};
use crate::maps::Data;
use crate::node::{
    Arg, ArgView, FanSrc, FanSrcView, Hook, HookView, JsonSrc, Node, NodeView,
};
use crate::text::str_eq;
use vstd::prelude::*;

verus! {

// ---- callees -----------------------------------------------------------------
/// The templates of hooks.
pub open spec fn hook_paths(hooks: Seq<HookView>) -> Seq<PathView> {
    Seq::new(hooks.len(), |i: int| hooks[i].template)
}

/// The templates that the tasks name, in order: each callee, then its hooks'.
pub open spec fn paths_in(nodes: Seq<NodeView>) -> Seq<PathView>
    decreases nodes.len(),
{
    if nodes.len() == 0 {
        Seq::empty()
    } else {
        paths_in(nodes.drop_last()).push(nodes.last().callee) + hook_paths(nodes.last().hooks)
    }
}

pub open spec fn has_text(ps: Seq<PathView>, text: Seq<char>) -> bool {
    exists|i: int| 0 <= i < ps.len() && (#[trigger] ps[i]).text == text
}

pub open spec fn add_path(acc: Seq<PathView>, p: PathView) -> Seq<PathView> {
    if has_text(acc, p.text) {
        acc
    } else {
        acc.push(p)
    }
}

/// `acc` with the paths of `ps` that are written otherwise than any before.
pub open spec fn add_paths(acc: Seq<PathView>, ps: Seq<PathView>) -> Seq<PathView>
    decreases ps.len(),
{
    if ps.len() == 0 {
        acc
    } else {
        add_path(add_paths(acc, ps.drop_last()), ps.last())
    }
}

/// The distinct templates that the tasks name, and then those of `extra`.
pub open spec fn distinct_paths(nodes: Seq<NodeView>, extra: Seq<PathView>) -> Seq<PathView> {
    add_paths(add_paths(Seq::empty(), paths_in(nodes)), extra)
}

/// Adds `p`, unless a path that is written the same is there.
pub fn add_one(acc: &mut Vec<Path>, p: &Path)
    ensures
        final(acc).deep_view() == add_path(old(acc).deep_view(), p.deep_view()),
{
    let ghost before = acc.deep_view();
    let mut i: usize = 0;
    while i < acc.len()
        invariant
            acc.deep_view() == before,
            i <= acc@.len(),
            forall|j: int| 0 <= j < i ==> (#[trigger] before[j]).text != p.text@,
        decreases acc@.len() - i,
    {
        if str_eq(acc[i].text.as_str(), p.text.as_str()) {
            proof {
                assert(before[i as int].text == p.text@);
            }
            return ;
        }
        i = i + 1;
    }
    let q: Path = p.dup();
    let ghost qv = q.deep_view();
    acc.push(q);
    proof {
        assert(acc.deep_view() =~= before.push(qv));
    }
}

/// The distinct templates that the tasks and their hooks name, and those of
/// `extra`, in order of appearance.
pub fn callee_paths(nodes: &Vec<Node>, extra: &Vec<Path>) -> (r: Vec<Path>)
    ensures
        r.deep_view() == distinct_paths(nodes.deep_view(), extra.deep_view()),
{
    let ghost all = nodes.deep_view();
    let mut out: Vec<Path> = Vec::new();
    let mut i: usize = 0;
    proof {
        assert(out.deep_view() =~= Seq::<PathView>::empty());
        assert(all.take(0) =~= Seq::<NodeView>::empty());
    }
    while i < nodes.len()
        invariant
            all == nodes.deep_view(),
            i <= nodes@.len(),
            out.deep_view() == add_paths(Seq::empty(), paths_in(all.take(i as int))),
        decreases nodes@.len() - i,
    {
        let n: &Node = &nodes[i];
        let ghost front = paths_in(all.take(i as int));
        let ghost hs = hook_paths(all[i as int].hooks);
        proof {
            assert(all.take(i + 1).drop_last() =~= all.take(i as int));
            assert(front.push(n.callee.deep_view()).drop_last() =~= front);
        }
        add_one(&mut out, &n.callee);
        let ghost base = front.push(n.callee.deep_view());
        let mut k: usize = 0;
        proof {
            assert(base + hs.take(0) =~= base);
        }
        while k < n.hooks.len()
            invariant
                k <= n.hooks@.len(),
                hs == hook_paths(n.hooks.deep_view()),
                out.deep_view() == add_paths(Seq::empty(), base + hs.take(k as int)),
            decreases n.hooks@.len() - k,
        {
            add_one(&mut out, &n.hooks[k].template);
            proof {
                let t = base + hs.take(k + 1);
                assert(t.drop_last() =~= base + hs.take(k as int));
                assert(t.last() == hs[k as int]);
            }
            k = k + 1;
        }
        proof {
            assert(hs.take(k as int) =~= hs);
        }
        i = i + 1;
    }
    proof {
        assert(all.take(i as int) =~= all);
    }
    let ghost own = out.deep_view();
    let ghost ex = extra.deep_view();
    let mut k: usize = 0;
    proof {
        assert(ex.take(0) =~= Seq::<PathView>::empty());
    }
    while k < extra.len()
        invariant
            ex == extra.deep_view(),
            k <= extra@.len(),
            out.deep_view() == add_paths(own, ex.take(k as int)),
        decreases extra@.len() - k,
    {
        add_one(&mut out, &extra[k]);
        proof {
            assert(ex.take(k + 1).drop_last() =~= ex.take(k as int));
            assert(ex.take(k + 1).last() == ex[k as int]);
        }
        k = k + 1;
    }
    proof {
        assert(ex.take(k as int) =~= ex);
    }
    out
}

proof fn lemma_add_paths(acc: Seq<PathView>, ps: Seq<PathView>)
    requires
        forall|i: int, j: int|
            0 <= i < j < acc.len() ==> (#[trigger] acc[i]).text != (#[trigger] acc[j]).text,
    ensures
        forall|i: int, j: int|
            0 <= i < j < add_paths(acc, ps).len() ==> (#[trigger] add_paths(acc, ps)[i]).text != (
            #[trigger] add_paths(acc, ps)[j]).text,
        forall|i: int| 0 <= i < acc.len() ==> has_text(add_paths(acc, ps), #[trigger] acc[i].text),
        forall|i: int| 0 <= i < ps.len() ==> has_text(add_paths(acc, ps), #[trigger] ps[i].text),
    decreases ps.len(),
{
    if ps.len() > 0 {
        lemma_add_paths(acc, ps.drop_last());
        let p = add_paths(acc, ps.drop_last());
        let q = add_paths(acc, ps);
        assert(forall|t: Seq<char>| has_text(p, t) ==> has_text(q, t)) by {
            assert forall|t: Seq<char>| has_text(p, t) implies has_text(q, t) by {
                let i = choose|i: int| 0 <= i < p.len() && (#[trigger] p[i]).text == t;
                assert(q[i].text == t);
            }
        }
        assert(has_text(q, ps.last().text)) by {
            if !has_text(p, ps.last().text) {
                assert(q[q.len() - 1].text == ps.last().text);
            }
        }
        assert forall|i: int| 0 <= i < ps.len() implies has_text(q, #[trigger] ps[i].text) by {
            if i < ps.len() - 1 {
                assert(ps.drop_last()[i].text == ps[i].text);
            }
        }
    } else {
        assert forall|i: int| 0 <= i < acc.len() implies has_text(acc, #[trigger] acc[i].text) by {
        }
    }
}

/// No template is collected twice, and none that a task or a hook names is
/// left out.
pub proof fn law_callees_distinct_and_complete(nodes: Seq<NodeView>, extra: Seq<PathView>)
    ensures
        ({
            let r = distinct_paths(nodes, extra);
            &&& forall|i: int, j: int|
                0 <= i < j < r.len() ==> (#[trigger] r[i]).text != (#[trigger] r[j]).text
            &&& forall|i: int|
                0 <= i < paths_in(nodes).len() ==> has_text(r, #[trigger] paths_in(nodes)[i].text)
            &&& forall|i: int| 0 <= i < extra.len() ==> has_text(r, #[trigger] extra[i].text)
        }),
{
    let own = add_paths(Seq::empty(), paths_in(nodes));
    lemma_add_paths(Seq::empty(), paths_in(nodes));
    lemma_add_paths(own, extra);
    let r = distinct_paths(nodes, extra);
    assert forall|i: int| 0 <= i < paths_in(nodes).len() implies has_text(
        r,
        #[trigger] paths_in(nodes)[i].text,
    ) by {
        let t = paths_in(nodes)[i].text;
        let k = choose|k: int| 0 <= k < own.len() && (#[trigger] own[k]).text == t;
        assert(has_text(r, own[k].text));
    }
}

// ---- fan-outs and tasks that may fail ---------------------------------------------
/// The list of the fan-out task `t`, where `t` is one.
pub open spec fn fan_list(nodes: Seq<NodeView>, t: Seq<char>) -> Option<FanSrcView>
    decreases nodes.len(),
{
    if nodes.len() == 0 {
        None
    } else if nodes.last().task == t && nodes.last().fan is Some {
        nodes.last().fan
    } else {
        fan_list(nodes.drop_last(), t)
    }
}

/// Whether the task `t` goes on after a failure or an error.
pub open spec fn may_fail(nodes: Seq<NodeView>, t: Seq<char>) -> bool {
    exists|i: int|
        0 <= i < nodes.len() && (#[trigger] nodes[i]).task == t && nodes[i].continue_on is Some
}

/// A reference to a fan-out collects its results, and a reference to a task
/// that may fail carries the failure.
pub open spec fn retag_arg(a: ArgView, nodes: Seq<NodeView>) -> ArgView {
    match a {
        ArgView::Ref(t) => match (fan_list(nodes, t), may_fail(nodes, t)) {
            (Some(list), true) => ArgView::FanAggFallible { task: t, list },
            (Some(_), false) => ArgView::FanAgg(t),
            (None, true) => ArgView::RefFallible(t),
            (None, false) => a,
        },
        _ => a,
    }
}

pub open spec fn retag_args(args: Seq<ArgView>, nodes: Seq<NodeView>) -> Seq<ArgView> {
    Seq::new(args.len(), |i: int| retag_arg(args[i], nodes))
}

pub open spec fn retag_hooks(hooks: Seq<HookView>, nodes: Seq<NodeView>) -> Seq<HookView> {
    Seq::new(
        hooks.len(),
        |i: int|
            HookView {
                when: hooks[i].when,
                template: hooks[i].template,
                args: retag_args(hooks[i].args, nodes),
            },
    )
}

pub open spec fn retag_node(n: NodeView, nodes: Seq<NodeView>) -> NodeView {
    NodeView { args: retag_args(n.args, nodes), hooks: retag_hooks(n.hooks, nodes), ..n }
}

/// The tasks of a scope with their references told apart.
pub open spec fn retagged(nodes: Seq<NodeView>) -> Seq<NodeView> {
    Seq::new(nodes.len(), |i: int| retag_node(nodes[i], nodes))
}

/// The list of the fan-out task `t`, where `t` is one.
pub fn fan_task<'a>(nodes: &'a Vec<Node>, t: &str) -> (r: Option<&'a FanSrc>)
    ensures
        r.deep_view() == fan_list(nodes.deep_view(), t@),
{
    let ghost all = nodes.deep_view();
    let mut n: usize = nodes.len();
    proof {
        assert(all.take(n as int) =~= all);
    }
    while n > 0
        invariant
            all == nodes.deep_view(),
            n <= nodes@.len(),
            fan_list(all, t@) == fan_list(all.take(n as int), t@),
        decreases n,
    {
        n = n - 1;
        proof {
            assert(all.take(n + 1).drop_last() =~= all.take(n as int));
            assert(all.take(n + 1).last() == nodes@[n as int].deep_view());
        }
        match &nodes[n].fan {
            Some(f) => {
                if str_eq(nodes[n].task.as_str(), t) {
                    return Some(f);
                }
            },
            None => {},
        }
    }
    None
}

/// Whether the task `t` goes on after a failure or an error.
pub fn fallible_task(nodes: &Vec<Node>, t: &str) -> (r: bool)
    ensures
        r == may_fail(nodes.deep_view(), t@),
{
    let ghost all = nodes.deep_view();
    let mut i: usize = 0;
    while i < nodes.len()
        invariant
            all == nodes.deep_view(),
            i <= nodes@.len(),
            forall|j: int|
                0 <= j < i ==> !((#[trigger] all[j]).task == t@ && all[j].continue_on is Some),
        decreases nodes@.len() - i,
    {
        if nodes[i].continue_on.is_some() && str_eq(nodes[i].task.as_str(), t) {
            proof {
                assert(all[i as int].task == t@);
            }
            return true;
        }
        i = i + 1;
    }
    false
}

fn retag(a: &Arg, nodes: &Vec<Node>) -> (r: Arg)
    ensures
        r.deep_view() == retag_arg(a.deep_view(), nodes.deep_view()),
{
    match a {
        Arg::Ref(t) => {
            let failing: bool = fallible_task(nodes, t.as_str());
            match fan_task(nodes, t.as_str()) {
                Some(list) => if failing {
                    Arg::FanAggFallible { task: t.clone(), list: list.copy() }
                } else {
                    Arg::FanAgg(t.clone())
                },
                None => if failing {
                    Arg::RefFallible(t.clone())
                } else {
                    Arg::Ref(t.clone())
                },
            }
        },
        Arg::Lit(v) => Arg::Lit(v.clone()),
        Arg::Input(n) => Arg::Input(n.clone()),
        Arg::Json { src, path } => {
            let s: JsonSrc = match src {
                JsonSrc::Task(t) => JsonSrc::Task(t.clone()),
                JsonSrc::Input(n) => JsonSrc::Input(n.clone()),
            };
            Arg::Json { src: s, path: path.dup() }
        },
        Arg::Item { path } => Arg::Item { path: path.dup() },
        Arg::FanAgg(t) => Arg::FanAgg(t.clone()),
        Arg::RefFallible(t) => Arg::RefFallible(t.clone()),
        Arg::FanAggFallible { task, list } => Arg::FanAggFallible {
            task: task.clone(),
            list: list.copy(),
        },
    }
}

fn retag_all(args: &Vec<Arg>, nodes: &Vec<Node>) -> (r: Vec<Arg>)
    ensures
        r.deep_view() == retag_args(args.deep_view(), nodes.deep_view()),
{
    let ghost want = retag_args(args.deep_view(), nodes.deep_view());
    let mut out: Vec<Arg> = Vec::new();
    let mut i: usize = 0;
    proof {
        assert(out.deep_view() =~= want.take(0));
    }
    while i < args.len()
        invariant
            want == retag_args(args.deep_view(), nodes.deep_view()),
            i <= args@.len(),
            out.deep_view() == want.take(i as int),
        decreases args@.len() - i,
    {
        let a: Arg = retag(&args[i], nodes);
        let ghost av = a.deep_view();
        let ghost before = out.deep_view();
        out.push(a);
        proof {
            assert(out.deep_view() =~= before.push(av));
            assert(out.deep_view() =~= want.take(i + 1));
        }
        i = i + 1;
    }
    proof {
        assert(want.take(i as int) =~= want);
    }
    out
}

fn retag_hook_list(hooks: &Vec<Hook>, nodes: &Vec<Node>) -> (r: Vec<Hook>)
    ensures
        r.deep_view() == retag_hooks(hooks.deep_view(), nodes.deep_view()),
{
    let ghost want = retag_hooks(hooks.deep_view(), nodes.deep_view());
    let mut out: Vec<Hook> = Vec::new();
    let mut i: usize = 0;
    proof {
        assert(out.deep_view() =~= want.take(0));
    }
    while i < hooks.len()
        invariant
            want == retag_hooks(hooks.deep_view(), nodes.deep_view()),
            i <= hooks@.len(),
            out.deep_view() == want.take(i as int),
        decreases hooks@.len() - i,
    {
        let h: Hook = Hook {
            when: hooks[i].when.copy(),
            template: hooks[i].template.dup(),
            args: retag_all(&hooks[i].args, nodes),
        };
        let ghost hv = h.deep_view();
        let ghost before = out.deep_view();
        out.push(h);
        proof {
            assert(out.deep_view() =~= before.push(hv));
            assert(out.deep_view() =~= want.take(i + 1));
        }
        i = i + 1;
    }
    proof {
        assert(want.take(i as int) =~= want);
    }
    out
}

/// Tells the references of a scope apart, in the arguments of its tasks and of
/// their hooks: plain results, collected fan-outs, results that may be failures.
pub fn retag_refs(nodes: &Vec<Node>) -> (r: Vec<Node>)
    ensures
        r.deep_view() == retagged(nodes.deep_view()),
{
    let ghost want = retagged(nodes.deep_view());
    let mut out: Vec<Node> = Vec::new();
    let mut i: usize = 0;
    proof {
        assert(out.deep_view() =~= want.take(0));
    }
    while i < nodes.len()
        invariant
            want == retagged(nodes.deep_view()),
            i <= nodes@.len(),
            out.deep_view() == want.take(i as int),
        decreases nodes@.len() - i,
    {
        let n: &Node = &nodes[i];
        let fan: Option<FanSrc> = match &n.fan {
            Some(f) => Some(f.copy()),
            None => None,
        };
        let m: Node = Node {
            task: n.task.clone(),
            callee: n.callee.dup(),
            args: retag_all(&n.args, nodes),
            continue_on: n.continue_on,
            hooks: retag_hook_list(&n.hooks, nodes),
            fan,
            when: n.when.dup(),
        };
        let ghost mv = m.deep_view();
        let ghost before = out.deep_view();
        out.push(m);
        proof {
            assert(out.deep_view() =~= before.push(mv));
            assert(out.deep_view() =~= want.take(i + 1));
        }
        i = i + 1;
    }
    proof {
        assert(want.take(i as int) =~= want);
    }
    out
}

/// Telling references apart keeps every task, its callee and its conditions,
/// changes no argument but references, and leaves no plain reference to a
/// fan-out or to a task that may fail.
pub proof fn law_retag(nodes: Seq<NodeView>, i: int, k: int)
    requires
        0 <= i < nodes.len(),
        0 <= k < nodes[i].args.len(),
    ensures
        retagged(nodes).len() == nodes.len(),
        retagged(nodes)[i].task == nodes[i].task,
        retagged(nodes)[i].callee == nodes[i].callee,
        retagged(nodes)[i].when == nodes[i].when,
        retagged(nodes)[i].fan == nodes[i].fan,
        retagged(nodes)[i].continue_on == nodes[i].continue_on,
        retagged(nodes)[i].args.len() == nodes[i].args.len(),
        !(nodes[i].args[k] is Ref) ==> retagged(nodes)[i].args[k] == nodes[i].args[k],
        retagged(nodes)[i].args[k] matches ArgView::Ref(t) ==> fan_list(nodes, t) is None
            && !may_fail(nodes, t),
{
}

} // verus!
