//! What a workflow means: which value each argument carries, which task each call
//! becomes, and what reaches the wire.

use crate::analyze::{
    arg_fn, arg_of, args_upto, bound_name, candidate, continue_words, fan_of, fan_source,
    first_free, hook_fn, hook_of, law_unique_name_is_free, peeled, peeled_from, push_of,
    resolved_arg, unique_name, without_clones, HookSpecView, NodeOptsView, Scope,
};
use crate::argo_expr::{
    calls_named, extends, field_tag, input_tag, law_literals_are_passed_as_written, lemma_source,
    lemma_when_text, readable, scalar_of, source_holds, steps_into, text_holds, when_holds, written,
    Atom, Evaluation,
};
use crate::ast::{
    call_of, call_text, chain_of, core_of, lemma_call, lemma_core, Chain, Expr, FnDecl, IfExpr,
    Init, Lit, Pat, PathView, Stmt,
};
use crate::body::{
    after_if, arm_name, arms_of, arms_upto, captures_of, conds_upto, free_fn, free_names, gate_of,
    gate_text, if_head, if_in, in_scope_fn, lemma_arms, lemma_arms_step, lemma_done_step,
    lemma_if_in, lemma_stmts_step, lemma_synth_step, mentions, none_of_upto, plain_step, stmts_done,
    stmts_upto, synth_of, value_call, with_arm, with_conds, with_wrapper, wrap_name, Arms, Body,
    Done, SelfName,
};
use crate::conditional::{
    binds, cond_name, cond_names, hoisted_operand, names_in_stmts, seen_at, when_of, when_text,
    CondView, Hoist, OperandView,
};
use crate::folds::{add_all, law_add_all, lemma_map_res_len, map_res};
use crate::lower::{hook_wire, hooks_upto, value_of, with_param_of, TemplateInfoView};
use crate::munge::kebab_of;
use crate::node::{
    ArgView, FanSrcView, HookView, HookWhenView, JsonSrcView, NodeView, SynthOutView, SynthWfView,
};
use crate::scope::{
    distinct_paths, fan_list, has_text, law_callees_distinct_and_complete, paths_in, retag_arg,
    retagged,
};
use crate::signature::{args_of, signature_of};
use crate::text::has_prefix;
use crate::workflow::analyzed;
use vstd::prelude::*;

verus! {

// ---- arguments ---------------------------------------------------------------------
/// What Argo puts for a text, where `tag` says what it puts for a tag: a text that
/// is one tag between double braces becomes its value, any other stays as it is.
pub open spec fn filled(t: Seq<char>, tag: spec_fn(Seq<char>) -> Seq<char>) -> Seq<char> {
    if t.len() > 4 && t[0] == '{' && t[1] == '{' && t[t.len() - 1] == '}' && t[t.len() - 2]
        == '}' {
        tag(t.subrange(2, t.len() - 2))
    } else {
        t
    }
}

/// The tag of a task's result.
pub open spec fn result_tag(steps: bool, t: Seq<char>) -> Seq<char> {
    (if steps {
        "steps."@
    } else {
        "tasks."@
    }) + t + ".outputs.parameters.return"@
}

/// The tag of a field of a task's result.
pub open spec fn result_field_tag(steps: bool, t: Seq<char>, path: Seq<Seq<char>>) -> Seq<char> {
    (if steps {
        "=toJSON(fromJSON(steps['"@
    } else {
        "=toJSON(fromJSON(tasks['"@
    }) + t + "'].outputs.parameters['return'])"@ + steps_into(path) + ")"@
}

/// The values of names and of their fields, and of the tags that stand for them.
pub struct Values {
    pub name: spec_fn(Seq<char>) -> Seq<char>,
    pub field: spec_fn(Seq<char>, Seq<Seq<char>>) -> Seq<char>,
    pub tag: spec_fn(Seq<char>) -> Seq<char>,
}

/// Every task has the value of the name that it is bound to, and every input the
/// value of its own name, unless a binding hides it.
pub open spec fn values_agree(v: Values, b: Scope, ins: Seq<Seq<char>>, steps: bool) -> bool {
    &&& forall|x: Seq<char>| #[trigger]
        b.dom().contains(x) ==> (v.tag)(result_tag(steps, b[x])) == (v.name)(x) && forall|
            path: Seq<Seq<char>>,
        | #[trigger]
            (v.tag)(result_field_tag(steps, b[x], path)) == (v.field)(x, path)
    &&& forall|x: Seq<char>| #[trigger]
        ins.contains(x) && !b.dom().contains(x) ==> (v.tag)(input_tag(x)) == (v.name)(x) && forall|
            path: Seq<Seq<char>>,
        | #[trigger]
            (v.tag)(field_tag(x, path)) == (v.field)(x, path)
}

/// Whether `t` is the value of an argument of the source: of the name, the field
/// or the literal under its brackets, borrows and conversions.
pub open spec fn carries(e: Expr, t: Seq<char>, v: Values) -> bool
    decreases e,
{
    match e {
        Expr::Paren { expr } => carries(*expr, t, v),
        Expr::Group { expr } => carries(*expr, t, v),
        Expr::Reference { mutable: _, expr } => carries(*expr, t, v),
        Expr::MethodCall { receiver, method: _, args: _ } => carries(*receiver, t, v),
        Expr::Lit(l) => written(l) matches Some(a) ==> scalar_of(t) == Some(a),
        Expr::Path(p) => p.segments@.len() == 1 && t == (v.name)(p.segments@[0]@),
        Expr::Field { base: _, member: _ } => match chain_of(e) {
            Chain::Root(Expr::Path(p), path) => p.segments@.len() == 1 && t == (v.field)(
                p.segments@[0]@,
                path,
            ),
            _ => false,
        },
        _ => false,
    }
}

pub proof fn lemma_filled(x: Seq<char>, tag: spec_fn(Seq<char>) -> Seq<char>)
    requires
        x.len() > 0,
    ensures
        filled(seq!['{', '{'] + x + seq!['}', '}'], tag) == tag(x),
{
    let t = seq!['{', '{'] + x + seq!['}', '}'];
    assert(t.subrange(2, t.len() - 2) =~= x);
}

pub proof fn lemma_name_text(a: ArgView, steps: bool, tag: spec_fn(Seq<char>) -> Seq<char>)
    ensures
        a matches ArgView::Input(n) ==> filled(value_of(a, steps), tag) == tag(input_tag(n)),
        a matches ArgView::Ref(t) ==> filled(value_of(a, steps), tag) == tag(
            result_tag(steps, t),
        ),
        a matches ArgView::Json { src: JsonSrcView::Input(n), path } ==> filled(
            value_of(a, steps),
            tag,
        ) == tag(field_tag(n, path)),
        a matches ArgView::Json { src: JsonSrcView::Task(t), path } ==> filled(
            value_of(a, steps),
            tag,
        ) == tag(result_field_tag(steps, t, path)),
{
    let open = seq!['{', '{'];
    let close = seq!['}', '}'];
    assert("{{"@ =~= open) by {
        reveal_strlit("{{");
    }
    assert("}}"@ =~= close) by {
        reveal_strlit("}}");
    }
    match a {
        ArgView::Input(n) => {
            assert("{{inputs.parameters."@ =~= open + "inputs.parameters."@) by {
                reveal_strlit("{{inputs.parameters.");
                reveal_strlit("inputs.parameters.");
            }
            reveal_strlit("inputs.parameters.");
            assert(value_of(a, steps) =~= open + input_tag(n) + close);
            lemma_filled(input_tag(n), tag);
        },
        ArgView::Ref(t) => {
            let x = result_tag(steps, t);
            assert(".outputs.parameters.return}}"@ =~= ".outputs.parameters.return"@ + close) by {
                reveal_strlit(".outputs.parameters.return}}");
                reveal_strlit(".outputs.parameters.return");
            }
            assert("steps."@ =~= "steps"@ + "."@ && "tasks."@ =~= "tasks"@ + "."@) by {
                reveal_strlit("steps.");
                reveal_strlit("steps");
                reveal_strlit("tasks.");
                reveal_strlit("tasks");
                reveal_strlit(".");
            }
            reveal_strlit("steps.");
            reveal_strlit("tasks.");
            assert(value_of(a, steps) =~= open + x + close);
            lemma_filled(x, tag);
        },
        ArgView::Json { src: JsonSrcView::Input(n), path } => {
            let x = field_tag(n, path);
            crate::argo_expr::lemma_steps_into(path);
            assert("{{=toJSON(fromJSON(inputs.parameters['"@ =~= open
                + "=toJSON(fromJSON(inputs.parameters['"@) by {
                reveal_strlit("{{=toJSON(fromJSON(inputs.parameters['");
                reveal_strlit("=toJSON(fromJSON(inputs.parameters['");
            }
            assert(")}}"@ =~= ")"@ + close) by {
                reveal_strlit(")}}");
                reveal_strlit(")");
            }
            reveal_strlit(")");
            assert(value_of(a, steps) =~= open + x + close);
            lemma_filled(x, tag);
        },
        ArgView::Json { src: JsonSrcView::Task(t), path } => {
            let x = result_field_tag(steps, t, path);
            crate::argo_expr::lemma_steps_into(path);
            assert("=toJSON(fromJSON(steps['"@ =~= "=toJSON(fromJSON("@ + "steps"@ + "['"@
                && "=toJSON(fromJSON(tasks['"@ =~= "=toJSON(fromJSON("@ + "tasks"@ + "['"@) by {
                reveal_strlit("=toJSON(fromJSON(steps['");
                reveal_strlit("=toJSON(fromJSON(tasks['");
                reveal_strlit("=toJSON(fromJSON(");
                reveal_strlit("steps");
                reveal_strlit("tasks");
                reveal_strlit("['");
            }
            assert("{{=toJSON(fromJSON("@ =~= open + "=toJSON(fromJSON("@) by {
                reveal_strlit("{{=toJSON(fromJSON(");
                reveal_strlit("=toJSON(fromJSON(");
            }
            assert(")}}"@ =~= ")"@ + close) by {
                reveal_strlit(")}}");
                reveal_strlit(")");
            }
            reveal_strlit(")");
            assert(value_of(a, steps) =~= open + x + close);
            lemma_filled(x, tag);
        },
        _ => {},
    }
}

/// An argument that is accepted carries the value of what is written: the text
/// that is passed for it becomes, once its tag is filled in, the value of the name
/// or the field, or the JSON of the literal.
pub proof fn law_arguments_carry_their_values(
    e: Expr,
    b: Scope,
    ins: Seq<Seq<char>>,
    steps: bool,
    v: Values,
)
    requires
        values_agree(v, b, ins, steps),
        arg_of(e, b, ins) is Ok,
    ensures
        carries(e, filled(value_of(arg_of(e, b, ins)->Ok_0, steps), v.tag), v),
    decreases e,
{
    match e {
        Expr::Paren { expr } => law_arguments_carry_their_values(*expr, b, ins, steps, v),
        Expr::Group { expr } => law_arguments_carry_their_values(*expr, b, ins, steps, v),
        Expr::Reference { mutable: _, expr } => law_arguments_carry_their_values(
            *expr,
            b,
            ins,
            steps,
            v,
        ),
        Expr::MethodCall { receiver, method: _, args: _ } => law_arguments_carry_their_values(
            *receiver,
            b,
            ins,
            steps,
            v,
        ),
        Expr::Lit(l) => {
            law_literals_are_passed_as_written(l, b, ins);
            reveal_strlit("true");
            reveal_strlit("false");
        },
        _ => {
            lemma_name_text(arg_of(e, b, ins)->Ok_0, steps, v.tag);
        },
    }
}

/// Whether a name can be used: it is bound or an input.
pub open spec fn in_scope(x: Seq<char>, b: Scope, ins: Seq<Seq<char>>) -> bool {
    b.dom().contains(x) || ins.contains(x)
}

/// The arguments that a workflow may pass: literals, names in scope and their
/// named fields, in brackets, borrowed or cloned, and strings under `.to_string()`
/// or `.into()`.
pub open spec fn passable(e: Expr, b: Scope, ins: Seq<Seq<char>>) -> bool
    decreases e,
{
    match e {
        Expr::Paren { expr } => passable(*expr, b, ins),
        Expr::Group { expr } => passable(*expr, b, ins),
        Expr::Reference { mutable: _, expr } => passable(*expr, b, ins),
        Expr::MethodCall { receiver, method, args } => {
            &&& args@.len() == 0
            &&& passable(*receiver, b, ins)
            &&& method@ == "clone"@ || method@ == "to_owned"@ || ((method@ == "to_string"@
                || method@ == "into"@) && core_of(*receiver) matches Expr::Lit(Lit::Str(_)))
        },
        Expr::Lit(l) => !(l is Other),
        Expr::Path(p) => p.segments@.len() == 1 && in_scope(p.segments@[0]@, b, ins),
        Expr::Field { base: _, member: _ } => match chain_of(e) {
            Chain::Root(Expr::Path(p), _) => p.segments@.len() == 1 && in_scope(
                p.segments@[0]@,
                b,
                ins,
            ),
            _ => false,
        },
        _ => false,
    }
}

/// Exactly the arguments that a workflow may pass are accepted.
pub proof fn law_arguments_are_accepted(e: Expr, b: Scope, ins: Seq<Seq<char>>)
    ensures
        arg_of(e, b, ins) is Ok <==> passable(e, b, ins),
    decreases e,
{
    match e {
        Expr::Paren { expr } => law_arguments_are_accepted(*expr, b, ins),
        Expr::Group { expr } => law_arguments_are_accepted(*expr, b, ins),
        Expr::Reference { mutable: _, expr } => law_arguments_are_accepted(*expr, b, ins),
        Expr::MethodCall { receiver, method: _, args: _ } => {
            reveal_strlit("clone");
            reveal_strlit("to_owned");
            reveal_strlit("to_string");
            reveal_strlit("into");
            law_arguments_are_accepted(*receiver, b, ins);
        },
        _ => {},
    }
}

// ---- calls ------------------------------------------------------------------------
/// Whether `a` is what the argument `e` of a call stands for, in a call whose tasks
/// are among `nodes`: an argument that is itself a call is the result of a task
/// that calls the same template, any other is resolved by name.
pub open spec fn stands_for(
    a: ArgView,
    e: Expr,
    item: Option<Seq<char>>,
    nodes: Seq<NodeView>,
    b: Scope,
    ins: Seq<Seq<char>>,
) -> bool {
    match (item, call_of(e)) {
        (None, Some((callee, inner))) => a matches ArgView::Ref(t) && exists|k: int|
            0 <= k < nodes.len() && (#[trigger] nodes[k]).task == t && nodes[k].callee
                == callee.deep_view() && nodes[k].args.len() == inner.len(),
        (None, None) => arg_of(e, b, ins) == Ok::<ArgView, Seq<char>>(a),
        (Some(it), _) => match chain_of(without_clones(e)) {
            Chain::Root(Expr::Path(p), path) => if p.plain && p.segments@.len() == 1
                && p.segments@[0]@ == it {
                a == (ArgView::Item { path })
            } else {
                arg_of(e, b, ins) == Ok::<ArgView, Seq<char>>(a)
            },
            Chain::Tuple => false,
            _ => arg_of(e, b, ins) == Ok::<ArgView, Seq<char>>(a),
        },
    }
}

/// Whether the tasks `after` are the tasks `before` with the call `callee(raw…)`
/// behind them, as the last task and called `task`. The tasks in between are calls
/// among the arguments.
pub open spec fn calls(
    before: Seq<NodeView>,
    after: Seq<NodeView>,
    task: Seq<char>,
    callee: PathView,
    raw: Seq<Expr>,
    item: Option<Seq<char>>,
    b: Scope,
    ins: Seq<Seq<char>>,
) -> bool {
    &&& after.len() > before.len()
    &&& extends(before, after)
    &&& after.last().task == task
    &&& after.last().callee == callee
    &&& after.last().when is None
    &&& after.last().args.len() == raw.len()
    &&& forall|i: int|
        0 <= i < raw.len() ==> stands_for(
            #[trigger] after.last().args[i],
            raw[i],
            item,
            after.drop_last(),
            b,
            ins,
        )
}

proof fn lemma_stands_for(
    a: ArgView,
    e: Expr,
    item: Option<Seq<char>>,
    nodes: Seq<NodeView>,
    more: Seq<NodeView>,
    b: Scope,
    ins: Seq<Seq<char>>,
)
    requires
        stands_for(a, e, item, nodes, b, ins),
        extends(nodes, more),
    ensures
        stands_for(a, e, item, more, b, ins),
{
    if item is None && call_of(e) is Some {
        let (callee, inner) = call_of(e)->0;
        let t = a->Ref_0;
        let k = choose|k: int|
            0 <= k < nodes.len() && (#[trigger] nodes[k]).task == t && nodes[k].callee
                == callee.deep_view() && nodes[k].args.len() == inner.len();
        assert(more[k] == nodes[k]);
    }
}

proof fn lemma_calls_args(
    raw: Seq<Expr>,
    n: nat,
    item: Option<Seq<char>>,
    used: Seq<Seq<char>>,
    nodes: Seq<NodeView>,
    b: Scope,
    ins: Seq<Seq<char>>,
)
    requires
        n <= raw.len(),
        args_upto(raw, n, item, used, nodes, b, ins) is Ok,
    ensures
        ({
            let d = args_upto(raw, n, item, used, nodes, b, ins)->Ok_0;
            &&& extends(nodes, d.nodes)
            &&& d.args.len() == n
            &&& item is Some ==> d.nodes == nodes
            &&& forall|i: int|
                0 <= i < n ==> stands_for(#[trigger] d.args[i], raw[i], item, d.nodes, b, ins)
        }),
    decreases raw, n,
{
    if n > 0 {
        let d = args_upto(raw, n, item, used, nodes, b, ins)->Ok_0;
        let f = args_upto(raw, (n - 1) as nat, item, used, nodes, b, ins)->Ok_0;
        let e = raw[n - 1];
        lemma_call(e);
        lemma_calls_args(raw, (n - 1) as nat, item, used, nodes, b, ins);
        if item is None && call_of(e) is Some {
            let (callee, inner) = call_of(e)->0;
            lemma_calls(
                callee.deep_view(),
                inner,
                callee.deep_view().leaf(),
                NodeOptsView::empty(),
                None,
                None,
                f.used,
                f.nodes,
                b,
                ins,
            );
            let k = d.nodes.len() - 1;
            assert(d.nodes[k].callee == callee.deep_view());
            assert(d.nodes[k].args.len() == inner.len());
        }
        assert(extends(nodes, d.nodes)) by {
            assert forall|i: int| 0 <= i < nodes.len() implies #[trigger] d.nodes[i]
                == nodes[i] by {
                assert(f.nodes[i] == nodes[i]);
            }
        }
        assert forall|i: int| 0 <= i < n implies stands_for(
            #[trigger] d.args[i],
            raw[i],
            item,
            d.nodes,
            b,
            ins,
        ) by {
            if i < n - 1 {
                assert(d.args[i] == f.args[i]);
                lemma_stands_for(f.args[i], raw[i], item, f.nodes, d.nodes, b, ins);
            }
        }
    }
}

proof fn lemma_calls(
    callee: PathView,
    raw: Seq<Expr>,
    base: Seq<char>,
    opts: NodeOptsView,
    item: Option<Seq<char>>,
    fan: Option<FanSrcView>,
    used: Seq<Seq<char>>,
    nodes: Seq<NodeView>,
    b: Scope,
    ins: Seq<Seq<char>>,
)
    requires
        push_of(callee, raw, base, opts, item, fan, used, nodes, b, ins) is Ok,
    ensures
        ({
            let p = push_of(callee, raw, base, opts, item, fan, used, nodes, b, ins)->Ok_0;
            calls(nodes, p.nodes, p.task, callee, raw, item, b, ins)
        }),
    decreases raw, raw.len() + 1,
{
    let task = unique_name(used, base);
    let d = args_upto(raw, raw.len(), item, used.push(task), nodes, b, ins)->Ok_0;
    lemma_calls_args(raw, raw.len(), item, used.push(task), nodes, b, ins);
    let p = push_of(callee, raw, base, opts, item, fan, used, nodes, b, ins)->Ok_0;
    assert(p.nodes.drop_last() =~= d.nodes);
    assert forall|i: int| 0 <= i < nodes.len() implies #[trigger] p.nodes[i] == nodes[i] by {
        assert(d.nodes[i] == nodes[i]);
    }
}

/// A call becomes a task: it stands behind all tasks before it, has a name of its
/// own, calls the template that is named, and is given one argument for each that
/// is written, in order. What is asked for by builders stands on it and on no
/// other task: its hooks are those that are written, with the arguments written
/// for them.
pub proof fn law_calls_become_tasks(
    callee: PathView,
    raw: Seq<Expr>,
    base: Seq<char>,
    opts: NodeOptsView,
    item: Option<Seq<char>>,
    fan: Option<FanSrcView>,
    used: Seq<Seq<char>>,
    nodes: Seq<NodeView>,
    b: Scope,
    ins: Seq<Seq<char>>,
)
    requires
        push_of(callee, raw, base, opts, item, fan, used, nodes, b, ins) is Ok,
    ensures
        ({
            let p = push_of(callee, raw, base, opts, item, fan, used, nodes, b, ins)->Ok_0;
            let n = p.nodes.last();
            &&& calls(nodes, p.nodes, p.task, callee, raw, item, b, ins)
            &&& !used.contains(p.task)
            &&& n.continue_on == opts.continue_on
            &&& n.fan == fan
            &&& n.hooks.len() == opts.hooks.len()
            &&& forall|i: int|
                0 <= i < opts.hooks.len() ==> {
                    &&& (#[trigger] n.hooks[i]).when == opts.hooks[i].when
                    &&& n.hooks[i].template == opts.hooks[i].template
                    &&& n.hooks[i].args.len() == opts.hooks[i].raw_args.len()
                    &&& forall|k: int|
                        0 <= k < n.hooks[i].args.len() ==> resolved_arg(
                            opts.hooks[i].raw_args[k],
                            item,
                            b,
                            ins,
                        ) == Ok::<ArgView, Seq<char>>(#[trigger] n.hooks[i].args[k])
                }
        }),
{
    lemma_calls(callee, raw, base, opts, item, fan, used, nodes, b, ins);
    law_unique_name_is_free(used, base);
    lemma_map_res_len(opts.hooks, hook_fn(item, b, ins));
    let n = push_of(callee, raw, base, opts, item, fan, used, nodes, b, ins)->Ok_0.nodes.last();
    assert forall|i: int| 0 <= i < opts.hooks.len() implies {
        &&& (#[trigger] n.hooks[i]).when == opts.hooks[i].when
        &&& n.hooks[i].template == opts.hooks[i].template
        &&& n.hooks[i].args.len() == opts.hooks[i].raw_args.len()
        &&& forall|k: int|
            0 <= k < n.hooks[i].args.len() ==> resolved_arg(
                opts.hooks[i].raw_args[k],
                item,
                b,
                ins,
            ) == Ok::<ArgView, Seq<char>>(#[trigger] n.hooks[i].args[k])
    } by {
        assert(hook_of(opts.hooks[i], item, b, ins) == Ok::<HookView, Seq<char>>(n.hooks[i]));
        lemma_map_res_len(opts.hooks[i].raw_args, arg_fn(item, b, ins));
    }
}

/// A call whose arguments may all be passed, and that no builder asks anything
/// of, is accepted.
pub proof fn law_calls_are_accepted(
    callee: PathView,
    raw: Seq<Expr>,
    base: Seq<char>,
    fan: Option<FanSrcView>,
    used: Seq<Seq<char>>,
    nodes: Seq<NodeView>,
    b: Scope,
    ins: Seq<Seq<char>>,
)
    requires
        forall|i: int|
            0 <= i < raw.len() ==> passable(#[trigger] raw[i], b, ins) && call_of(raw[i]) is None,
    ensures
        push_of(callee, raw, base, NodeOptsView::empty(), None, fan, used, nodes, b, ins) matches Ok(
            p,
        ) && p.nodes.len() == nodes.len() + 1,
{
    let used = used.push(unique_name(used, base));
    lemma_args_accepted(raw, raw.len(), used, nodes, b, ins);
    assert(NodeOptsView::empty().hooks.len() == 0);
}

proof fn lemma_args_accepted(
    raw: Seq<Expr>,
    n: nat,
    used: Seq<Seq<char>>,
    nodes: Seq<NodeView>,
    b: Scope,
    ins: Seq<Seq<char>>,
)
    requires
        n <= raw.len(),
        forall|i: int|
            0 <= i < raw.len() ==> passable(#[trigger] raw[i], b, ins) && call_of(raw[i]) is None,
    ensures
        args_upto(raw, n, None, used, nodes, b, ins) matches Ok(d) && d.nodes == nodes,
    decreases n,
{
    if n > 0 {
        lemma_args_accepted(raw, (n - 1) as nat, used, nodes, b, ins);
        law_arguments_are_accepted(raw[n - 1], b, ins);
    }
}

// ---- statements --------------------------------------------------------------------
/// A body after the statement that makes `callee(raw…)` into the task `task`; the
/// statement binds `bind`.
pub open spec fn after_call(
    before: Body,
    after: Body,
    callee: PathView,
    raw: Seq<Expr>,
    bind: Option<Seq<char>>,
    item: Option<Seq<char>>,
    ins: Seq<Seq<char>>,
) -> bool {
    let task = after.nodes.last().task;
    &&& calls(before.nodes, after.nodes, task, callee, raw, item, before.bindings, ins)
    &&& after.bindings == match bind {
        Some(x) => before.bindings.insert(x, task),
        None => before.bindings,
    }
    &&& after.synth == before.synth
    &&& after.ifs == before.ifs
}

proof fn lemma_no_builder(e: Expr)
    requires
        call_of(e) is Some,
    ensures
        peeled(e) == Ok::<(Expr, NodeOptsView), Seq<char>>((e, NodeOptsView::empty())),
        fan_of(e) is None,
{
    assert(NodeOptsView::empty().hooks =~= Seq::<HookSpecView>::empty());
}

/// `let x = template(args);` makes the call into a task and binds the name to its
/// result; `let _` binds nothing.
pub proof fn law_let_binds_the_result(
    pat: Pat,
    init: Init,
    last: bool,
    want: bool,
    ins: Seq<Seq<char>>,
    st: Body,
)
    requires
        init.diverge is None,
        call_of(init.expr) is Some,
    ensures
        plain_step((Stmt::Local { pat, init: Some(init) }), last, want, ins, st) matches Ok(s2) ==> {
            let (callee, raw) = call_of(init.expr)->0;
            &&& bound_name(pat) is Ok
            &&& after_call(st, s2, callee.deep_view(), raw, bound_name(pat)->Ok_0, None, ins)
            &&& s2.out == st.out
            &&& s2.nodes.last().hooks.len() == 0
            &&& s2.nodes.last().continue_on is None
            &&& s2.nodes.last().fan is None
        },
{
    reveal(plain_step);
    reveal(value_call);
    let e = init.expr;
    lemma_no_builder(e);
    let r = plain_step((Stmt::Local { pat, init: Some(init) }), last, want, ins, st);
    if r is Ok {
        let (callee, raw) = call_of(e)->0;
        let base = match bound_name(pat)->Ok_0 {
            Some(n) => n,
            None => callee.deep_view().leaf(),
        };
        law_calls_become_tasks(
            callee.deep_view(),
            raw,
            base,
            NodeOptsView::empty(),
            None,
            None,
            st.used,
            st.nodes,
            st.bindings,
            ins,
        );
    }
}

/// A pattern binds the name that it is, whatever type is written beside it; `_`
/// binds none, and no other pattern is accepted.
pub proof fn law_patterns(pat: Pat)
    ensures
        match pat {
            Pat::Ident { name, simple } => if simple {
                bound_name(pat) == Ok::<Option<Seq<char>>, Seq<char>>(Some(name@))
            } else {
                bound_name(pat) is Err
            },
            Pat::Wild => bound_name(pat) == Ok::<Option<Seq<char>>, Seq<char>>(None),
            Pat::Type { pat: inner } => bound_name(pat) == bound_name(*inner),
            Pat::Other => bound_name(pat) is Err,
        },
{
}

/// `template(args);` makes the call into a task and binds nothing. Where it is the
/// last expression of a body with a value, that value is the task's result.
pub proof fn law_statements_run(
    e: Expr,
    semi: bool,
    last: bool,
    want: bool,
    ins: Seq<Seq<char>>,
    st: Body,
)
    requires
        call_of(e) is Some,
    ensures
        plain_step((Stmt::Expr { expr: e, semi }), last, want, ins, st) matches Ok(s2) ==> {
            let (callee, raw) = call_of(e)->0;
            &&& after_call(st, s2, callee.deep_view(), raw, None, None, ins)
            &&& s2.out == if last && !semi && want {
                Some(s2.nodes.last().task)
            } else {
                st.out
            }
        },
{
    reveal(plain_step);
    reveal(crate::body::call_stmt);
    lemma_no_builder(e);
    if plain_step((Stmt::Expr { expr: e, semi }), last, want, ins, st) is Ok {
        let (callee, raw) = call_of(e)->0;
        law_calls_become_tasks(
            callee.deep_view(),
            raw,
            callee.deep_view().leaf(),
            NodeOptsView::empty(),
            None,
            None,
            st.used,
            st.nodes,
            st.bindings,
            ins,
        );
    }
}

/// A statement that calls a template on arguments that may be passed is accepted,
/// and adds one task.
pub proof fn law_statements_are_accepted(
    s: Stmt,
    e: Expr,
    last: bool,
    want: bool,
    ins: Seq<Seq<char>>,
    st: Body,
)
    requires
        match s {
            Stmt::Local { pat, init } => bound_name(pat) is Ok && (init matches Some(n)
                && n.diverge is None && n.expr == e),
            Stmt::Expr { expr, semi: _ } => expr == e,
            _ => false,
        },
        call_of(e) matches Some((_, raw)) && forall|i: int|
            0 <= i < raw.len() ==> passable(#[trigger] raw[i], st.bindings, ins) && call_of(
                raw[i],
            ) is None,
    ensures
        plain_step(s, last, want, ins, st) matches Ok(s2) && s2.nodes.len() == st.nodes.len() + 1,
{
    reveal(plain_step);
    reveal(value_call);
    reveal(crate::body::call_stmt);
    lemma_no_builder(e);
    let (callee, raw) = call_of(e)->0;
    let base = match s {
        Stmt::Local { pat, init: _ } => match bound_name(pat)->Ok_0 {
            Some(n) => n,
            None => callee.deep_view().leaf(),
        },
        _ => callee.deep_view().leaf(),
    };
    law_calls_are_accepted(
        callee.deep_view(),
        raw,
        base,
        None,
        st.used,
        st.nodes,
        st.bindings,
        ins,
    );
}

/// The value of a body that ends in a name, or in `return` with a name, is the
/// result of the task that the name is bound to, and no task is added.
pub proof fn law_names_are_returned(
    e: Expr,
    returned: bool,
    want: bool,
    ins: Seq<Seq<char>>,
    st: Body,
)
    requires
        core_of(e) matches Expr::Path(p) && p.segments@.len() == 1,
        returned || core_of(e) == e,
    ensures
        ({
            let x = core_of(e)->Path_0.segments@[0]@;
            let s = if returned {
                Stmt::Expr { expr: Expr::Return { value: Some(Box::new(e)) }, semi: true }
            } else {
                Stmt::Expr { expr: e, semi: false }
            };
            match plain_step(s, true, want, ins, st) {
                Ok(s2) => {
                    &&& st.bindings.dom().contains(x)
                    &&& s2.out == Some(st.bindings[x])
                    &&& s2.nodes == st.nodes
                    &&& s2.bindings == st.bindings
                },
                Err(_) => !st.bindings.dom().contains(x),
            }
        }),
{
    reveal(plain_step);
    reveal(crate::body::return_value);
}

// ---- builders ---------------------------------------------------------------------
proof fn lemma_continue_kept(e: Expr, c: (bool, bool), exit_seen: bool)
    ensures
        peeled_from(e, Some(c), exit_seen) matches Ok((_, opts)) ==> opts.continue_on == Some(c),
    decreases e,
{
    lemma_core(e);
    match core_of(e) {
        Expr::MethodCall { receiver, method: _, args: _ } => {
            lemma_continue_kept(*receiver, c, exit_seen);
            lemma_continue_kept(*receiver, c, true);
        },
        _ => {},
    }
}

/// `.continue_on(…)` lets a workflow go on after the outcomes that it names, and
/// after no other: `error` after an error, `failed` after a failure.
pub proof fn law_continue_on(e: Expr)
    requires
        core_of(e) matches Expr::MethodCall { receiver: _, method, args: _ } && method@
            == "continue_on"@,
    ensures
        peeled(e) matches Ok((_, opts)) ==> {
            let args = core_of(e)->MethodCall_args@;
            &&& opts.continue_on matches Some((error, failed)) && {
                &&& error <==> exists|i: int| 0 <= i < args.len() && is_word(#[trigger] args[i], "error"@)
                &&& failed <==> exists|i: int| 0 <= i < args.len() && is_word(#[trigger] args[i], "failed"@)
                &&& error || failed
            }
        },
{
    lemma_core(e);
    let args = core_of(e)->MethodCall_args@;
    let receiver = *core_of(e)->MethodCall_receiver;
    if peeled(e) is Ok {
        let c = continue_words(args)->Ok_0;
        lemma_continue_kept(receiver, c, false);
        assert forall|i: int, w: Seq<char>| 0 <= i < args.len() implies (
        #[trigger] crate::analyze::word_is(args[i], w) <==> is_word(args[i], w)) by {
        }
        assert(is_word(args[0], "error"@) || is_word(args[0], "failed"@)) by {
            assert(crate::analyze::word_is(args[0], "error"@) || crate::analyze::word_is(
                args[0],
                "failed"@,
            ));
        }
        if c.0 {
            let i = choose|i: int|
                0 <= i < args.len() && crate::analyze::word_is(#[trigger] args[i], "error"@);
            assert(is_word(args[i], "error"@));
        }
        if c.1 {
            let i = choose|i: int|
                0 <= i < args.len() && crate::analyze::word_is(#[trigger] args[i], "failed"@);
            assert(is_word(args[i], "failed"@));
        }
    }
}

/// Whether an expression is the plain identifier `w`.
pub open spec fn is_word(e: Expr, w: Seq<char>) -> bool {
    core_of(e) matches Expr::Path(p) && p.plain && p.segments@.len() == 1 && p.segments@[0]@ == w
}

/// Whether a hook that is written as `t` or `t(args)` names this template and
/// these arguments.
pub open spec fn names_target(e: Expr, template: PathView, raw: Seq<Expr>) -> bool {
    match call_of(e) {
        Some((p, args)) => template == p.deep_view() && raw == args,
        None => core_of(e) matches Expr::Path(p) && template == p.deep_view() && raw.len() == 0,
    }
}

/// `.on_success(t)`, `.on_failure(t)`, `.on_error(t)` and `.on_exit(t)` add one hook
/// behind those written before: it runs `t`, and it waits for the outcome that
/// the builder is named after.
pub proof fn law_hooks_wait_for_their_outcome(e: Expr, w: HookWhenView)
    requires
        core_of(e) matches Expr::MethodCall { receiver: _, method, args } && (match w {
            HookWhenView::Success => method@ == "on_success"@,
            HookWhenView::Failure => method@ == "on_failure"@,
            HookWhenView::Error => method@ == "on_error"@,
            HookWhenView::Exit => method@ == "on_exit"@,
            HookWhenView::Raw(_) => false,
        }),
    ensures
        peeled(e) matches Ok((base, opts)) ==> {
            let args = core_of(e)->MethodCall_args@;
            let receiver = *core_of(e)->MethodCall_receiver;
            &&& args.len() == 1
            &&& opts.hooks.len() > 0
            &&& opts.hooks.last().when == w
            &&& names_target(args[0], opts.hooks.last().template, opts.hooks.last().raw_args)
            &&& peeled(receiver) matches Ok((base2, o2)) && base2 == base && o2.hooks
                == opts.hooks.drop_last() && o2.continue_on == opts.continue_on
        },
{
    reveal_strlit("continue_on");
    reveal_strlit("on_exit");
    reveal_strlit("hook_if");
    reveal_strlit("on_success");
    reveal_strlit("on_failure");
    reveal_strlit("on_error");
    assert("on_success"@[3] == 's' && "on_failure"@[3] == 'f');
    assert("on_exit"@[0] == 'o' && "hook_if"@[0] == 'h');
    assert("on_success"@ != "on_failure"@ && "on_exit"@ != "hook_if"@);
    assert("on_success"@.len() == 10 && "on_error"@.len() == 8 && "on_exit"@.len() == 7
        && "continue_on"@.len() == 11 && "hook_if"@.len() == 7);
    lemma_core(e);
    let receiver = *core_of(e)->MethodCall_receiver;
    let args = core_of(e)->MethodCall_args@;
    let method = core_of(e)->MethodCall_method@;
    assert(method != "continue_on"@ && method != "hook_if"@);
    if w is Exit {
        assert(method == "on_exit"@);
    } else {
        assert(method != "on_exit"@);
        assert(crate::analyze::phase_of(method) == Some(w));
    }
    if peeled(e) is Ok {
        let (template, raw_args) = crate::analyze::single_target(args)->Ok_0;
        assert(names_target(args[0], template, raw_args));
    }
    lemma_exit_seen(receiver, None);
    if peeled(e) is Ok {
        let (base, opts) = peeled(e)->Ok_0;
        let (base2, o2) = peeled(receiver)->Ok_0;
        assert(opts.hooks.drop_last() =~= o2.hooks);
    }
}

proof fn lemma_exit_seen(e: Expr, cont: Option<(bool, bool)>)
    ensures
        peeled_from(e, cont, true) is Ok ==> peeled_from(e, cont, false) == peeled_from(
            e,
            cont,
            true,
        ),
    decreases e,
{
    lemma_core(e);
    match core_of(e) {
        Expr::MethodCall { receiver, method, args } => {
            lemma_exit_seen(*receiver, cont);
            if continue_words(args@) is Ok {
                lemma_exit_seen(*receiver, Some(continue_words(args@)->Ok_0));
            }
        },
        _ => {},
    }
}

/// The event that a hook of `task` waits for, as Argo evaluates it: the status
/// that the task ends in. An exit hook has no condition.
pub proof fn law_hook_conditions(h: HookView, info: TemplateInfoView, task: Seq<char>)
    ensures
        ({
            let x = hook_wire(h, info, task, false).expression;
            match h.when {
                HookWhenView::Exit => x.len() == 0,
                HookWhenView::Success => x == "tasks['"@ + task + "'].status == \"Succeeded\""@,
                HookWhenView::Failure => x == "tasks['"@ + task + "'].status == \"Failed\""@,
                HookWhenView::Error => x == "tasks['"@ + task + "'].status == \"Error\""@,
                HookWhenView::Raw(s) => x == s,
            }
        }),
        hook_wire(h, info, task, false).template_ref matches Some(r) && r.name == info.argo_name
            && r.template == info.argo_name && !r.cluster_scope,
        h.args.len() > 0 ==> (hook_wire(h, info, task, false).arguments matches Some(a)
            && a.parameters.len() == h.args.len()),
{
    assert("tasks['"@ =~= "tasks"@ + "['"@) by {
        reveal_strlit("tasks['");
        reveal_strlit("tasks");
        reveal_strlit("['");
    }
    let x = hook_wire(h, info, task, false).expression;
    assert(h.when is Success ==> x =~= "tasks['"@ + task + "'].status == \"Succeeded\""@);
    assert(h.when is Failure ==> x =~= "tasks['"@ + task + "'].status == \"Failed\""@);
    assert(h.when is Error ==> x =~= "tasks['"@ + task + "'].status == \"Error\""@);
}

/// Every hook of a task reaches the wire under a key of its own.
pub proof fn law_every_hook_is_written(
    hooks: Seq<HookView>,
    infos: Seq<TemplateInfoView>,
    task: Seq<char>,
    steps: bool,
    i: int,
)
    requires
        0 <= i < hooks.len(),
        infos.len() == hooks.len(),
        forall|a: int, c: int|
            0 <= a < c < hooks.len() && (#[trigger] hooks[a]).when is Exit ==> !((
            #[trigger] hooks[c]).when is Exit),
    ensures
        exists|k: Seq<char>| #[trigger]
            hooks_upto(hooks, infos, hooks.len(), task, steps).dom().contains(k) && hooks_upto(
                hooks,
                infos,
                hooks.len(),
                task,
                steps,
            )[k] == hook_wire(hooks[i], infos[i], task, steps),
{
    lemma_hook_kept(hooks, infos, hooks.len(), task, steps, i);
    let k = crate::lower::hook_key(hooks, i);
    assert(hooks_upto(hooks, infos, hooks.len(), task, steps).dom().contains(k));
}

proof fn lemma_numbered(hooks: Seq<HookView>, a: nat, c: nat)
    requires
        a <= c <= hooks.len(),
    ensures
        crate::lower::numbered(hooks, a) <= crate::lower::numbered(hooks, c),
    decreases c,
{
    if a < c {
        lemma_numbered(hooks, a, (c - 1) as nat);
    }
}

proof fn lemma_hook_kept(
    hooks: Seq<HookView>,
    infos: Seq<TemplateInfoView>,
    n: nat,
    task: Seq<char>,
    steps: bool,
    i: int,
)
    requires
        0 <= i < n <= hooks.len(),
        infos.len() == hooks.len(),
        forall|a: int, c: int|
            0 <= a < c < hooks.len() && (#[trigger] hooks[a]).when is Exit ==> !((
            #[trigger] hooks[c]).when is Exit),
    ensures
        hooks_upto(hooks, infos, n, task, steps).dom().contains(
            crate::lower::hook_key(hooks, i),
        ),
        hooks_upto(hooks, infos, n, task, steps)[crate::lower::hook_key(hooks, i)] == hook_wire(
            hooks[i],
            infos[i],
            task,
            steps,
        ),
    decreases n,
{
    if i < n - 1 {
        lemma_hook_kept(hooks, infos, (n - 1) as nat, task, steps, i);
        let j = n - 1;
        assert(crate::lower::hook_key(hooks, i) != crate::lower::hook_key(hooks, j)) by {
            let a = crate::lower::hook_key(hooks, i);
            let c = crate::lower::hook_key(hooks, j);
            reveal_strlit("exit");
            reveal_strlit("hook");
            if hooks[i].when is Exit {
                assert(!(hooks[j].when is Exit));
                assert(a[0] == 'e' && c[0] == 'h');
            } else if hooks[j].when is Exit {
                assert(a[0] == 'h' && c[0] == 'e');
            } else {
                let x = crate::lower::numbered(hooks, (i + 1) as nat);
                let y = crate::lower::numbered(hooks, (j + 1) as nat);
                lemma_numbered(hooks, (i + 1) as nat, j as nat);
                assert(x < y);
                if a == c {
                    assert(a.skip(4) =~= crate::text::dec(x));
                    assert(c.skip(4) =~= crate::text::dec(y));
                    crate::analyze::lemma_dec_value(x);
                    crate::analyze::lemma_dec_value(y);
                }
            }
        }
    }
}

/// `.hook_if("expression" = t, …)` adds one hook for each entry, in order, that
/// runs `t` under the expression as it is written.
pub proof fn law_hook_if(e: Expr, i: int)
    requires
        core_of(e) matches Expr::MethodCall { receiver: _, method, args } && method@ == "hook_if"@
            && 0 <= i < args@.len(),
    ensures
        peeled(e) matches Ok((base, opts)) ==> {
            let args = core_of(e)->MethodCall_args@;
            let at = opts.hooks.len() - args.len() + i;
            &&& at >= 0
            &&& core_of(args[i]) matches Expr::Assign { left, right } && {
                &&& core_of(*left) matches Expr::Lit(Lit::Str(s)) && opts.hooks[at].when
                    == HookWhenView::Raw(s@)
                &&& names_target(*right, opts.hooks[at].template, opts.hooks[at].raw_args)
            }
        },
{
    reveal_strlit("continue_on");
    reveal_strlit("on_exit");
    reveal_strlit("hook_if");
    assert("on_exit"@[0] == 'o' && "hook_if"@[0] == 'h');
    lemma_core(e);
    let args = core_of(e)->MethodCall_args@;
    let receiver = *core_of(e)->MethodCall_receiver;
    let f = crate::analyze::hook_entry_fn();
    lemma_map_res_len(args, f);
    if peeled(e) is Ok {
        let hooks = map_res(args, f)->Ok_0;
        let (base, o2) = peeled_from(receiver, None, false)->Ok_0;
        let opts = peeled(e)->Ok_0.1;
        assert(opts.hooks == o2.hooks + hooks);
        assert(opts.hooks[opts.hooks.len() - args.len() + i] == hooks[i]);
        assert(f(args[i]) == Ok::<HookSpecView, Seq<char>>(hooks[i]));
    }
}

// ---- fan-outs -----------------------------------------------------------------------
/// `list.fan_out(|x| template(args))` makes one task that walks the list: a bound
/// list is the result of its task, any other is the input, and inside the call the
/// name of the closure stands for the item.
pub proof fn law_fan_out(
    e: Expr,
    bind: Option<Seq<char>>,
    ins: Seq<Seq<char>>,
    st: Body,
)
    requires
        fan_of(e) is Some,
    ensures
        value_call(e, bind, true, ins, st) matches Ok((task, s2)) ==> {
            let f = fan_of(e)->0;
            &&& calls(
                st.nodes,
                s2.nodes,
                task,
                f.callee.deep_view(),
                f.args,
                Some(f.item),
                st.bindings,
                ins,
            )
            &&& core_of(f.list) matches Expr::Path(p) && p.segments@.len() == 1 && {
                let x = p.segments@[0]@;
                s2.nodes.last().fan == Some(
                    if st.bindings.dom().contains(x) {
                        FanSrcView::Task(st.bindings[x])
                    } else {
                        FanSrcView::Input(x)
                    },
                ) && in_scope(x, st.bindings, ins)
            }
        },
        ({
            let f = fan_of(e)->0;
            &&& core_of(e) matches Expr::MethodCall { receiver, method, args } && {
                &&& *receiver == f.list
                &&& method@ == "fan_out"@
                &&& args@.len() == 1
                &&& core_of(args@[0]) matches Expr::Closure { inputs, body } && inputs@.len() == 1
                    && bound_name(inputs@[0]) == Ok::<Option<Seq<char>>, Seq<char>>(Some(f.item))
            }
        }),
{
    reveal(value_call);
    reveal_strlit("fan_out");
    reveal_strlit("continue_on");
    reveal_strlit("on_exit");
    reveal_strlit("hook_if");
    reveal_strlit("on_success");
    reveal_strlit("on_failure");
    reveal_strlit("on_error");
    assert("on_exit"@[0] == 'o' && "hook_if"@[0] == 'h' && "fan_out"@[0] == 'f');
    assert(peeled(e) == Ok::<(Expr, NodeOptsView), Seq<char>>((e, NodeOptsView::empty()))) by {
        assert(NodeOptsView::empty().hooks =~= Seq::<HookSpecView>::empty());
    }
    if value_call(e, bind, true, ins, st) is Ok {
        let f = fan_of(e)->0;
        let base = match bind {
            Some(n) => n,
            None => f.callee.deep_view().leaf(),
        };
        law_calls_become_tasks(
            f.callee.deep_view(),
            f.args,
            base,
            NodeOptsView::empty(),
            Some(f.item),
            Some(fan_source(f.list, st.bindings, ins)->Ok_0),
            st.used,
            st.nodes,
            st.bindings,
            ins,
        );
    }
}

/// A fan-out walks what its list is: the result of a task, or an input. A task
/// that is no fan-out walks nothing.
pub proof fn law_fan_out_walks_its_list(
    fan: Option<FanSrcView>,
    steps: bool,
    tag: spec_fn(Seq<char>) -> Seq<char>,
)
    ensures
        match fan {
            Some(FanSrcView::Task(t)) => filled(with_param_of(fan, steps), tag) == tag(
                result_tag(steps, t),
            ),
            Some(FanSrcView::Input(n)) => filled(with_param_of(fan, steps), tag) == tag(
                input_tag(n),
            ),
            None => with_param_of(fan, steps).len() == 0,
        },
{
    match fan {
        Some(FanSrcView::Task(t)) => lemma_name_text(ArgView::Ref(t), steps, tag),
        Some(FanSrcView::Input(n)) => lemma_name_text(ArgView::Input(n), steps, tag),
        None => {},
    }
}

/// The item of a fan-out is passed whole, and a field of it by its names.
pub proof fn law_items_are_passed(path: Seq<Seq<char>>, steps: bool)
    ensures
        path.len() == 0 ==> value_of((ArgView::Item { path }), steps) == "{{item}}"@,
        path.len() == 1 ==> value_of((ArgView::Item { path }), steps) == "{{item."@ + path[0] + "}}"@,
        path.len() == 2 ==> value_of((ArgView::Item { path }), steps) == "{{item."@ + path[0] + "."@
            + path[1] + "}}"@,
{
    reveal_strlit("{{item");
    reveal_strlit("{{item}}");
    reveal_strlit("{{item.");
    reveal_strlit(".");
    reveal_strlit("}}");
    let t = value_of((ArgView::Item { path }), steps);
    reveal_with_fuel(crate::lower::item_text, 3);
    if path.len() == 0 {
        assert(t =~= "{{item}}"@);
    } else if path.len() == 1 {
        assert(t =~= "{{item."@ + path[0] + "}}"@);
    } else if path.len() == 2 {
        assert(path.drop_last().last() == path[0]);
        assert(t =~= "{{item."@ + path[0] + "."@ + path[1] + "}}"@);
    }
}

// ---- branches ------------------------------------------------------------------------
/// The arms of an `if` are its own condition and block, then those of the `else if`
/// behind it, or the block of its `else` without a condition.
pub proof fn law_arms(i: IfExpr)
    ensures
        arms_of(i).len() > 0,
        arms_of(i)[0] == (Some(*i.cond), i.then_branch@),
        match i.else_branch {
            Some(x) => match *x {
                Expr::If(n) => arms_of(i).skip(1) == arms_of(n),
                Expr::Block { stmts } => arms_of(i).len() == 2 && arms_of(i)[1] == (
                    None::<Expr>,
                    stmts@,
                ),
                _ => arms_of(i).len() == 1,
            },
            None => arms_of(i).len() == 1,
        },
{
    if let Some(x) = i.else_branch {
        if let Expr::If(n) = *x {
            assert(arms_of(i).skip(1) =~= arms_of(n));
        }
    }
}

/// Whether the arm `j` is the one that the language runs: no condition before it
/// holds, and its own does, where it has one.
pub open spec fn chosen(
    arms: Seq<(Option<Expr>, Seq<Stmt>)>,
    j: int,
    call: spec_fn(Seq<char>) -> Atom,
    ev: Evaluation,
) -> bool {
    &&& none_before(arms, j, call, ev)
    &&& arms[j].0 matches Some(e) ==> source_holds(e, call, ev)
}

pub open spec fn none_before(
    arms: Seq<(Option<Expr>, Seq<Stmt>)>,
    j: int,
    call: spec_fn(Seq<char>) -> Atom,
    ev: Evaluation,
) -> bool {
    forall|i: int|
        0 <= i < j ==> ((#[trigger] arms[i]).0 matches Some(e) ==> !source_holds(e, call, ev))
}

proof fn lemma_conds_hold(
    arms: Seq<(Option<Expr>, Seq<Stmt>)>,
    n: nat,
    b: Scope,
    ins: Seq<Seq<char>>,
    st: Hoist,
    last: Seq<(Seq<char>, Seq<char>)>,
    caps: Seq<Seq<char>>,
    call: spec_fn(Seq<char>) -> Atom,
    ev: Evaluation,
)
    requires
        n <= arms.len(),
        conds_upto(arms, n, b, ins, st) is Ok,
    ensures
        ({
            let (cs, h) = conds_upto(arms, n, b, ins, st)->Ok_0;
            &&& cs.len() == n
            &&& extends(st.seen, h.seen)
            &&& forall|i: int|
                0 <= i < n ==> ((#[trigger] cs[i]) is Some <==> arms[i].0 is Some)
            &&& extends(h.seen, last) && calls_named(last, call, ev) ==> forall|i: int|
                0 <= i < n && (#[trigger] cs[i]) is Some && when_of(
                    cs[i]->0,
                    Map::empty(),
                    caps,
                ) is Ok ==> when_holds(when_of(cs[i]->0, Map::empty(), caps)->Ok_0, ev)
                    == source_holds(arms[i].0->0, call, ev)
        }),
    decreases n,
{
    if n > 0 {
        let (c1, h1) = conds_upto(arms, (n - 1) as nat, b, ins, st)->Ok_0;
        let (cs, h) = conds_upto(arms, n, b, ins, st)->Ok_0;
        lemma_conds_hold(arms, (n - 1) as nat, b, ins, st, last, caps, call, ev);
        if arms[n - 1].0 is Some {
            lemma_source(arms[n - 1].0->0, b, ins, h1, last, caps, call, ev);
        }
        assert(extends(h1.seen, h.seen));
        assert(extends(st.seen, h.seen)) by {
            assert forall|i: int| 0 <= i < st.seen.len() implies #[trigger] h.seen[i]
                == st.seen[i] by {
                assert(h1.seen[i] == st.seen[i]);
            }
        }
        assert forall|i: int| 0 <= i < n implies ((#[trigger] cs[i]) is Some <==> arms[i].0
            is Some) by {
            if i < n - 1 {
                assert(cs[i] == c1[i]);
            }
        }
        if extends(h.seen, last) && calls_named(last, call, ev) {
            assert(extends(h1.seen, last)) by {
                assert forall|i: int| 0 <= i < h1.seen.len() implies #[trigger] last[i]
                    == h1.seen[i] by {
                    assert(h.seen[i] == h1.seen[i]);
                }
            }
            assert forall|i: int|
                0 <= i < n && (#[trigger] cs[i]) is Some && when_of(
                    cs[i]->0,
                    Map::empty(),
                    caps,
                ) is Ok implies when_holds(when_of(cs[i]->0, Map::empty(), caps)->Ok_0, ev)
                == source_holds(arms[i].0->0, call, ev) by {
                if i < n - 1 {
                    assert(cs[i] == c1[i]);
                }
            }
        }
    }
}

proof fn lemma_none_before(
    arms: Seq<(Option<Expr>, Seq<Stmt>)>,
    cs: Seq<Option<CondView>>,
    n: nat,
    caps: Seq<Seq<char>>,
    call: spec_fn(Seq<char>) -> Atom,
    ev: Evaluation,
)
    requires
        n <= cs.len(),
        cs.len() <= arms.len(),
        none_of_upto(cs, n, caps) is Ok,
        forall|i: int| 0 <= i < n ==> ((#[trigger] cs[i]) is Some <==> arms[i].0 is Some),
        forall|i: int|
            0 <= i < n && (#[trigger] cs[i]) is Some && when_of(cs[i]->0, Map::empty(), caps) is Ok
                ==> when_holds(when_of(cs[i]->0, Map::empty(), caps)->Ok_0, ev) == source_holds(
                arms[i].0->0,
                call,
                ev,
            ),
    ensures
        match none_of_upto(cs, n, caps)->Ok_0 {
            Some(w) => when_holds(w, ev) == none_before(arms, n as int, call, ev),
            None => none_before(arms, n as int, call, ev),
        },
    decreases n,
{
    if n > 0 {
        lemma_none_before(arms, cs, (n - 1) as nat, caps, call, ev);
        reveal_with_fuel(when_holds, 3);
        assert(none_before(arms, n as int, call, ev) <==> none_before(
            arms,
            n - 1,
            call,
            ev,
        ) && (arms[n - 1].0 matches Some(e) ==> !source_holds(e, call, ev)));
        assert(cs[n - 1] is Some <==> arms[n - 1].0 is Some);
    }
}

/// The text that gates an arm holds exactly when the language would run that arm:
/// whatever the inputs are, however values are ordered, and whatever the calls in
/// the conditions give. An arm without a gate is one that always runs.
pub proof fn law_gates_choose_as_written(
    arms: Seq<(Option<Expr>, Seq<Stmt>)>,
    j: nat,
    b: Scope,
    ins: Seq<Seq<char>>,
    st: Hoist,
    caps: Seq<Seq<char>>,
    call: spec_fn(Seq<char>) -> Atom,
    ev: Evaluation,
)
    requires
        j < arms.len(),
        conds_upto(arms, arms.len(), b, ins, st) is Ok,
        calls_named(conds_upto(arms, arms.len(), b, ins, st)->Ok_0.1.seen, call, ev),
        gate_of(conds_upto(arms, arms.len(), b, ins, st)->Ok_0.0, j, caps) is Ok,
        gate_of(conds_upto(arms, arms.len(), b, ins, st)->Ok_0.0, j, caps)->Ok_0 matches Some(w)
            ==> readable(w),
    ensures
        match gate_text(gate_of(conds_upto(arms, arms.len(), b, ins, st)->Ok_0.0, j, caps)->Ok_0) {
            Some(t) => text_holds(t, ev) == Some(chosen(arms, j as int, call, ev)),
            None => chosen(arms, j as int, call, ev),
        },
{
    let (cs, h) = conds_upto(arms, arms.len(), b, ins, st)->Ok_0;
    lemma_conds_hold(arms, arms.len(), b, ins, st, h.seen, caps, call, ev);
    assert(extends(h.seen, h.seen));
    lemma_none_before(arms, cs, j, caps, call, ev);
    reveal_with_fuel(when_holds, 3);
    assert(cs[j as int] is Some <==> arms[j as int].0 is Some);
    if let Some(w) = gate_of(cs, j, caps)->Ok_0 {
        lemma_when_text(w, Seq::empty(), ev);
        assert(when_text(w) + Seq::<char>::empty() =~= when_text(w));
    }
}

/// A synthesized workflow among `s` that has these tasks and inputs, and that a
/// task calls by `callee`.
pub open spec fn synthesized(
    s: Seq<SynthWfView>,
    callee: PathView,
    nodes: Seq<NodeView>,
    inputs: Seq<Seq<char>>,
) -> bool {
    exists|k: int|
        0 <= k < s.len() && PathView::of((#[trigger] s[k]).ident) == callee && s[k].nodes
            == nodes && s[k].inputs == inputs
}

/// Whether a task calls a workflow whose tasks are those of a block, and passes it
/// every captured name as it is.
pub open spec fn runs_block(
    n: NodeView,
    block: Seq<Stmt>,
    caps: Seq<Seq<char>>,
    value: bool,
    me: SelfName,
    s: Seq<SynthWfView>,
) -> bool {
    &&& n.args.len() == caps.len()
    &&& forall|i: int| 0 <= i < caps.len() ==> #[trigger] n.args[i] == ArgView::Input(caps[i])
    &&& exists|from: Seq<SynthWfView>, ifs: nat|
        {
            &&& (#[trigger] stmts_done(block, caps, value, me, from, ifs)) is Ok
            &&& synthesized(
                s,
                n.callee,
                retagged(stmts_done(block, caps, value, me, from, ifs)->Ok_0.nodes),
                caps,
            )
        }
}

proof fn lemma_synthesized(
    s: Seq<SynthWfView>,
    t: Seq<SynthWfView>,
    callee: PathView,
    nodes: Seq<NodeView>,
    inputs: Seq<Seq<char>>,
)
    requires
        synthesized(s, callee, nodes, inputs),
        extends(s, t),
    ensures
        synthesized(t, callee, nodes, inputs),
{
    let k = choose|k: int|
        0 <= k < s.len() && PathView::of((#[trigger] s[k]).ident) == callee && s[k].nodes == nodes
            && s[k].inputs == inputs;
    assert(t[k] == s[k]);
}

proof fn lemma_done_extends(
    stmts: Seq<Stmt>,
    ins: Seq<Seq<char>>,
    want: bool,
    me: SelfName,
    synth: Seq<SynthWfView>,
    ifs: nat,
)
    ensures
        stmts_done(stmts, ins, want, me, synth, ifs) matches Ok(d) ==> extends(synth, d.synth),
    decreases stmts, stmts.len() + 1,
{
    lemma_done_step(stmts, ins, want, me, synth, ifs);
    lemma_upto_extends(stmts, stmts.len(), ins, want, me, synth, ifs);
}

proof fn lemma_upto_extends(
    stmts: Seq<Stmt>,
    n: nat,
    ins: Seq<Seq<char>>,
    want: bool,
    me: SelfName,
    synth: Seq<SynthWfView>,
    ifs: nat,
)
    requires
        n <= stmts.len(),
    ensures
        stmts_upto(stmts, n, ins, want, me, synth, ifs) matches Ok(b) ==> extends(synth, b.synth),
    decreases stmts, n,
{
    lemma_stmts_step(stmts, n, ins, want, me, synth, ifs);
    if n > 0 {
        let s = stmts[n - 1];
        let last = n == stmts.len();
        lemma_upto_extends(stmts, (n - 1) as nat, ins, want, me, synth, ifs);
        lemma_if_in(s, last, want);
        let before = stmts_upto(stmts, (n - 1) as nat, ins, want, me, synth, ifs);
        if before is Ok {
            let st = before->Ok_0;
            match if_in(s, last, want) {
                Some((e, bind, value)) => {
                    lemma_synth_extends(e, bind, value, ins, me, st);
                    reveal(after_if);
                },
                None => {
                    reveal(plain_step);
                    reveal(value_call);
                    reveal(crate::body::call_stmt);
                    reveal(crate::body::return_value);
                },
            }
        }
    }
}

proof fn lemma_synth_extends(
    i: IfExpr,
    bind: Option<Seq<char>>,
    value: bool,
    ins: Seq<Seq<char>>,
    me: SelfName,
    st: Body,
)
    ensures
        synth_of(i, bind, value, ins, me, st) matches Ok(r) ==> extends(st.synth, r.1.synth),
    decreases i, arms_of(i).len() + 1,
{
    lemma_synth_step(i, bind, value, ins, me, st);
    let h = if_head(arms_of(i), value, ins, st);
    if h is Ok {
        let head = h->Ok_0;
        lemma_arms_run(
            i,
            arms_of(i).len(),
            head.conds,
            head.caps,
            value,
            me,
            st.ifs,
            st.synth,
            st.ifs + 1,
        );
        reveal(with_wrapper);
    }
}

/// The tasks that an `if` becomes: each calls the workflow of its own arm, under the
/// gate of that arm.
proof fn lemma_arms_run(
    i: IfExpr,
    n: nat,
    conds: Seq<Option<CondView>>,
    caps: Seq<Seq<char>>,
    value: bool,
    me: SelfName,
    k: nat,
    synth: Seq<SynthWfView>,
    ifs: nat,
)
    requires
        n <= arms_of(i).len(),
    ensures
        arms_upto(i, n, conds, caps, value, me, k, synth, ifs) matches Ok(a) ==> {
            &&& extends(synth, a.synth)
            &&& a.wrap.len() == n
            &&& a.tasks.len() == n
            &&& forall|j: int|
                0 <= j < n ==> {
                    &&& (#[trigger] a.wrap[j]).task == a.tasks[j]
                    &&& gate_of(conds, j as nat, caps) matches Ok(g) && a.wrap[j].when == gate_text(
                        g,
                    )
                    &&& runs_block(
                        a.wrap[j],
                        arms_of(i)[j].1,
                        caps,
                        value,
                        arm_name(me, k, j as nat),
                        a.synth,
                    )
                }
        },
    decreases i, n,
{
    lemma_arms_step(i, n, conds, caps, value, me, k, synth, ifs);
    if n > 0 {
        lemma_arms(i);
        let j = (n - 1) as nat;
        assert(decreases_to!(i => arms_of(i)[j as int].1));
        lemma_arms_run(i, j, conds, caps, value, me, k, synth, ifs);
        let before = arms_upto(i, j, conds, caps, value, me, k, synth, ifs);
        if before is Ok {
            let st = before->Ok_0;
            let block = arms_of(i)[j as int].1;
            let name = arm_name(me, k, j);
            lemma_done_extends(block, caps, value, name, st.synth, st.ifs);
            let done = stmts_done(block, caps, value, name, st.synth, st.ifs);
            if done is Ok && arms_upto(i, n, conds, caps, value, me, k, synth, ifs) is Ok {
                let d = done->Ok_0;
                reveal(with_arm);
                let a = arms_upto(i, n, conds, caps, value, me, k, synth, ifs)->Ok_0;
                assert(a == with_arm(st, j, conds, caps, value, name, d)->Ok_0);
                assert(extends(st.synth, a.synth));
                assert(extends(synth, a.synth)) by {
                    assert forall|x: int| 0 <= x < synth.len() implies #[trigger] a.synth[x]
                        == synth[x] by {
                        assert(st.synth[x] == synth[x]);
                    }
                }
                let nodes = retagged(d.nodes);
                let at = a.synth.len() - 1;
                assert(a.synth[at].nodes == nodes && a.synth[at].inputs == caps);
                assert(synthesized(a.synth, a.wrap[j as int].callee, nodes, caps));
                assert(runs_block(a.wrap[j as int], block, caps, value, name, a.synth));
                assert forall|x: int| 0 <= x < n implies {
                    &&& (#[trigger] a.wrap[x]).task == a.tasks[x]
                    &&& gate_of(conds, x as nat, caps) matches Ok(g) && a.wrap[x].when == gate_text(
                        g,
                    )
                    &&& runs_block(
                        a.wrap[x],
                        arms_of(i)[x].1,
                        caps,
                        value,
                        arm_name(me, k, x as nat),
                        a.synth,
                    )
                } by {
                    if x < j {
                        assert(a.wrap[x] == st.wrap[x]);
                        assert(a.tasks[x] == st.tasks[x]);
                        let me2 = arm_name(me, k, x as nat);
                        let b2 = arms_of(i)[x].1;
                        assert(runs_block(st.wrap[x], b2, caps, value, me2, st.synth));
                        let (from, f) = choose|from: Seq<SynthWfView>, f: nat|
                            {
                                &&& (#[trigger] stmts_done(b2, caps, value, me2, from, f)) is Ok
                                &&& synthesized(
                                    st.synth,
                                    st.wrap[x].callee,
                                    retagged(stmts_done(b2, caps, value, me2, from, f)->Ok_0.nodes),
                                    caps,
                                )
                            };
                        lemma_synthesized(
                            st.synth,
                            a.synth,
                            st.wrap[x].callee,
                            retagged(stmts_done(b2, caps, value, me2, from, f)->Ok_0.nodes),
                            caps,
                        );
                        assert(stmts_done(b2, caps, value, me2, from, f) is Ok);
                    }
                }
            }
        }
    }
}

/// An `if` becomes one task, which runs a workflow with one task for each arm: it
/// is gated as the language chooses, and runs what the arm's block says. The task
/// hands in every captured name: the result of the task that it is bound to, or
/// the input. Where the `if` has a value, that workflow hands on the result of the
/// arm that ran.
pub proof fn law_if_runs_its_arms(
    i: IfExpr,
    bind: Option<Seq<char>>,
    value: bool,
    ins: Seq<Seq<char>>,
    me: SelfName,
    st: Body,
    j: int,
)
    requires
        synth_of(i, bind, value, ins, me, st) is Ok,
        0 <= j < arms_of(i).len(),
    ensures
        ({
            let (task, s2) = synth_of(i, bind, value, ins, me, st)->Ok_0;
            let arms = arms_of(i);
            let w = s2.synth.last();
            let n = s2.nodes.last();
            &&& conds_upto(
                arms,
                arms.len(),
                st.bindings,
                ins,
                (Hoist { used: st.used, nodes: st.nodes, seen: Seq::empty() }),
            ) matches Ok((conds, h)) && {
                &&& s2.nodes.len() == h.nodes.len() + 1
                &&& extends(h.nodes, s2.nodes)
                &&& gate_of(conds, j as nat, w.inputs) matches Ok(g) && w.nodes[j].when
                    == gate_text(g)
                &&& forall|x: int|
                    0 <= x < w.inputs.len() ==> {
                        let c = #[trigger] w.inputs[x];
                        n.args[x] == if with_conds(st.bindings, h.seen).dom().contains(c) {
                            ArgView::Ref(with_conds(st.bindings, h.seen)[c])
                        } else {
                            ArgView::Input(c)
                        }
                    }
            }
            &&& n.task == task
            &&& n.callee == PathView::of(w.ident)
            &&& n.args.len() == w.inputs.len()
            &&& n.when is None
            &&& w.nodes.len() == arms.len()
            &&& runs_block(
                w.nodes[j],
                arms[j].1,
                w.inputs,
                value,
                arm_name(me, st.ifs, j as nat),
                s2.synth,
            )
            &&& if value {
                w.output matches SynthOutView::Select(ts) && ts.len() == arms.len() && ts[j]
                    == w.nodes[j].task
            } else {
                w.output is Nothing
            }
            &&& s2.bindings == st.bindings
        }),
{
    lemma_synth_step(i, bind, value, ins, me, st);
    let h = if_head(arms_of(i), value, ins, st);
    let head = h->Ok_0;
    lemma_arms_run(
        i,
        arms_of(i).len(),
        head.conds,
        head.caps,
        value,
        me,
        st.ifs,
        st.synth,
        st.ifs + 1,
    );
    reveal(with_wrapper);
    reveal(if_head);
    let a = arms_upto(
        i,
        arms_of(i).len(),
        head.conds,
        head.caps,
        value,
        me,
        st.ifs,
        st.synth,
        st.ifs + 1,
    )->Ok_0;
    let s2 = synth_of(i, bind, value, ins, me, st)->Ok_0.1;
    assert(extends(a.synth, s2.synth));
    let b2 = arms_of(i)[j].1;
    let me2 = arm_name(me, st.ifs, j as nat);
    assert(a.wrap[j].task == a.tasks[j]);
    assert(runs_block(a.wrap[j], b2, head.caps, value, me2, a.synth));
    let (from, f) = choose|from: Seq<SynthWfView>, f: nat|
        {
            &&& (#[trigger] stmts_done(b2, head.caps, value, me2, from, f)) is Ok
            &&& synthesized(
                a.synth,
                a.wrap[j].callee,
                retagged(stmts_done(b2, head.caps, value, me2, from, f)->Ok_0.nodes),
                head.caps,
            )
        };
    lemma_synthesized(
        a.synth,
        s2.synth,
        a.wrap[j].callee,
        retagged(stmts_done(b2, head.caps, value, me2, from, f)->Ok_0.nodes),
        head.caps,
    );
    assert(stmts_done(b2, head.caps, value, me2, from, f) is Ok);
}

/// A task is called after what it is named for, in kebab form; where that name is
/// taken, a dash and a number stand behind it.
pub proof fn law_tasks_are_named_after_their_calls(used: Seq<Seq<char>>, base: Seq<char>)
    ensures
        !used.contains(kebab_of(base)) ==> unique_name(used, base) == kebab_of(base),
        has_prefix(unique_name(used, base), kebab_of(base)),
{
    let k = kebab_of(base);
    crate::analyze::lemma_some_free(used, k, 1);
    let n = choose|n: nat| first_free(used, k, n);
    assert(first_free(used, k, n));
    assert(candidate(k, 1) == k);
    if !used.contains(k) && n > 1 {
        assert(used.contains(candidate(k, 1)));
    }
    let u = unique_name(used, base);
    assert(u.subrange(0, k.len() as int) =~= k);
}

/// `let x = if …` binds the name to the result of the `if`; an `if` at the end of a
/// body with a value, or behind `return`, is that value.
pub proof fn law_the_value_of_an_if(s: Stmt, last: bool, want: bool, task: Seq<char>, st: Body)
    requires
        if_in(s, last, want) is Some,
    ensures
        ({
            let b = after_if(s, last, want, (task, st));
            &&& b.nodes == st.nodes && b.synth == st.synth && b.ifs == st.ifs && b.used == st.used
            &&& match s {
                Stmt::Local { pat, init: _ } => {
                    &&& b.out == st.out
                    &&& match bound_name(pat)->Ok_0 {
                        Some(x) => b.bindings == st.bindings.insert(x, task),
                        None => b.bindings == st.bindings,
                    }
                },
                Stmt::Expr { expr, semi } => {
                    &&& b.bindings == st.bindings
                    &&& core_of(expr) is Return ==> b.out == Some(task)
                    &&& core_of(expr) is If && last && want && !semi ==> b.out == Some(task)
                    &&& core_of(expr) is If && !(last && want && !semi) ==> b.out == st.out
                },
                _ => true,
            }
        }),
{
    reveal(after_if);
}

/// Which statements are an `if`, and where it has a value: behind `let`, behind a
/// final `return`, and as the last expression of a body that has one.
pub proof fn law_where_an_if_has_a_value(e: Expr, i: IfExpr, name: Pat, last: bool, want: bool, semi: bool)
    requires
        core_of(e) == Expr::If(i),
    ensures
        if_in((Stmt::Expr { expr: e, semi }), last, want) == Some(
            (i, None::<Seq<char>>, last && want && !semi),
        ),
        bound_name(name) matches Ok(b) ==> if_in(
            (Stmt::Local { pat: name, init: Some(Init { expr: e, diverge: None }) }),
            last,
            want,
        ) == Some((i, b, true)),
        if_in(
            (Stmt::Expr { expr: Expr::Return { value: Some(Box::new(e)) }, semi }),
            true,
            want,
        ) == Some((i, None::<Seq<char>>, true)),
{
}

/// A reference to a task says what it is a reference to: the collected results of a
/// fan-out, an outcome where the task may fail, and otherwise the result.
pub proof fn law_references_say_what_they_are(nodes: Seq<NodeView>, t: Seq<char>)
    ensures
        ({
            let r = retag_arg(ArgView::Ref(t), nodes);
            let fails = exists|i: int|
                0 <= i < nodes.len() && (#[trigger] nodes[i]).task == t && nodes[i].continue_on
                    is Some;
            &&& fan_list(nodes, t) is None && !fails ==> r == ArgView::Ref(t)
            &&& fan_list(nodes, t) is None && fails ==> r == ArgView::RefFallible(t)
            &&& fan_list(nodes, t) is Some && !fails ==> r == ArgView::FanAgg(t)
            &&& fan_list(nodes, t) is Some && fails ==> r == (ArgView::FanAggFallible {
                task: t,
                list: fan_list(nodes, t)->0,
            })
        }),
        fan_list(nodes, t) is Some <==> exists|i: int|
            0 <= i < nodes.len() && (#[trigger] nodes[i]).task == t && nodes[i].fan is Some,
{
    lemma_fan_list(nodes, t);
}

proof fn lemma_fan_list(nodes: Seq<NodeView>, t: Seq<char>)
    ensures
        fan_list(nodes, t) is Some <==> exists|i: int|
            0 <= i < nodes.len() && (#[trigger] nodes[i]).task == t && nodes[i].fan is Some,
    decreases nodes.len(),
{
    if nodes.len() > 0 {
        let f = nodes.drop_last();
        lemma_fan_list(f, t);
        assert(nodes[nodes.len() - 1] == nodes.last());
        if fan_list(f, t) is Some {
            let i = choose|i: int|
                0 <= i < f.len() && (#[trigger] f[i]).task == t && f[i].fan is Some;
            assert(nodes[i] == f[i]);
        }
        if exists|i: int|
            0 <= i < nodes.len() && (#[trigger] nodes[i]).task == t && nodes[i].fan is Some {
            let i = choose|i: int|
                0 <= i < nodes.len() && (#[trigger] nodes[i]).task == t && nodes[i].fan is Some;
            if i < f.len() {
                assert(f[i] == nodes[i]);
            }
        }
    }
}

/// The tasks of a workflow are those of its body, over the parameters of its
/// function; its value is the value of its body.
pub proof fn law_the_body_of_a_workflow(f: FnDecl, argo: Seq<char>, i: int)
    ensures
        analyzed(f, argo) matches Ok(a) ==> {
            let ins = signature_of(args_of(f.params@)).inputs;
            let me = SelfName { argo, rust: f.name@ };
            &&& stmts_done(f.body@, ins, f.output is Some, me, Seq::empty(), 0) matches Ok(d) && {
                &&& a.nodes.len() == d.nodes.len()
                &&& 0 <= i < d.nodes.len() ==> a.nodes[i].task == d.nodes[i].task
                    && a.nodes[i].callee == d.nodes[i].callee && a.nodes[i].args.len()
                    == d.nodes[i].args.len() && a.nodes[i].when == d.nodes[i].when
                    && a.nodes[i].fan == d.nodes[i].fan && a.nodes[i].continue_on
                    == d.nodes[i].continue_on && a.nodes[i].hooks.len() == d.nodes[i].hooks.len()
                &&& a.output_task == d.out
                &&& a.synths == d.synth
            }
        },
{
}

/// A body is read statement by statement: from nothing, each on what the ones before
/// it left.
pub proof fn law_bodies_are_read_in_order(
    stmts: Seq<Stmt>,
    n: nat,
    ins: Seq<Seq<char>>,
    want: bool,
    me: SelfName,
)
    requires
        n < stmts.len(),
        if_in(stmts[n as int], n + 1 == stmts.len(), want) is None,
    ensures
        stmts_upto(stmts, 0, ins, want, me, Seq::empty(), 0) matches Ok(b) && b.nodes.len() == 0
            && b.bindings == Map::<Seq<char>, Seq<char>>::empty() && b.out is None,
        stmts_upto(stmts, n, ins, want, me, Seq::empty(), 0) matches Ok(b) ==> stmts_upto(
            stmts,
            n + 1,
            ins,
            want,
            me,
            Seq::empty(),
            0,
        ) == plain_step(stmts[n as int], n + 1 == stmts.len(), want, ins, b),
{
    lemma_stmts_step(stmts, n + 1, ins, want, me, Seq::empty(), 0);
}

/// A call in a condition is a task like any other, made once for each text: the
/// name that stands for it is bound to that task's result.
pub proof fn law_calls_in_conditions(e: Expr, b: Scope, ins: Seq<Seq<char>>, st: Hoist)
    requires
        call_of(e) is Some,
        hoisted_operand(e, b, ins, st) is Ok,
    ensures
        ({
            let (o, s) = hoisted_operand(e, b, ins, st)->Ok_0;
            let (callee, raw) = call_of(e)->0;
            &&& o is Hoisted
            &&& exists|i: int|
                0 <= i < s.seen.len() && (#[trigger] s.seen[i]).0 == call_text(e) && o
                    == OperandView::Hoisted(cond_name(i as nat))
            &&& s.seen.len() == st.seen.len() ==> s == st
            &&& s.seen.len() > st.seen.len() ==> {
                &&& calls(
                    st.nodes,
                    s.nodes,
                    s.seen.last().1,
                    callee.deep_view(),
                    raw,
                    None,
                    b,
                    ins,
                )
                &&& forall|i: int| 0 <= i < st.seen.len() ==> (#[trigger] st.seen[i]).0 != call_text(
                    e,
                )
            }
        }),
{
    let (callee, raw) = call_of(e)->0;
    let key = call_text(e);
    let (o, s) = hoisted_operand(e, b, ins, st)->Ok_0;
    crate::argo_expr::lemma_seen_at(st.seen, key);
    lemma_not_seen(st.seen, key);
    match seen_at(st.seen, key) {
        Some(i) => {
            assert(s.seen[i as int].0 == key);
        },
        None => {
            law_calls_become_tasks(
                callee.deep_view(),
                raw,
                callee.deep_view().leaf(),
                NodeOptsView::empty(),
                None,
                None,
                st.used,
                st.nodes,
                b,
                ins,
            );
            assert(s.seen[st.seen.len() as int].0 == key);
        },
    }
}

proof fn lemma_not_seen(seen: Seq<(Seq<char>, Seq<char>)>, key: Seq<char>)
    ensures
        seen_at(seen, key) is None ==> forall|i: int|
            0 <= i < seen.len() ==> (#[trigger] seen[i]).0 != key,
    decreases seen.len(),
{
    if seen.len() > 0 {
        let f = seen.drop_last();
        lemma_not_seen(f, key);
        if seen_at(seen, key) is None {
            assert forall|i: int| 0 <= i < seen.len() implies (#[trigger] seen[i]).0 != key by {
                if i < f.len() {
                    assert(f[i] == seen[i]);
                }
            }
        }
    }
}

/// Inside an `if` the name that stands for a call is the task of that call, and
/// every other name is what it was.
pub proof fn law_names_of_calls(
    b: Scope,
    seen: Seq<(Seq<char>, Seq<char>)>,
    i: int,
    x: Seq<char>,
)
    requires
        0 <= i < seen.len(),
        forall|k: nat| #[trigger] cond_name(k) != x,
    ensures
        with_conds(b, seen).dom().contains(cond_name(i as nat)),
        with_conds(b, seen)[cond_name(i as nat)] == seen[i].1,
        with_conds(b, seen).dom().contains(x) <==> b.dom().contains(x),
        b.dom().contains(x) ==> with_conds(b, seen)[x] == b[x],
    decreases seen.len(),
{
    let f = seen.drop_last();
    let n = (seen.len() - 1) as nat;
    assert(cond_name(n) != x);
    if f.len() > 0 {
        law_names_of_calls(b, f, 0, x);
    } else {
        assert(with_conds(b, f) == b);
    }
    if i < f.len() {
        law_names_of_calls(b, f, i, x);
        assert(f[i] == seen[i]);
        lemma_cond_names(i as nat, n);
    }
}

proof fn lemma_cond_names(i: nat, k: nat)
    requires
        i != k,
    ensures
        cond_name(i) != cond_name(k),
{
    if cond_name(i) == cond_name(k) {
        let h = "__athena_cond_"@.len() as int;
        assert(cond_name(i).skip(h) =~= crate::text::dec(i));
        assert(cond_name(k).skip(h) =~= crate::text::dec(k));
        crate::analyze::lemma_dec_value(i);
        crate::analyze::lemma_dec_value(k);
    }
}

/// What an `if` takes from around it: exactly the names in scope that an arm's
/// condition mentions, or that its block mentions and does not bind itself.
pub proof fn law_captures(
    arms: Seq<(Option<Expr>, Seq<Stmt>)>,
    conds: Seq<Option<CondView>>,
    b: Scope,
    ins: Seq<Seq<char>>,
    x: Seq<char>,
)
    requires
        conds.len() == arms.len(),
    ensures
        captures_of(arms, conds, b, ins).contains(x) <==> in_scope(x, b, ins) && exists|j: int|
            0 <= j < arms.len() && uses_name(#[trigger] arms[j], conds[j], x),
{
    let all = mentions(arms, conds, arms.len());
    let f = in_scope_fn(b, ins);
    lemma_mentions(arms, conds, arms.len(), x);
    if all.contains(x) && f(x) {
        all.lemma_filter_contains(f, all.index_of(x));
    }
    let kept = all.filter(f);
    if kept.contains(x) {
        let i = choose|i: int| 0 <= i < kept.len() && kept[i] == x;
        all.lemma_filter_contains_rev(f, x);
        all.lemma_filter_pred(f, i);
    }
}

/// Whether an arm uses a name from around it.
pub open spec fn uses_name(
    arm: (Option<Expr>, Seq<Stmt>),
    cond: Option<CondView>,
    x: Seq<char>,
) -> bool {
    ||| names_in_stmts(arm.1).contains(x) && !binds(arm.1, x)
    ||| cond matches Some(c) && cond_names(c).contains(x)
}

proof fn lemma_mentions(
    arms: Seq<(Option<Expr>, Seq<Stmt>)>,
    conds: Seq<Option<CondView>>,
    n: nat,
    x: Seq<char>,
)
    requires
        n <= arms.len(),
        conds.len() == arms.len(),
    ensures
        mentions(arms, conds, n).no_duplicates(),
        mentions(arms, conds, n).contains(x) <==> exists|j: int|
            0 <= j < n && uses_name(#[trigger] arms[j], conds[j], x),
    decreases n,
{
    if n > 0 {
        lemma_mentions(arms, conds, (n - 1) as nat, x);
        let before = mentions(arms, conds, (n - 1) as nat);
        let body = arms[n - 1].1;
        let names = add_all(Seq::<Seq<char>>::empty(), names_in_stmts(body));
        law_add_all(Seq::<Seq<char>>::empty(), names_in_stmts(body));
        let f = free_fn(body);
        let free = names.filter(f);
        assert(free == free_names(body));
        if names.contains(x) && f(x) {
            names.lemma_filter_contains(f, names.index_of(x));
        }
        if free.contains(x) {
            let i = choose|i: int| 0 <= i < free.len() && free[i] == x;
            names.lemma_filter_contains_rev(f, x);
            names.lemma_filter_pred(f, i);
        }
        assert(free.contains(x) <==> names_in_stmts(body).contains(x) && !binds(body, x));
        law_add_all(before, free);
        if let Some(c) = conds[n - 1] {
            law_add_all(add_all(before, free), cond_names(c));
        }
        if exists|j: int| 0 <= j < n && uses_name(#[trigger] arms[j], conds[j], x) {
            let j = choose|j: int| 0 <= j < n && uses_name(#[trigger] arms[j], conds[j], x);
            if j < n - 1 {
                assert(before.contains(x));
            }
        }
        if uses_name(arms[n - 1], conds[n - 1], x) {
            assert(mentions(arms, conds, n).contains(x));
        }
    }
}

/// An `if` whose value is used needs an `else`.
pub proof fn law_a_value_needs_an_else(
    i: IfExpr,
    bind: Option<Seq<char>>,
    ins: Seq<Seq<char>>,
    me: SelfName,
    st: Body,
)
    requires
        arms_of(i).last().0 is Some,
    ensures
        synth_of(i, bind, true, ins, me, st) is Err,
{
    lemma_synth_step(i, bind, true, ins, me, st);
    reveal(if_head);
}

/// The value of a workflow is the result of a task that neither walks a list nor may
/// fail; a workflow with a value has one.
pub proof fn law_the_value_of_a_workflow(f: FnDecl, argo: Seq<char>, i: int)
    requires
        analyzed(f, argo) is Ok,
        f.output is Some,
        0 <= i < analyzed(f, argo)->Ok_0.nodes.len(),
    ensures
        ({
            let a = analyzed(f, argo)->Ok_0;
            &&& a.output_task is Some
            &&& Some(a.nodes[i].task) == a.output_task ==> a.nodes[i].fan is None
                && a.nodes[i].continue_on is None
        }),
{
    let ins = signature_of(args_of(f.params@)).inputs;
    let me = SelfName { argo, rust: f.name@ };
    let d = stmts_done(f.body@, ins, true, me, Seq::empty(), 0)->Ok_0;
    let a = analyzed(f, argo)->Ok_0;
    assert(a.nodes[i].task == d.nodes[i].task && a.nodes[i].fan == d.nodes[i].fan
        && a.nodes[i].continue_on == d.nodes[i].continue_on);
    if Some(a.nodes[i].task) == a.output_task {
        lemma_fan_list(d.nodes, d.nodes[i].task);
        assert(crate::body::bad_output(d.nodes, d.out) is None);
    }
}

/// The workflow of an arm has the name of the arm and hands on the value of its
/// block, where the `if` has one; every template that its tasks call is among its
/// callees.
pub proof fn law_arms_hand_on_their_value(
    st: Arms,
    j: nat,
    conds: Seq<Option<CondView>>,
    caps: Seq<Seq<char>>,
    value: bool,
    name: SelfName,
    done: Done,
    i: int,
)
    requires
        with_arm(st, j, conds, caps, value, name, done) is Ok,
    ensures
        ({
            let a = with_arm(st, j, conds, caps, value, name, done)->Ok_0;
            let s = a.synth.last();
            &&& a.synth.len() == done.synth.len() + 1
            &&& s.argo_name == name.argo
            &&& a.wrap.last().callee == PathView::of(s.ident)
            &&& if value {
                done.out matches Some(t) && s.output == SynthOutView::Terminal(t)
            } else {
                s.output is Nothing
            }
            &&& 0 <= i < done.nodes.len() ==> has_text(s.callees, done.nodes[i].callee.text)
        }),
{
    reveal(with_arm);
    let s = with_arm(st, j, conds, caps, value, name, done)->Ok_0.synth.last();
    law_callees_distinct_and_complete(s.nodes, Seq::empty());
    if 0 <= i < done.nodes.len() {
        assert(s.nodes[i].callee == done.nodes[i].callee);
        lemma_callee_is_named(s.nodes, i);
    }
}

proof fn lemma_callee_is_named(nodes: Seq<NodeView>, i: int)
    requires
        0 <= i < nodes.len(),
    ensures
        has_text(distinct_paths(nodes, Seq::empty()), nodes[i].callee.text),
{
    law_callees_distinct_and_complete(nodes, Seq::empty());
    lemma_path_of_node(nodes, i);
    let ps = paths_in(nodes);
    let k = choose|k: int| 0 <= k < ps.len() && ps[k] == nodes[i].callee;
    assert(has_text(distinct_paths(nodes, Seq::empty()), ps[k].text));
}

proof fn lemma_path_of_node(nodes: Seq<NodeView>, i: int)
    requires
        0 <= i < nodes.len(),
    ensures
        paths_in(nodes).contains(nodes[i].callee),
    decreases nodes.len(),
{
    let f = nodes.drop_last();
    let ps = paths_in(nodes);
    if i < f.len() {
        lemma_path_of_node(f, i);
        assert(f[i] == nodes[i]);
        let k = choose|k: int| 0 <= k < paths_in(f).len() && paths_in(f)[k] == nodes[i].callee;
        assert(ps[k] == nodes[i].callee);
    } else {
        assert(ps[paths_in(f).len() as int] == nodes[i].callee);
    }
}

/// The workflow of an `if` is called after the body that it stands in and its
/// number, and the workflow of an arm after that and the arm's number; no two numbers
/// give one name.
pub proof fn law_names_of_branches(me: SelfName, k: nat, l: nat, j: nat, m: nat)
    ensures
        has_prefix(wrap_name(me, k).argo, me.argo),
        has_prefix(arm_name(me, k, j).argo, wrap_name(me, k).argo),
        k != l ==> wrap_name(me, k).argo != wrap_name(me, l).argo && wrap_name(me, k).rust
            != wrap_name(me, l).rust,
        j != m ==> arm_name(me, k, j).argo != arm_name(me, k, m).argo && arm_name(me, k, j).rust
            != arm_name(me, k, m).rust,
        arm_name(me, k, j).argo != wrap_name(me, k).argo,
{
    let w = wrap_name(me, k);
    let a = arm_name(me, k, j);
    assert(w.argo.subrange(0, me.argo.len() as int) =~= me.argo);
    assert(a.argo.subrange(0, w.argo.len() as int) =~= w.argo);
    crate::analyze::lemma_dec_value(j);
    lemma_numbered_texts(me.argo + "-if"@, k, l);
    lemma_numbered_texts(me.rust + "_if"@, k, l);
    lemma_numbered_texts(w.argo + "-arm"@, j, m);
    lemma_numbered_texts(w.rust + "_arm"@, j, m);
    assert(a.argo.len() > w.argo.len());
}

proof fn lemma_numbered_texts(h: Seq<char>, k: nat, l: nat)
    ensures
        k != l ==> h + crate::text::dec(k) != h + crate::text::dec(l),
{
    crate::analyze::lemma_dec_value(k);
    crate::analyze::lemma_dec_value(l);
    if h + crate::text::dec(k) == h + crate::text::dec(l) {
        assert((h + crate::text::dec(k)).skip(h.len() as int) =~= crate::text::dec(k));
        assert((h + crate::text::dec(l)).skip(h.len() as int) =~= crate::text::dec(l));
    }
}

/// A field of a fan-out's item is one step further than what it is a field of.
pub proof fn law_fields_of_items(path: Seq<Seq<char>>, x: Seq<char>, steps: bool)
    ensures
        ({
            let whole = value_of((ArgView::Item { path }), steps);
            value_of((ArgView::Item { path: path.push(x) }), steps) == whole.take(whole.len() - 2)
                + "."@ + x + "}}"@
        }),
{
    reveal_strlit("}}");
    let whole = value_of((ArgView::Item { path }), steps);
    assert(path.push(x).drop_last() =~= path);
    assert(whole.take(whole.len() - 2) =~= crate::lower::item_text(path));
}

} // verus!
