//! What reaches the wire of a workflow: every task with its arguments, what a
//! workflow takes and hands on, and what its attributes ask for.

use crate::api::{ArtifactView, DagTaskView, MutexView, ParameterView, TemplateView};
use crate::ast::FnDecl;
use crate::attrs::{InjectView, TolerationText};
use crate::container_laws::{
    law_pairs_become_a_map, law_retries_are_as_asked, lemma_mutexes_written, lemma_opt_written,
    lemma_pairs_written, lemma_tolerations_written, mutexes_as_written, opt_as_written,
    pairs_as_written, pairs_say, retries_as_asked, tolerations_as_written,
};
use crate::dataflow::{filled, lemma_name_text, result_tag};
use crate::folds::{lemma_map_res_len, map_res};
use crate::lower::{
    artifact_value_of, artifacts_upto, deps_upto, params_upto, task_of, value_of, IoKind,
    TemplateInfoView,
};
use crate::names::argo_name;
use crate::node::{ArgView, FanSrcView, JsonSrcView, NodeView, SynthOutView, SynthWfView};
use crate::signature::is_artifact;
use crate::sorted::{law_once_by, law_text_order, text_lt};
use crate::text::has_prefix;
use crate::workflow::{
    known_as, node_wire_fn, select_text, synth_template_of, workflow_decl_of, workflow_outputs,
    workflow_template_of, Known, WorkflowArgs, WorkflowDeclView,
};
use vstd::prelude::*;

verus! {

/// Whether input `i` of a template is passed through the artifact store.
pub open spec fn by_artifact(info: TemplateInfoView, i: int) -> bool {
    i < info.input_kinds.len() && info.input_kinds[i] == IoKind::Artifact
}

/// Whether `p` passes the text `v` inline under the name `n`, and nothing else.
pub open spec fn passes(p: ParameterView, n: Seq<char>, v: Seq<char>) -> bool {
    p.name == n && p.value == Some(v) && p.default_value is None && p.value_from is None
}

/// Whether `a` hands the artifact that `from` names on under the name `n`, and
/// names no place of its own.
pub open spec fn hands_on(a: ArtifactView, n: Seq<char>, from: Seq<char>) -> bool {
    a.name == n && a.from == from && a.s3 is None && a.path.len() == 0
}

proof fn lemma_passed(
    args: Seq<ArgView>,
    n: nat,
    info: TemplateInfoView,
    steps: bool,
    i: int,
)
    requires
        0 <= i < n <= args.len(),
        n <= info.inputs.len(),
    ensures
        by_artifact(info, i) ==> exists|k: int|
            0 <= k < artifacts_upto(args, n, info, steps).len() && hands_on(
                #[trigger] artifacts_upto(args, n, info, steps)[k],
                info.inputs[i],
                artifact_value_of(args[i], steps),
            ),
        !by_artifact(info, i) ==> exists|k: int|
            0 <= k < params_upto(args, n, info, steps).len() && passes(
                #[trigger] params_upto(args, n, info, steps)[k],
                info.inputs[i],
                value_of(args[i], steps),
            ),
    decreases n,
{
    let ps = params_upto(args, n, info, steps);
    let xs = artifacts_upto(args, n, info, steps);
    let p0 = params_upto(args, (n - 1) as nat, info, steps);
    let x0 = artifacts_upto(args, (n - 1) as nat, info, steps);
    if i < n - 1 {
        lemma_passed(args, (n - 1) as nat, info, steps, i);
        if by_artifact(info, i) {
            let k = choose|k: int|
                0 <= k < x0.len() && hands_on(
                    #[trigger] x0[k],
                    info.inputs[i],
                    artifact_value_of(args[i], steps),
                );
            assert(xs[k] == x0[k]);
        } else {
            let k = choose|k: int|
                0 <= k < p0.len() && passes(
                    #[trigger] p0[k],
                    info.inputs[i],
                    value_of(args[i], steps),
                );
            assert(ps[k] == p0[k]);
        }
    } else {
        if by_artifact(info, i) {
            assert(hands_on(xs[xs.len() - 1], info.inputs[i], artifact_value_of(args[i], steps)));
        } else {
            assert(passes(ps[ps.len() - 1], info.inputs[i], value_of(args[i], steps)));
        }
    }
}

proof fn lemma_passed_len(args: Seq<ArgView>, n: nat, info: TemplateInfoView, steps: bool)
    ensures
        params_upto(args, n, info, steps).len() + artifacts_upto(args, n, info, steps).len() == n,
    decreases n,
{
    if n > 0 {
        lemma_passed_len(args, (n - 1) as nat, info, steps);
    }
}

proof fn lemma_inline(
    args: Seq<ArgView>,
    n: nat,
    info: TemplateInfoView,
    steps: bool,
)
    requires
        n <= args.len(),
        n <= info.inputs.len(),
        forall|i: int| 0 <= i < n ==> !#[trigger] by_artifact(info, i),
    ensures
        params_upto(args, n, info, steps).len() == n,
        forall|i: int|
            0 <= i < n ==> passes(
                #[trigger] params_upto(args, n, info, steps)[i],
                info.inputs[i],
                value_of(args[i], steps),
            ),
    decreases n,
{
    if n > 0 {
        assert(!by_artifact(info, n - 1));
        lemma_inline(args, (n - 1) as nat, info, steps);
        let p0 = params_upto(args, (n - 1) as nat, info, steps);
        let ps = params_upto(args, n, info, steps);
        assert(ps.len() == n && ps.drop_last() =~= p0);
        assert forall|i: int| 0 <= i < n implies passes(
            #[trigger] ps[i],
            info.inputs[i],
            value_of(args[i], steps),
        ) by {
            if i < n - 1 {
                assert(ps[i] == p0[i]);
            }
        }
    }
}

/// A task on the wire is the task of the graph: its name, the template that it
/// runs, its gate, and whether the workflow goes on after it. Each argument is
/// passed exactly once, under the name of the input at its place, inline or through
/// the artifact store as the input asks.
pub proof fn law_tasks_are_wired(
    n: NodeView,
    callee: TemplateInfoView,
    hooks: Seq<TemplateInfoView>,
    steps: bool,
    i: int,
)
    requires
        n.args.len() <= callee.inputs.len(),
    ensures
        ({
            let t = task_of(n, callee, hooks, steps);
            &&& t.name == n.task
            &&& t.template.len() == 0
            &&& t.template_ref matches Some(r) && r.name == callee.argo_name && r.template
                == callee.argo_name && !r.cluster_scope
            &&& match n.when {
                Some(w) => t.when == w,
                None => t.when.len() == 0,
            }
            &&& match n.continue_on {
                Some((error, failed)) => t.continue_on matches Some(c) && c.error == error
                    && c.failed == failed,
                None => t.continue_on is None,
            }
            &&& t.arguments matches Some(a) && {
                &&& a.parameters.len() + a.artifacts.len() == n.args.len()
                &&& 0 <= i < n.args.len() && by_artifact(callee, i) ==> exists|k: int|
                    0 <= k < a.artifacts.len() && hands_on(
                        #[trigger] a.artifacts[k],
                        callee.inputs[i],
                        artifact_value_of(n.args[i], steps),
                    )
                &&& 0 <= i < n.args.len() && !by_artifact(callee, i) ==> exists|k: int|
                    0 <= k < a.parameters.len() && passes(
                        #[trigger] a.parameters[k],
                        callee.inputs[i],
                        value_of(n.args[i], steps),
                    )
                &&& callee.input_kinds.len() == 0 && 0 <= i < n.args.len() ==> passes(
                    a.parameters[i],
                    callee.inputs[i],
                    value_of(n.args[i], steps),
                )
            }
        }),
{
    let t = task_of(n, callee, hooks, steps);
    lemma_passed_len(n.args, n.args.len(), callee, steps);
    if 0 <= i < n.args.len() {
        lemma_passed(n.args, n.args.len(), callee, steps, i);
        if callee.input_kinds.len() == 0 {
            lemma_inline(n.args, n.args.len(), callee, steps);
            assert(passes(
                params_upto(n.args, n.args.len(), callee, steps)[i],
                callee.inputs[i],
                value_of(n.args[i], steps),
            ));
        }
    }
    let a = t.arguments->0;
    assert(a.parameters == params_upto(n.args, n.args.len(), callee, steps));
    assert(a.artifacts == artifacts_upto(n.args, n.args.len(), callee, steps));
}

/// What an argument takes from a task or from an input when it goes through the
/// artifact store: the artifact that the task returned, or that the workflow was
/// given.
pub proof fn law_artifacts_come_from_where_they_are(
    a: ArgView,
    steps: bool,
    tag: spec_fn(Seq<char>) -> Seq<char>,
)
    ensures
        a matches ArgView::Ref(t) ==> filled(artifact_value_of(a, steps), tag) == tag(
            (if steps {
                "steps."@
            } else {
                "tasks."@
            }) + t + ".outputs.artifacts.return"@,
        ),
        a matches ArgView::Input(n) ==> filled(artifact_value_of(a, steps), tag) == tag(
            "inputs.artifacts."@ + n,
        ),
{
    let open = seq!['{', '{'];
    let close = seq!['}', '}'];
    assert("{{"@ =~= open) by {
        reveal_strlit("{{");
    }
    assert("}}"@ =~= close) by {
        reveal_strlit("}}");
    }
    match a {
        ArgView::Ref(t) => {
            let x = (if steps {
                "steps."@
            } else {
                "tasks."@
            }) + t + ".outputs.artifacts.return"@;
            assert(".outputs.artifacts.return}}"@ =~= ".outputs.artifacts.return"@ + close) by {
                reveal_strlit(".outputs.artifacts.return}}");
                reveal_strlit(".outputs.artifacts.return");
            }
            assert("steps."@ =~= "steps"@ + "."@ && "tasks."@ =~= "tasks"@ + "."@) by {
                reveal_strlit("steps.");
                reveal_strlit("steps");
                reveal_strlit("tasks.");
                reveal_strlit("tasks");
                reveal_strlit(".");
            }
            reveal_strlit("steps.");
            reveal_strlit("tasks.");
            assert(artifact_value_of(a, steps) =~= open + x + close);
            crate::dataflow::lemma_filled(x, tag);
        },
        ArgView::Input(n) => {
            let x = "inputs.artifacts."@ + n;
            assert("{{inputs.artifacts."@ =~= open + "inputs.artifacts."@) by {
                reveal_strlit("{{inputs.artifacts.");
                reveal_strlit("inputs.artifacts.");
            }
            reveal_strlit("inputs.artifacts.");
            assert(artifact_value_of(a, steps) =~= open + x + close);
            crate::dataflow::lemma_filled(x, tag);
        },
        _ => {},
    }
}

/// Whether an argument takes something from the task `t`.
pub open spec fn takes_from(a: ArgView, t: Seq<char>) -> bool {
    match a {
        ArgView::Ref(x) => x == t,
        ArgView::Json { src: JsonSrcView::Task(x), path: _ } => x == t,
        ArgView::FanAgg(x) => x == t,
        ArgView::RefFallible(x) => x == t,
        ArgView::FanAggFallible { task, list: _ } => task == t,
        _ => false,
    }
}

proof fn lemma_waits_for(n: NodeView, k: nat, t: Seq<char>)
    requires
        k <= n.args.len(),
    ensures
        deps_upto(n.fan, n.args, k, false).contains(t) <==> n.fan == Some(FanSrcView::Task(t)) || (
        exists|j: int| 0 <= j < k && takes_from(#[trigger] n.args[j], t)),
        deps_upto(n.fan, n.args, k, true).len() == 0,
    decreases k,
{
    let d = deps_upto(n.fan, n.args, k, false);
    if k > 0 {
        let f = deps_upto(n.fan, n.args, (k - 1) as nat, false);
        lemma_waits_for(n, (k - 1) as nat, t);
        if takes_from(n.args[k - 1], t) {
            assert(d[d.len() - 1] == t);
        }
        if f.contains(t) {
            let i = choose|i: int| 0 <= i < f.len() && f[i] == t;
            assert(d[i] == t);
        }
        if d.contains(t) {
            let i = choose|i: int| 0 <= i < d.len() && d[i] == t;
            if i < f.len() {
                assert(f[i] == t);
            } else {
                assert(takes_from(n.args[k - 1], t));
            }
        }
    } else {
        if n.fan == Some(FanSrcView::Task(t)) {
            assert(d[0] == t);
        }
    }
}

/// A task of a graph waits for exactly the tasks that it takes something from: as
/// an argument, or as the list that it walks. In a sequence of steps it names none,
/// since the order says it.
pub proof fn law_tasks_wait_for_what_they_take(
    n: NodeView,
    callee: TemplateInfoView,
    hooks: Seq<TemplateInfoView>,
    t: Seq<char>,
)
    ensures
        task_of(n, callee, hooks, false).dependencies.contains(t) <==> n.fan == Some(
            FanSrcView::Task(t),
        ) || (exists|j: int| 0 <= j < n.args.len() && takes_from(#[trigger] n.args[j], t)),
        task_of(n, callee, hooks, true).dependencies.len() == 0,
{
    lemma_waits_for(n, n.args.len(), t);
    law_text_order();
    law_once_by(deps_upto(n.fan, n.args, n.args.len(), false), text_lt());
    let e = deps_upto(n.fan, n.args, n.args.len(), true);
    law_once_by(e, text_lt());
    let r = task_of(n, callee, hooks, true).dependencies;
    if r.len() > 0 {
        assert(r.contains(r[0]));
        assert(e.contains(r[0]));
    }
}

/// What a workflow returns is the result of its last task, inline or through the
/// artifact store; a workflow without a value returns nothing.
pub proof fn law_results_are_handed_on(
    task: Option<Seq<char>>,
    kind: IoKind,
    steps: bool,
    tag: spec_fn(Seq<char>) -> Seq<char>,
)
    ensures
        match task {
            None => workflow_outputs(task, kind, steps) is None,
            Some(t) => workflow_outputs(task, kind, steps) matches Some(o) && if kind
                == IoKind::Parameter {
                &&& o.artifacts.len() == 0
                &&& o.parameters.len() == 1
                &&& o.parameters[0].name == "return"@
                &&& o.parameters[0].value is None
                &&& o.parameters[0].value_from matches Some(v) && filled(v.parameter, tag) == tag(
                    result_tag(steps, t),
                )
            } else {
                &&& o.parameters.len() == 0
                &&& o.artifacts.len() == 1
                &&& o.artifacts[0].name == "return"@
                &&& filled(o.artifacts[0].from, tag) == tag(
                    (if steps {
                        "steps."@
                    } else {
                        "tasks."@
                    }) + t + ".outputs.artifacts.return"@,
                )
            },
        },
{
    if let Some(t) = task {
        lemma_name_text(ArgView::Ref(t), steps, tag);
        law_artifacts_come_from_where_they_are(ArgView::Ref(t), steps, tag);
    }
}

/// Whether `t` is the task that the node `n` becomes.
pub open spec fn is_task(t: DagTaskView, n: NodeView, reg: Known, steps: bool) -> bool {
    &&& known_as(reg, n.callee.text) matches Some(info) && (exists|hooks: Seq<TemplateInfoView>|
        t == #[trigger] task_of(n, info, hooks, steps) && hooks.len() == n.hooks.len())
}

/// Whether `names` are, in order, the inputs that are passed in a given way.
pub open spec fn names_inputs(
    names: Seq<Seq<char>>,
    inputs: Seq<Seq<char>>,
    kinds: Seq<IoKind>,
    kind: IoKind,
) -> bool {
    &&& forall|x: Seq<char>| #[trigger]
        names.contains(x) <==> exists|i: int|
            0 <= i < inputs.len() && #[trigger] inputs[i] == x && kinds[i] == kind
}

proof fn lemma_names_inputs(
    s: crate::signature::SignatureView,
    n: nat,
    kind: IoKind,
    x: Seq<char>,
)
    requires
        n <= s.inputs.len(),
        s.input_kinds.len() == s.inputs.len(),
    ensures
        crate::workflow::inputs_of_kind(s, n, kind).contains(x) <==> exists|i: int|
            0 <= i < n && #[trigger] s.inputs[i] == x && s.input_kinds[i] == kind,
    decreases n,
{
    let v = crate::workflow::inputs_of_kind(s, n, kind);
    if n > 0 {
        let f = crate::workflow::inputs_of_kind(s, (n - 1) as nat, kind);
        lemma_names_inputs(s, (n - 1) as nat, kind, x);
        if f.contains(x) {
            let i = choose|i: int| 0 <= i < f.len() && f[i] == x;
            assert(v[i] == x);
        }
        if v.contains(x) {
            let i = choose|i: int| 0 <= i < v.len() && v[i] == x;
            if i < f.len() {
                assert(f[i] == x);
            } else {
                assert(s.inputs[n - 1] == x);
            }
        }
        if s.inputs[n - 1] == x && s.input_kinds[n - 1] == kind {
            assert(v[v.len() - 1] == x);
        }
    }
}

/// The template of a workflow: it has the workflow's name and one task for each
/// task of the graph, in order, in a graph or one after the other as the attribute
/// asks. Its inputs are the parameters of the function. What its attributes ask for
/// is in it.
pub proof fn law_workflow_template(d: WorkflowDeclView, reg: Known, i: int)
    requires
        workflow_template_of(d, reg) is Ok,
        d.signature.input_kinds.len() == d.signature.inputs.len(),
    ensures
        ({
            let t = workflow_template_of(d, reg)->Ok_0;
            let ins = d.signature.inputs;
            let kinds = d.signature.input_kinds;
            &&& t.name == d.argo_name
            &&& t.container is None && t.script is None && !t.daemon
            &&& if d.steps {
                &&& t.dag is None
                &&& t.steps.len() == d.nodes.len()
                &&& 0 <= i < d.nodes.len() ==> t.steps[i].len() == 1 && is_task(
                    t.steps[i][0],
                    d.nodes[i],
                    reg,
                    true,
                )
            } else {
                &&& t.steps.len() == 0
                &&& t.dag matches Some(g) && g.tasks.len() == d.nodes.len() && (0 <= i
                    < d.nodes.len() ==> is_task(g.tasks[i], d.nodes[i], reg, false))
            }
            &&& t.inputs is None <==> ins.len() == 0
            &&& t.inputs matches Some(g) ==> {
                &&& names_inputs(g.parameters.map_values(|p: ParameterView| p.name), ins, kinds, IoKind::Parameter)
                &&& names_inputs(g.artifacts.map_values(|p: ArtifactView| p.name), ins, kinds, IoKind::Artifact)
            }
            &&& t.outputs is Some <==> d.output_task is Some
            &&& t.retry_strategy == d.limits.retry
            &&& t.parallelism == d.boundary.parallelism
            &&& t.affinity is Some <==> d.boundary.affinity is Some
        }),
{
    let t = workflow_template_of(d, reg)->Ok_0;
    let tasks = map_res(d.nodes, node_wire_fn(reg, d.steps))->Ok_0;
    lemma_map_res_len(d.nodes, node_wire_fn(reg, d.steps));
    if 0 <= i < d.nodes.len() {
        let n = d.nodes[i];
        assert(node_wire_fn(reg, d.steps)(n) == Ok::<DagTaskView, Seq<char>>(tasks[i]));
        lemma_map_res_len(n.hooks, crate::workflow::hook_info_fn(reg));
        let infos = map_res(n.hooks, crate::workflow::hook_info_fn(reg))->Ok_0;
        assert(tasks[i] == task_of(n, known_as(reg, n.callee.text)->0, infos, d.steps));
    }
    if let Some(g) = t.inputs {
        let s = d.signature;
        let p = crate::workflow::inputs_of_kind(s, s.inputs.len(), IoKind::Parameter);
        let a = crate::workflow::inputs_of_kind(s, s.inputs.len(), IoKind::Artifact);
        assert(g.parameters.map_values(|p: ParameterView| p.name) =~= p);
        assert(g.artifacts.map_values(|p: ArtifactView| p.name) =~= a);
        assert forall|x: Seq<char>| #[trigger] p.contains(x) <==> exists|i: int|
            0 <= i < s.inputs.len() && #[trigger] s.inputs[i] == x && s.input_kinds[i]
                == IoKind::Parameter by {
            lemma_names_inputs(s, s.inputs.len(), IoKind::Parameter, x);
        }
        assert forall|x: Seq<char>| #[trigger] a.contains(x) <==> exists|i: int|
            0 <= i < s.inputs.len() && #[trigger] s.inputs[i] == x && s.input_kinds[i]
                == IoKind::Artifact by {
            lemma_names_inputs(s, s.inputs.len(), IoKind::Artifact, x);
        }
    }
}

/// A workflow whose callees and hooks are known, each hook with no more arguments
/// than its template has inputs, and without a boundary affinity, is built.
pub proof fn law_workflows_are_built(d: WorkflowDeclView, reg: Known)
    requires
        d.boundary.affinity is None,
        forall|i: int|
            0 <= i < d.nodes.len() ==> known_as(reg, (#[trigger] d.nodes[i]).callee.text) is Some
                && d.nodes[i].hooks.len() == 0,
    ensures
        workflow_template_of(d, reg) is Ok,
{
    lemma_all_wired(d.nodes, reg, d.steps);
}

proof fn lemma_all_wired(nodes: Seq<NodeView>, reg: Known, steps: bool)
    requires
        forall|i: int|
            0 <= i < nodes.len() ==> known_as(reg, (#[trigger] nodes[i]).callee.text) is Some
                && nodes[i].hooks.len() == 0,
    ensures
        map_res(nodes, node_wire_fn(reg, steps)) is Ok,
    decreases nodes.len(),
{
    if nodes.len() > 0 {
        let f = nodes.drop_last();
        assert forall|i: int| 0 <= i < f.len() implies known_as(
            reg,
            (#[trigger] f[i]).callee.text,
        ) is Some && f[i].hooks.len() == 0 by {
            assert(f[i] == nodes[i]);
        }
        lemma_all_wired(f, reg, steps);
        assert(nodes.last() == nodes[nodes.len() - 1]);
        assert(map_res(nodes.last().hooks, crate::workflow::hook_info_fn(reg)) is Ok);
    }
}

/// The template of an `if`, or of one of its arms: it has the tasks of its graph,
/// and takes every captured name.
pub proof fn law_branch_template(s: SynthWfView, reg: Known, i: int)
    requires
        synth_template_of(s, reg) is Ok,
    ensures
        ({
            let t = synth_template_of(s, reg)->Ok_0;
            &&& t.name == s.argo_name
            &&& t.dag matches Some(g) && g.tasks.len() == s.nodes.len() && (0 <= i < s.nodes.len()
                ==> is_task(g.tasks[i], s.nodes[i], reg, false))
            &&& t.inputs is None <==> s.inputs.len() == 0
            &&& t.inputs matches Some(g) ==> g.artifacts.len() == 0 && g.parameters.len()
                == s.inputs.len() && (0 <= i < s.inputs.len() ==> g.parameters[i].name
                == s.inputs[i] && g.parameters[i].value is None)
            &&& match s.output {
                SynthOutView::Nothing => t.outputs is None,
                SynthOutView::Terminal(x) => t.outputs matches Some(o) && o.parameters.len() == 1
                    && o.parameters[0].name == "return"@ && (o.parameters[0].value_from matches Some(
                    v,
                ) && v.parameter == "{{tasks."@ + x + ".outputs.parameters.return}}"@),
                SynthOutView::Select(arms) => t.outputs matches Some(o) && o.parameters.len() == 1
                    && o.parameters[0].name == "return"@ && (o.parameters[0].value_from matches Some(
                    v,
                ) && v.parameter.len() == 0 && v.expression == select_text(arms)),
            }
        }),
{
    lemma_map_res_len(s.nodes, node_wire_fn(reg, false));
    let tasks = map_res(s.nodes, node_wire_fn(reg, false))->Ok_0;
    if 0 <= i < s.nodes.len() {
        let n = s.nodes[i];
        assert(node_wire_fn(reg, false)(n) == Ok::<DagTaskView, Seq<char>>(tasks[i]));
        lemma_map_res_len(n.hooks, crate::workflow::hook_info_fn(reg));
        let infos = map_res(n.hooks, crate::workflow::hook_info_fn(reg))->Ok_0;
        assert(tasks[i] == task_of(n, known_as(reg, n.callee.text)->0, infos, false));
    }
}

/// The expression that picks an arm's result is asked arm by arm: whether the arm
/// succeeded, then its result, else what the arms behind it give. The last arm is
/// taken unasked.
pub proof fn law_selection(arms: Seq<Seq<char>>)
    requires
        arms.len() > 0,
    ensures
        arms.len() == 1 ==> select_text(arms) == "tasks['"@ + arms[0]
            + "'].outputs.parameters.return"@,
        arms.len() > 1 ==> select_text(arms) == ("tasks['"@ + arms[0]
            + "'].status == 'Succeeded' ? "@) + ("tasks['"@ + arms[0]
            + "'].outputs.parameters.return"@) + " : "@ + select_text(arms.skip(1)),
{
    if arms.len() > 1 {
        assert(arms.skip(1) =~= arms.drop_first());
        assert("'].status == 'Succeeded' ? tasks['"@ =~= "'].status == 'Succeeded' ? "@
            + "tasks['"@) by {
            reveal_strlit("'].status == 'Succeeded' ? tasks['");
            reveal_strlit("'].status == 'Succeeded' ? ");
            reveal_strlit("tasks['");
        }
        assert("'].outputs.parameters.return : "@ =~= "'].outputs.parameters.return"@ + " : "@) by {
            reveal_strlit("'].outputs.parameters.return : ");
            reveal_strlit("'].outputs.parameters.return");
            reveal_strlit(" : ");
        }
        assert(select_text(arms) =~= ("tasks['"@ + arms[0] + "'].status == 'Succeeded' ? "@) + (
        "tasks['"@ + arms[0] + "'].outputs.parameters.return"@) + " : "@ + select_text(
            arms.skip(1),
        ));
    }
}

/// A template is known by the path that it is registered under first.
pub proof fn law_registered_templates_are_found(reg: Known, text: Seq<char>)
    ensures
        match known_as(reg, text) {
            Some(info) => exists|i: int|
                0 <= i < reg.len() && #[trigger] reg[i] == (text, info) && forall|j: int|
                    0 <= j < i ==> (#[trigger] reg[j]).0 != text,
            None => forall|i: int| 0 <= i < reg.len() ==> (#[trigger] reg[i]).0 != text,
        },
    decreases reg.len(),
{
    if reg.len() > 0 {
        let r = reg.drop_first();
        law_registered_templates_are_found(r, text);
        if reg[0].0 == text {
            assert(reg[0] == (text, known_as(reg, text)->0));
        } else {
            match known_as(reg, text) {
                Some(info) => {
                    let i = choose|i: int|
                        0 <= i < r.len() && #[trigger] r[i] == (text, info) && forall|j: int|
                            0 <= j < i ==> (#[trigger] r[j]).0 != text;
                    assert(reg[i + 1] == (text, info));
                    assert forall|j: int| 0 <= j < i + 1 implies (#[trigger] reg[j]).0 != text by {
                        if j > 0 {
                            assert(r[j - 1] == reg[j]);
                        }
                    }
                },
                None => {
                    assert forall|i: int| 0 <= i < reg.len() implies (#[trigger] reg[i]).0
                        != text by {
                        if i > 0 {
                            assert(r[i - 1] == reg[i]);
                        }
                    }
                },
            }
        }
    }
}

/// Where the text of an argument looks: at the outputs of the task that it takes
/// from, in the scope of the graph or of the steps.
pub proof fn law_arguments_look_at_their_task(t: Seq<char>, list: FanSrcView, steps: bool)
    ensures
        ({
            let at = (if steps {
                "steps['"@
            } else {
                "tasks['"@
            }) + t + "']"@;
            &&& has_prefix(value_of(ArgView::FanAgg(t), steps), "{{=let s = "@ + at)
            &&& has_prefix(
                value_of((ArgView::FanAggFallible { task: t, list }), steps),
                "{{=let s = "@ + at,
            )
            &&& has_prefix(
                value_of(ArgView::RefFallible(t), steps),
                "{{="@ + at + ".status == \"Succeeded\" ? "@,
            )
        }),
{
    reveal_strlit("steps['");
    reveal_strlit("tasks['");
    reveal_strlit("steps");
    reveal_strlit("tasks");
    reveal_strlit("['");
    reveal_strlit("']");
    reveal_strlit("{{=let s = ");
    reveal_strlit("{{=");
    reveal_strlit(".status == \"Succeeded\" ? ");
    reveal_strlit("'].outputs?.parameters?.['return'] ?? \"[]\"; toJSON(map(fromJSON(s == \"\" || s == \"null\" ? \"[]\" : s), { type(#) == \"string\" ? fromJSON(#) : # }))}}");
    reveal_strlit("'].outputs?.parameters?.['return'] ?? \"[]\"; let l = ");
    reveal_strlit("'].status == \"Succeeded\" ? toJSON({\"Ok\": fromJSON(");
    let at = (if steps {
        "steps['"@
    } else {
        "tasks['"@
    }) + t + "']"@;
    let a = value_of(ArgView::FanAgg(t), steps);
    let b = value_of((ArgView::FanAggFallible { task: t, list }), steps);
    let c = value_of(ArgView::RefFallible(t), steps);
    let p = "{{=let s = "@ + at;
    let q = "{{="@ + at + ".status == \"Succeeded\" ? "@;
    assert(a.subrange(0, p.len() as int) =~= p);
    assert(b.subrange(0, p.len() as int) =~= p);
    assert(c.subrange(0, q.len() as int) =~= q);
}

/// What the attribute of a workflow says is in its template: in a graph or in steps,
/// where its pods may run, what it holds, how often it is tried, and how much of it
/// runs at once.
pub proof fn law_workflow_attributes(
    f: FnDecl,
    a: WorkflowArgs,
    krate: Seq<char>,
    reg: Known,
    d: WorkflowDeclView,
    t: TemplateView,
    i: int,
)
    requires
        workflow_decl_of(f, a, krate) == Ok::<WorkflowDeclView, Seq<char>>(d),
        workflow_template_of(d, reg) == Ok::<TemplateView, Seq<char>>(t),
    ensures
        t.name == argo_name(a.name.deep_view(), krate, f.name@),
        a.steps <==> t.dag is None,
        !f.is_async,
        pairs_say(a.boundary_node_selector.deep_view(), t.node_selector),
        match t.metadata {
            None => a.annotations@.len() == 0,
            Some(m) => pairs_say(a.annotations.deep_view(), m.annotations),
        },
        t.affinity == a.boundary_affinity.deep_view(),
        t.parallelism == a.parallelism,
        a.parallelism matches Some(n) ==> n > 0,
        t.tolerations.len() == a.boundary_tolerations@.len(),
        0 <= i < a.boundary_tolerations@.len() ==> {
            let x = a.boundary_tolerations.deep_view()[i];
            let y = t.tolerations[i];
            y.key == x.0 && y.operator == x.1 && y.value == x.2 && y.effect == x.3
        },
        match (a.retry, t.retry_strategy) {
            (None, None) => true,
            (Some(v), Some(r)) => retries_as_asked(r, v@),
            _ => false,
        },
        match t.synchronization {
            None => a.mutexes@.len() == 0,
            Some(s) => mutexes_as_written(
                a.mutexes@,
                "inputs.parameters"@,
                s.mutexes.map_values(|m: MutexView| (m.name, m.namespace)),
            ),
        },
        pairs_as_written(
            a.node_selector_if_root@,
            "workflow.parameters"@,
            d.texts.node_selector_if_root,
        ),
        mutexes_as_written(a.mutexes_if_root@, "workflow.parameters"@, d.texts.mutexes_if_root),
        tolerations_as_written(
            a.tolerations_if_root@,
            "workflow.parameters"@,
            d.texts.tolerations_if_root,
        ),
        opt_as_written(a.affinity_if_root, "workflow.parameters"@, d.texts.affinity_if_root),
        opt_as_written(
            a.pod_spec_patch_if_root,
            "workflow.parameters"@,
            d.texts.pod_spec_patch_if_root,
        ),
        d.parallelism_if_root == a.parallelism_if_root,
        d.image_pull_secrets_if_root == a.image_pull_secrets_if_root.deep_view(),
        d.on_exit_if_root == a.on_exit_if_root.deep_view(),
        d.output_kind == IoKind::Artifact <==> (f.output matches Some(ty) && is_artifact(ty)),
{
    let sig = crate::signature::signature_of(crate::signature::args_of(f.params@));
    let own = InjectView { args: sig.inputs, scope: "inputs.parameters"@, kind: "workflow"@ };
    let root = InjectView { args: sig.inputs, scope: "workflow.parameters"@, kind: "workflow"@ };
    lemma_pairs_written(a.node_selector_if_root@, root);
    lemma_mutexes_written(a.mutexes@, own);
    lemma_mutexes_written(a.mutexes_if_root@, root);
    lemma_tolerations_written(a.tolerations_if_root@, root);
    lemma_opt_written(a.affinity_if_root, root);
    lemma_opt_written(a.pod_spec_patch_if_root, root);
    law_retries_are_as_asked(a.retry);
    law_pairs_become_a_map(a.boundary_node_selector.deep_view());
    law_pairs_become_a_map(a.annotations.deep_view());
    assert(a.annotations.deep_view().len() == a.annotations@.len());
    let all = a.boundary_tolerations.deep_view();
    let g = crate::workflow::boundary_toleration_fn();
    lemma_map_res_len(all, g);
    assert(all.len() == a.boundary_tolerations@.len());
    if 0 <= i < all.len() {
        assert(g(all[i]) == Ok::<TolerationText, Seq<char>>(d.boundary.tolerations[i]));
    }
    if let Some(s) = t.synchronization {
        assert(s.mutexes.map_values(|m: MutexView| (m.name, m.namespace)) =~= d.texts.mutexes);
    }
}

} // verus!
