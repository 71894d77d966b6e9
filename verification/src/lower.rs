//! Tasks on the wire: how an argument is substituted, and how a task refers to
//! its template, its inputs and the tasks before it.

use crate::api::{
    Arguments, ArgumentsView, Artifact, ArtifactView, ContinueOn, ContinueOnView, DagTask,
    DagTaskView, LifecycleHook, LifecycleHookView, Parameter, ParameterView, TemplateRef,
    TemplateRefView,
};
use crate::conditional::{accessor_text, accessors};
use crate::maps::TextMap;
use crate::node::{
    Arg, ArgView, FanSrc, FanSrcView, Hook, HookView, HookWhen, HookWhenView, JsonSrc, JsonSrcView,
    Node, NodeView,
};
use crate::sorted::{insert_by, insert_text, once_by, sorted_once, text_lt};
use crate::text::{cat2, cat3, cat4, cat5, dec, decimal};
use vstd::prelude::*;

verus! {

/// Whether an input or an output is passed inline or through the artifact
/// store.
#[derive(Clone, Copy, PartialEq, Eq, Debug, Structural)]
pub enum IoKind {
    Parameter,
    Artifact,
}

/// What a caller has to know of a template: its name, and its inputs with their
/// kinds. An input without a kind is a parameter.
pub struct TemplateInfo {
    pub argo_name: String,
    pub inputs: Vec<String>,
    pub input_kinds: Vec<IoKind>,
}

#[verifier::ext_equal]
pub struct TemplateInfoView {
    pub argo_name: Seq<char>,
    pub inputs: Seq<Seq<char>>,
    pub input_kinds: Seq<IoKind>,
}

impl DeepView for TemplateInfo {
    type V = TemplateInfoView;

    open spec fn deep_view(&self) -> TemplateInfoView {
        TemplateInfoView {
            argo_name: self.argo_name@,
            inputs: self.inputs.deep_view(),
            input_kinds: self.input_kinds@,
        }
    }
}

// ---- arguments -----------------------------------------------------------------
/// The scope that sibling tasks are looked up in.
pub open spec fn task_scope(steps: bool) -> Seq<char> {
    if steps {
        "steps"@
    } else {
        "tasks"@
    }
}

fn scope_word(steps: bool) -> (r: &'static str)
    ensures
        r@ == task_scope(steps),
{
    if steps {
        "steps"
    } else {
        "tasks"
    }
}

pub open spec fn item_text(path: Seq<Seq<char>>) -> Seq<char>
    decreases path.len(),
{
    if path.len() == 0 {
        "{{item"@
    } else {
        item_text(path.drop_last()) + "."@ + path.last()
    }
}

/// The collected results of a fan-out: elements that came back as text are
/// decoded, and a skipped fan-out is the empty list.
pub open spec fn fan_text(scope: Seq<char>, t: Seq<char>) -> Seq<char> {
    "{{=let s = "@ + scope + "['"@ + t
        + "'].outputs?.parameters?.['return'] ?? \"[]\"; toJSON(map(fromJSON(s == \"\" || s == \"null\" ? \"[]\" : s), { type(#) == \"string\" ? fromJSON(#) : # }))}}"@
}

/// The end of an expression that tells of a failure: the `Err` of a
/// `Result<T, ArgoError>` as JSON, with the task that failed.
pub open spec fn failure_text(t: Seq<char>) -> Seq<char> {
    " : toJSON({\"Err\": {\"task\": \""@ + t + "\"} })}}"@
}

/// The outcome of a task that may fail, as the JSON of a `Result<T, ArgoError>`: its
/// result where it succeeded, and the task itself where not.
pub open spec fn outcome_text(scope: Seq<char>, t: Seq<char>) -> Seq<char> {
    "{{="@ + scope + "['"@ + t + "'].status == \"Succeeded\" ? toJSON({\"Ok\": fromJSON("@ + (
    scope + "['"@ + t + "'].outputs.parameters['return'])})"@) + failure_text(t)
}

/// The list that a fan-out walks, inside an expression.
pub open spec fn list_text(scope: Seq<char>, list: FanSrcView) -> Seq<char> {
    match list {
        FanSrcView::Task(t) => scope + "['"@ + t + "'].outputs?.parameters?.['return']"@,
        FanSrcView::Input(n) => "inputs.parameters['"@ + n + "']"@,
    }
}

/// The outcome of a fan-out that may fail, as the JSON of a `Result<Vec<T>,
/// ArgoError>`. It is all or nothing: the collected results where there are as many
/// as the list has elements, and the task itself where one is missing.
pub open spec fn fan_outcome_text(scope: Seq<char>, t: Seq<char>, list: FanSrcView) -> Seq<char> {
    "{{=let s = "@ + scope + "['"@ + t + "'].outputs?.parameters?.['return'] ?? \"[]\"; let l = "@
        + (list_text(scope, list) + FAN_OUTCOME@ + failure_text(t))
}

/// Both lists without what stands for an empty one, the test for a missing result,
/// and the collected results.
pub const FAN_OUTCOME: &'static str =
    " ?? \"[]\"; let r = fromJSON(s == \"\" || s == \"null\" ? \"[]\" : s); len(r) == len(fromJSON(l == \"\" || l == \"null\" ? \"[]\" : l)) ? toJSON({\"Ok\": map(r, { type(#) == \"string\" ? fromJSON(#) : # })})";

/// What is substituted for an argument.
pub open spec fn value_of(a: ArgView, steps: bool) -> Seq<char> {
    let scope = task_scope(steps);
    match a {
        ArgView::Lit(v) => v,
        ArgView::Ref(t) => "{{"@ + scope + "."@ + t + ".outputs.parameters.return}}"@,
        ArgView::Input(n) => "{{inputs.parameters."@ + n + "}}"@,
        ArgView::Json { src, path } => match src {
            JsonSrcView::Task(t) => "{{=toJSON(fromJSON("@ + scope + "['"@ + t
                + "'].outputs.parameters['return'])"@ + accessors(path) + ")}}"@,
            JsonSrcView::Input(n) => "{{=toJSON(fromJSON(inputs.parameters['"@ + n + "'])"@
                + accessors(path) + ")}}"@,
        },
        ArgView::Item { path } => item_text(path) + "}}"@,
        ArgView::FanAgg(t) => fan_text(scope, t),
        ArgView::RefFallible(t) => outcome_text(scope, t),
        ArgView::FanAggFallible { task, list } => fan_outcome_text(scope, task, list),
    }
}

/// The task whose result an argument needs.
pub open spec fn needs(a: ArgView) -> Option<Seq<char>> {
    match a {
        ArgView::Ref(t) => Some(t),
        ArgView::Json { src: JsonSrcView::Task(t), path: _ } => Some(t),
        ArgView::FanAgg(t) => Some(t),
        ArgView::RefFallible(t) => Some(t),
        ArgView::FanAggFallible { task, list: _ } => Some(task),
        _ => None,
    }
}

/// The task that an argument makes its task wait for; in a sequence of steps
/// the order says that already.
pub open spec fn dep_of(a: ArgView, steps: bool) -> Option<Seq<char>> {
    if steps {
        None
    } else {
        needs(a)
    }
}

/// What is substituted for an argument that is passed as an artifact.
pub open spec fn artifact_value_of(a: ArgView, steps: bool) -> Seq<char> {
    match a {
        ArgView::Ref(t) => "{{"@ + task_scope(steps) + "."@ + t + ".outputs.artifacts.return}}"@,
        ArgView::Input(n) => "{{inputs.artifacts."@ + n + "}}"@,
        _ => value_of(a, steps),
    }
}

fn dep(t: &String, steps: bool) -> (r: Option<String>)
    ensures
        r.deep_view() == if steps {
            None::<Seq<char>>
        } else {
            Some(t@)
        },
{
    if steps {
        None
    } else {
        Some(t.clone())
    }
}

fn tell_failure(t: &str) -> (r: String)
    ensures
        r@ == failure_text(t@),
{
    cat3(" : toJSON({\"Err\": {\"task\": \"", t, "\"} })}}")
}

/// What is substituted for `arg`, and the task it makes its task wait for.
pub fn arg_value(arg: &Arg, steps: bool) -> (r: (String, Option<String>))
    ensures
        r.0@ == value_of(arg.deep_view(), steps),
        r.1.deep_view() == dep_of(arg.deep_view(), steps),
{
    let scope: &str = scope_word(steps);
    match arg {
        Arg::Lit(v) => (v.clone(), None),
        Arg::Ref(t) => (
            cat5("{{", scope, ".", t.as_str(), ".outputs.parameters.return}}"),
            dep(t, steps),
        ),
        Arg::Input(n) => (cat3("{{inputs.parameters.", n.as_str(), "}}"), None),
        Arg::Json { src, path } => {
            let acc: String = accessor_text(path);
            match src {
                JsonSrc::Task(t) => {
                    let mut s: String = cat5(
                        "{{=toJSON(fromJSON(",
                        scope,
                        "['",
                        t.as_str(),
                        "'].outputs.parameters['return'])",
                    );
                    s.append(acc.as_str());
                    s.append(")}}");
                    (s, dep(t, steps))
                },
                JsonSrc::Input(n) => {
                    let mut s: String = cat3(
                        "{{=toJSON(fromJSON(inputs.parameters['",
                        n.as_str(),
                        "'])",
                    );
                    s.append(acc.as_str());
                    s.append(")}}");
                    (s, None)
                },
            }
        },
        Arg::Item { path } => {
            let ghost all = path.deep_view();
            let mut v: String = "{{item".to_owned();
            let mut i: usize = 0;
            proof {
                assert(all.take(0) =~= Seq::<Seq<char>>::empty());
            }
            while i < path.len()
                invariant
                    all == path.deep_view(),
                    i <= path@.len(),
                    v@ == item_text(all.take(i as int)),
                decreases path@.len() - i,
            {
                v.append(".");
                v.append(path[i].as_str());
                proof {
                    assert(all.take(i + 1).drop_last() =~= all.take(i as int));
                    assert(all.take(i + 1).last() == path@[i as int]@);
                }
                i = i + 1;
            }
            proof {
                assert(all.take(i as int) =~= all);
            }
            v.append("}}");
            (v, None)
        },
        Arg::FanAgg(t) => (
            cat5(
                "{{=let s = ",
                scope,
                "['",
                t.as_str(),
                "'].outputs?.parameters?.['return'] ?? \"[]\"; toJSON(map(fromJSON(s == \"\" || s == \"null\" ? \"[]\" : s), { type(#) == \"string\" ? fromJSON(#) : # }))}}",
            ),
            dep(t, steps),
        ),
        Arg::RefFallible(t) => {
            let mut s: String = cat5(
                "{{=",
                scope,
                "['",
                t.as_str(),
                "'].status == \"Succeeded\" ? toJSON({\"Ok\": fromJSON(",
            );
            let result: String = cat4(
                scope,
                "['",
                t.as_str(),
                "'].outputs.parameters['return'])})",
            );
            s.append(result.as_str());
            let failure: String = tell_failure(t.as_str());
            s.append(failure.as_str());
            (s, dep(t, steps))
        },
        Arg::FanAggFallible { task, list } => {
            let mut s: String = cat5(
                "{{=let s = ",
                scope,
                "['",
                task.as_str(),
                "'].outputs?.parameters?.['return'] ?? \"[]\"; let l = ",
            );
            let walked: String = match list {
                FanSrc::Task(t) => cat4(
                    scope,
                    "['",
                    t.as_str(),
                    "'].outputs?.parameters?.['return']",
                ),
                FanSrc::Input(n) => cat3("inputs.parameters['", n.as_str(), "']"),
            };
            let failure: String = tell_failure(task.as_str());
            let rest: String = cat3(walked.as_str(), FAN_OUTCOME, failure.as_str());
            s.append(rest.as_str());
            (s, dep(task, steps))
        },
    }
}

/// What is substituted for `arg` where it is passed as an artifact, and the task
/// it makes its task wait for.
pub fn arg_value_artifact(arg: &Arg, steps: bool) -> (r: (String, Option<String>))
    ensures
        r.0@ == artifact_value_of(arg.deep_view(), steps),
        r.1.deep_view() == dep_of(arg.deep_view(), steps),
{
    match arg {
        Arg::Ref(t) => (
            cat5("{{", scope_word(steps), ".", t.as_str(), ".outputs.artifacts.return}}"),
            dep(t, steps),
        ),
        Arg::Input(n) => (cat3("{{inputs.artifacts.", n.as_str(), "}}"), None),
        _ => arg_value(arg, steps),
    }
}

// ---- tasks -------------------------------------------------------------------------
/// The name of input `i`; nothing where the template has no such input.
pub open spec fn input_name(info: TemplateInfoView, i: int) -> Seq<char> {
    if 0 <= i < info.inputs.len() {
        info.inputs[i]
    } else {
        Seq::empty()
    }
}

pub open spec fn input_kind(info: TemplateInfoView, i: int) -> IoKind {
    if 0 <= i < info.input_kinds.len() {
        info.input_kinds[i]
    } else {
        IoKind::Parameter
    }
}

pub open spec fn param_of(name: Seq<char>, value: Seq<char>) -> ParameterView {
    ParameterView { name, value: Some(value), ..ParameterView::empty() }
}

pub open spec fn artifact_of(name: Seq<char>, from: Seq<char>) -> ArtifactView {
    ArtifactView { name, from, ..ArtifactView::empty() }
}

/// The parameters among the first `n` arguments.
pub open spec fn params_upto(
    args: Seq<ArgView>,
    n: nat,
    info: TemplateInfoView,
    steps: bool,
) -> Seq<ParameterView>
    decreases n,
{
    if n == 0 {
        Seq::empty()
    } else {
        let front = params_upto(args, (n - 1) as nat, info, steps);
        if input_kind(info, n - 1) == IoKind::Parameter {
            front.push(param_of(input_name(info, n - 1), value_of(args[n - 1], steps)))
        } else {
            front
        }
    }
}

/// The artifacts among the first `n` arguments.
pub open spec fn artifacts_upto(
    args: Seq<ArgView>,
    n: nat,
    info: TemplateInfoView,
    steps: bool,
) -> Seq<ArtifactView>
    decreases n,
{
    if n == 0 {
        Seq::empty()
    } else {
        let front = artifacts_upto(args, (n - 1) as nat, info, steps);
        if input_kind(info, n - 1) == IoKind::Artifact {
            front.push(artifact_of(input_name(info, n - 1), artifact_value_of(args[n - 1], steps)))
        } else {
            front
        }
    }
}

/// The tasks that a fan-out and the first `n` arguments wait for, in order.
pub open spec fn deps_upto(
    fan: Option<FanSrcView>,
    args: Seq<ArgView>,
    n: nat,
    steps: bool,
) -> Seq<Seq<char>>
    decreases n,
{
    if n == 0 {
        match fan {
            Some(FanSrcView::Task(t)) => if steps {
                Seq::empty()
            } else {
                seq![t]
            },
            _ => Seq::empty(),
        }
    } else {
        let front = deps_upto(fan, args, (n - 1) as nat, steps);
        match dep_of(args[n - 1], steps) {
            Some(t) => front.push(t),
            None => front,
        }
    }
}

pub open spec fn ref_of(name: Seq<char>) -> TemplateRefView {
    TemplateRefView { name, template: name, cluster_scope: false }
}

/// How many of the first `n` hooks have a number: all but the exit hook.
pub open spec fn numbered(hooks: Seq<HookView>, n: nat) -> nat
    decreases n,
{
    if n == 0 {
        0
    } else if hooks[n - 1].when == HookWhenView::Exit {
        numbered(hooks, (n - 1) as nat)
    } else {
        numbered(hooks, (n - 1) as nat) + 1
    }
}

pub open spec fn hook_key(hooks: Seq<HookView>, i: int) -> Seq<char> {
    if hooks[i].when == HookWhenView::Exit {
        "exit"@
    } else {
        "hook"@ + dec(numbered(hooks, (i + 1) as nat))
    }
}

/// The condition under which a hook of `task` fires.
pub open spec fn hook_expr(w: HookWhenView, task: Seq<char>, steps: bool) -> Seq<char> {
    let node = task_scope(steps) + "['"@ + task;
    match w {
        HookWhenView::Exit => Seq::empty(),
        HookWhenView::Success => node + "'].status == \"Succeeded\""@,
        HookWhenView::Failure => node + "'].status == \"Failed\""@,
        HookWhenView::Error => node + "'].status == \"Error\""@,
        HookWhenView::Raw(s) => s,
    }
}

/// The parameters of a hook. Hooks wait for nothing: they fire by status.
pub open spec fn hook_params(
    args: Seq<ArgView>,
    info: TemplateInfoView,
    steps: bool,
) -> Seq<ParameterView> {
    Seq::new(
        args.len(),
        |i: int| param_of(input_name(info, i), value_of(args[i], steps)),
    )
}

pub open spec fn hook_wire(
    h: HookView,
    info: TemplateInfoView,
    task: Seq<char>,
    steps: bool,
) -> LifecycleHookView {
    LifecycleHookView {
        template_ref: Some(ref_of(info.argo_name)),
        arguments: if h.args.len() == 0 {
            None
        } else {
            Some(
                ArgumentsView {
                    parameters: hook_params(h.args, info, steps),
                    artifacts: Seq::empty(),
                },
            )
        },
        expression: hook_expr(h.when, task, steps),
    }
}

/// The first `n` hooks by their keys.
pub open spec fn hooks_upto(
    hooks: Seq<HookView>,
    infos: Seq<TemplateInfoView>,
    n: nat,
    task: Seq<char>,
    steps: bool,
) -> Map<Seq<char>, LifecycleHookView>
    decreases n,
{
    if n == 0 {
        Map::empty()
    } else {
        hooks_upto(hooks, infos, (n - 1) as nat, task, steps).insert(
            hook_key(hooks, n - 1),
            hook_wire(hooks[n - 1], infos[n - 1], task, steps),
        )
    }
}

pub open spec fn with_param_of(fan: Option<FanSrcView>, steps: bool) -> Seq<char> {
    match fan {
        Some(FanSrcView::Task(t)) => "{{"@ + task_scope(steps) + "."@ + t
            + ".outputs.parameters.return}}"@,
        Some(FanSrcView::Input(n)) => "{{inputs.parameters."@ + n + "}}"@,
        None => Seq::empty(),
    }
}

/// Whether these are the templates of a task's hooks, and no hook passes more
/// arguments than its template has inputs.
pub open spec fn hooks_fit(n: NodeView, hooks: Seq<TemplateInfoView>) -> bool {
    &&& hooks.len() == n.hooks.len()
    &&& forall|i: int| 0 <= i < n.hooks.len() ==> hook_fits(#[trigger] n.hooks[i], hooks[i])
}

pub open spec fn hook_fits(h: HookView, info: TemplateInfoView) -> bool {
    h.args.len() <= info.inputs.len()
}

/// A task on the wire.
pub open spec fn task_of(
    n: NodeView,
    callee: TemplateInfoView,
    hooks: Seq<TemplateInfoView>,
    steps: bool,
) -> DagTaskView {
    DagTaskView {
        name: n.task,
        template: Seq::empty(),
        dependencies: sorted_once(deps_upto(n.fan, n.args, n.args.len(), steps)),
        arguments: Some(
            ArgumentsView {
                parameters: params_upto(n.args, n.args.len(), callee, steps),
                artifacts: artifacts_upto(n.args, n.args.len(), callee, steps),
            },
        ),
        template_ref: Some(ref_of(callee.argo_name)),
        continue_on: match n.continue_on {
            Some(c) => Some(ContinueOnView { error: c.0, failed: c.1 }),
            None => None,
        },
        hooks: hooks_upto(n.hooks, hooks, n.hooks.len(), n.task, steps),
        with_param: with_param_of(n.fan, steps),
        when: match n.when {
            Some(w) => w,
            None => Seq::empty(),
        },
    }
}

pub fn make_param(name: String, value: String) -> (r: Parameter)
    ensures
        r.deep_view() == param_of(name@, value@),
{
    Parameter { name, value: Some(value), default_value: None, value_from: None }
}

pub fn make_ref(name: &str) -> (r: TemplateRef)
    ensures
        r.deep_view() == ref_of(name@),
{
    TemplateRef { name: name.to_owned(), template: name.to_owned(), cluster_scope: false }
}

fn name_input(info: &TemplateInfo, i: usize) -> (r: String)
    ensures
        r@ == input_name(info.deep_view(), i as int),
{
    if i < info.inputs.len() {
        info.inputs[i].clone()
    } else {
        String::new()
    }
}

fn kind_input(info: &TemplateInfo, i: usize) -> (r: IoKind)
    ensures
        r == input_kind(info.deep_view(), i as int),
{
    if i < info.input_kinds.len() {
        info.input_kinds[i]
    } else {
        IoKind::Parameter
    }
}

struct Wired {
    params: Vec<Parameter>,
    artifacts: Vec<Artifact>,
    deps: Vec<String>,
}

fn wire_args(node: &Node, callee: &TemplateInfo, steps: bool) -> (r: Wired)
    ensures
        r.params.deep_view() == params_upto(
            node.deep_view().args,
            node.deep_view().args.len(),
            callee.deep_view(),
            steps,
        ),
        r.artifacts.deep_view() == artifacts_upto(
            node.deep_view().args,
            node.deep_view().args.len(),
            callee.deep_view(),
            steps,
        ),
        r.deps.deep_view() == sorted_once(
            deps_upto(
                node.deep_view().fan,
                node.deep_view().args,
                node.deep_view().args.len(),
                steps,
            ),
        ),
{
    let ghost nv = node.deep_view();
    let ghost cv = callee.deep_view();
    let mut params: Vec<Parameter> = Vec::new();
    let mut artifacts: Vec<Artifact> = Vec::new();
    let mut deps: Vec<String> = Vec::new();
    proof {
        assert(params.deep_view() =~= Seq::<ParameterView>::empty());
        assert(artifacts.deep_view() =~= Seq::<ArtifactView>::empty());
        assert(deps.deep_view() =~= Seq::<Seq<char>>::empty());
    }
    if !steps {
        match &node.fan {
            Some(FanSrc::Task(t)) => {
                proof {
                    assert(seq![t@].drop_last() =~= Seq::<Seq<char>>::empty());
                    assert(sorted_once(seq![t@]) == insert_by(
                        once_by(Seq::<Seq<char>>::empty(), text_lt()),
                        t@,
                        text_lt(),
                    ));
                }
                insert_text(&mut deps, t.clone());
            },
            _ => {},
        }
    }
    let mut i: usize = 0;
    while i < node.args.len()
        invariant
            nv == node.deep_view(),
            cv == callee.deep_view(),
            i <= node.args@.len(),
            params.deep_view() == params_upto(nv.args, i as nat, cv, steps),
            artifacts.deep_view() == artifacts_upto(nv.args, i as nat, cv, steps),
            deps.deep_view() == sorted_once(deps_upto(nv.fan, nv.args, i as nat, steps)),
        decreases node.args@.len() - i,
    {
        let a: &Arg = &node.args[i];
        proof {
            assert(nv.args[i as int] == a.deep_view());
        }
        let name: String = name_input(callee, i);
        let ghost p0 = params.deep_view();
        let ghost a0 = artifacts.deep_view();
        let ghost raw = deps_upto(nv.fan, nv.args, i as nat, steps);
        let d: Option<String>;
        match kind_input(callee, i) {
            IoKind::Parameter => {
                let (v, w) = arg_value(a, steps);
                let p: Parameter = make_param(name, v);
                let ghost pv = p.deep_view();
                params.push(p);
                proof {
                    assert(params.deep_view() =~= p0.push(pv));
                }
                d = w;
            },
            IoKind::Artifact => {
                let (v, w) = arg_value_artifact(a, steps);
                let x: Artifact = Artifact {
                    name,
                    path: String::new(),
                    s3: None,
                    archive: None,
                    mode: None,
                    from: v,
                };
                let ghost xv = x.deep_view();
                artifacts.push(x);
                proof {
                    assert(artifacts.deep_view() =~= a0.push(xv));
                    assert(xv == artifact_of(input_name(cv, i as int), v@));
                }
                d = w;
            },
        }
        match d {
            Some(t) => {
                proof {
                    assert(raw.push(t@).drop_last() =~= raw);
                }
                insert_text(&mut deps, t);
            },
            None => {},
        }
        i = i + 1;
    }
    Wired { params, artifacts, deps }
}

fn hook_expression(w: &HookWhen, task: &str, steps: bool) -> (r: String)
    ensures
        r@ == hook_expr(w.deep_view(), task@, steps),
{
    let scope: &str = scope_word(steps);
    match w {
        HookWhen::Exit => String::new(),
        HookWhen::Success => cat4(scope, "['", task, "'].status == \"Succeeded\""),
        HookWhen::Failure => cat4(scope, "['", task, "'].status == \"Failed\""),
        HookWhen::Error => cat4(scope, "['", task, "'].status == \"Error\""),
        HookWhen::Raw(s) => s.clone(),
    }
}

fn wire_hook(h: &Hook, info: &TemplateInfo, task: &str, steps: bool) -> (r: LifecycleHook)
    requires
        hook_fits(h.deep_view(), info.deep_view()),
    ensures
        r.deep_view() == hook_wire(h.deep_view(), info.deep_view(), task@, steps),
{
    let ghost want = hook_params(h.deep_view().args, info.deep_view(), steps);
    let mut params: Vec<Parameter> = Vec::new();
    let mut i: usize = 0;
    proof {
        assert(params.deep_view() =~= want.take(0));
    }
    while i < h.args.len()
        invariant
            hook_fits(h.deep_view(), info.deep_view()),
            want == hook_params(h.deep_view().args, info.deep_view(), steps),
            i <= h.args@.len(),
            params.deep_view() == want.take(i as int),
        decreases h.args@.len() - i,
    {
        proof {
            assert(h.deep_view().args[i as int] == h.args@[i as int].deep_view());
        }
        let (v, _) = arg_value(&h.args[i], steps);
        let p: Parameter = make_param(name_input(info, i), v);
        let ghost pv = p.deep_view();
        let ghost p0 = params.deep_view();
        params.push(p);
        proof {
            assert(params.deep_view() =~= p0.push(pv));
            assert(params.deep_view() =~= want.take(i + 1));
        }
        i = i + 1;
    }
    proof {
        assert(want.take(i as int) =~= want);
    }
    let arguments: Option<Arguments> = if params.len() == 0 {
        None
    } else {
        let none: Vec<Artifact> = Vec::new();
        proof {
            assert(none.deep_view() =~= Seq::<ArtifactView>::empty());
        }
        Some(Arguments { parameters: params, artifacts: none })
    };
    LifecycleHook {
        template_ref: Some(make_ref(info.argo_name.as_str())),
        arguments,
        expression: hook_expression(&h.when, task, steps),
    }
}

fn wire_hooks(hooks: &Vec<Hook>, infos: &Vec<TemplateInfo>, task: &str, steps: bool) -> (r: TextMap<
    LifecycleHook,
>)
    requires
        infos@.len() == hooks@.len(),
        forall|i: int|
            0 <= i < hooks@.len() ==> hook_fits(
                #[trigger] hooks.deep_view()[i],
                infos.deep_view()[i],
            ),
    ensures
        r.deep_view() == hooks_upto(
            hooks.deep_view(),
            infos.deep_view(),
            hooks@.len(),
            task@,
            steps,
        ),
{
    let ghost hv = hooks.deep_view();
    let ghost iv = infos.deep_view();
    let mut out: TextMap<LifecycleHook> = TextMap::new();
    let mut n: u128 = 0;
    let mut i: usize = 0;
    while i < hooks.len()
        invariant
            hv == hooks.deep_view(),
            iv == infos.deep_view(),
            infos@.len() == hooks@.len(),
            forall|k: int| 0 <= k < hooks@.len() ==> hook_fits(#[trigger] hv[k], iv[k]),
            i <= hooks@.len(),
            n <= i,
            n as nat == numbered(hv, i as nat),
            out.deep_view() == hooks_upto(hv, iv, i as nat, task@, steps),
        decreases hooks@.len() - i,
    {
        let h: &Hook = &hooks[i];
        proof {
            assert(hv[i as int] == h.deep_view());
            assert(iv[i as int] == infos@[i as int].deep_view());
        }
        let key: String = match &h.when {
            HookWhen::Exit => "exit".to_owned(),
            _ => {
                n = n + 1;
                let d: String = decimal(n);
                cat2("hook", d.as_str())
            },
        };
        let w: LifecycleHook = wire_hook(h, &infos[i], task, steps);
        out.insert(key, w);
        i = i + 1;
    }
    out
}

/// Writes a task: a reference to its callee, its arguments, the tasks it waits
/// for, its hooks and its conditions. `hooks` are the templates of its hooks.
pub fn node_task(
    node: &Node,
    callee: &TemplateInfo,
    hooks: &Vec<TemplateInfo>,
    steps: bool,
) -> (r: DagTask)
    requires
        hooks_fit(node.deep_view(), hooks.deep_view()),
    ensures
        r.deep_view() == task_of(node.deep_view(), callee.deep_view(), hooks.deep_view(), steps),
{
    let wired: Wired = wire_args(node, callee, steps);
    let with_param: String = match &node.fan {
        Some(FanSrc::Task(t)) => cat5(
            "{{",
            scope_word(steps),
            ".",
            t.as_str(),
            ".outputs.parameters.return}}",
        ),
        Some(FanSrc::Input(n)) => cat3("{{inputs.parameters.", n.as_str(), "}}"),
        None => String::new(),
    };
    let when: String = match &node.when {
        Some(w) => w.clone(),
        None => String::new(),
    };
    let continue_on: Option<ContinueOn> = match node.continue_on {
        Some((error, failed)) => Some(ContinueOn { error, failed }),
        None => None,
    };
    DagTask {
        name: node.task.clone(),
        template: String::new(),
        dependencies: wired.deps,
        arguments: Some(Arguments { parameters: wired.params, artifacts: wired.artifacts }),
        template_ref: Some(make_ref(callee.argo_name.as_str())),
        continue_on,
        hooks: wire_hooks(&node.hooks, hooks, node.task.as_str(), steps),
        with_param,
        when,
    }
}

} // verus!
