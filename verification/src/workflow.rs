//! Workflows: what a `#[workflow]` function declares, and the templates that are
//! built from it and from the `if`s in it.

use crate::api::{
    Artifact, ArtifactView, DagTask, DagTaskView, DagTemplate, DagTemplateView, Inputs, InputsView,
    Outputs, OutputsView, Parameter, ParameterView, Template, TemplateView, ValueFrom,
    ValueFromView,
};
use crate::ast::{Expr, FnDecl, Path, PathView};
use crate::attrs::{
    check_toleration_effect, check_toleration_operator, effect_problem, inject_opt, inject_pairs,
    lower_mutex_pairs, lower_toleration_args, mutex_fn, operator_problem, opt_inject_in, pair_fn,
    parallelism, parallelism_of, synchronization_of, template_synchronization,
    template_tolerations, toleration_fn, toleration_views, InjectCtx, InjectView, MutexArg,
    TolerationArg, TolerationText, TolerationTuple,
};
use crate::body::{
    analyze_stmts, bad_output, stmts_done, BodyName, SelfName, SynthCtx, FALLIBLE_RETURN_UNSUPPORTED,
    FAN_RETURN_UNSUPPORTED, RETURN_UNRESOLVED,
};
use crate::container::{
    affinity_of, check_affinity, check_template, declare_params, declared_params, limits_of,
    lower_limits, map_from_pairs, metadata_from, metadata_of, output_kind, output_kind_of,
    pairs_map, template_problem, Limits, LimitsView,
};
use crate::folds::{lemma_map_res_all, lemma_map_res_len, lemma_map_res_step, map_res};
use crate::lower::{
    hook_fits, node_task, task_of, task_scope, IoKind, TemplateInfo,
    TemplateInfoView,
};
use crate::maps::Data;
use crate::names::{argo_name, make_argo_name};
use crate::node::{
    agrees, Hook, HookView, Node, NodeView, SynthOut, SynthOutView, SynthWf, SynthWfView,
};
use crate::scan::{found_in_stmts, scan_body, scan_of, BodyScan, BodyScanView};
use crate::scope::{callee_paths, distinct_paths, fallible_task, fan_task, retag_refs, retagged};
use crate::signature::{args_of, fn_args, signature, signature_of, FnArg, Signature, SignatureView};
use crate::text::{cat3, cat5, dec, decimal, str_eq};
use vstd::prelude::*;

verus! {

/// `#[workflow(…)]`. A group such as `retry(…)` is held by its fields, and a map
/// by its entries in the order of their keys.
pub struct WorkflowArgs {
    pub name: Option<String>,
    pub steps: bool,
    pub boundary_node_selector: Vec<(String, String)>,
    pub boundary_tolerations: Vec<TolerationTuple>,
    pub boundary_affinity: Option<String>,
    pub node_selector_if_root: Vec<(String, Expr)>,
    pub on_exit_if_root: Option<Path>,
    pub retry: Option<Vec<(String, Expr)>>,
    pub ttl_if_root: Option<Vec<(String, Expr)>>,
    pub pod_gc_if_root: Option<Vec<(String, Expr)>>,
    pub active_deadline_if_root: Option<Expr>,
    pub annotations: Vec<(String, String)>,
    pub mutexes: Vec<MutexArg>,
    pub mutexes_if_root: Vec<MutexArg>,
    pub tolerations_if_root: Vec<TolerationArg>,
    pub affinity_if_root: Option<Expr>,
    pub pod_spec_patch_if_root: Option<Expr>,
    pub image_pull_secrets_if_root: Vec<String>,
    pub parallelism: Option<i64>,
    pub parallelism_if_root: Option<i64>,
}

pub const ASYNC_WORKFLOW: &'static str = "`#[workflow]` cannot be `async fn` — workflow bodies are \
statically analyzed, not executed. Use a regular `fn`. \
(Only `#[container]` bodies actually run; they may be \
`async fn` with the `cargo-athena` `tokio` feature.)";

pub const DECLS_IN_WORKFLOW: &'static str = "`host!`/`load_artifact*!`/`save_artifact*!`/`secret*!` cannot be used \
in a #[workflow]: a workflow is a DAG, not a pod. Declare them in the \
#[container] (or a #[fragment] it calls) that runs in-cluster.";

pub const NO_ARMS: &'static str = "if has at least one arm";

/// The attribute values of a workflow after injection.
pub struct WorkflowTexts {
    pub node_selector_if_root: Vec<(String, String)>,
    pub mutexes: Vec<(String, String)>,
    pub mutexes_if_root: Vec<(String, String)>,
    pub tolerations_if_root: Vec<TolerationTuple>,
    pub affinity_if_root: Option<String>,
    pub pod_spec_patch_if_root: Option<String>,
}

#[verifier::ext_equal]
pub struct WorkflowTextsView {
    pub node_selector_if_root: Seq<(Seq<char>, Seq<char>)>,
    pub mutexes: Seq<(Seq<char>, Seq<char>)>,
    pub mutexes_if_root: Seq<(Seq<char>, Seq<char>)>,
    pub tolerations_if_root: Seq<TolerationText>,
    pub affinity_if_root: Option<Seq<char>>,
    pub pod_spec_patch_if_root: Option<Seq<char>>,
}

impl DeepView for WorkflowTexts {
    type V = WorkflowTextsView;

    open spec fn deep_view(&self) -> WorkflowTextsView {
        WorkflowTextsView {
            node_selector_if_root: self.node_selector_if_root.deep_view(),
            mutexes: self.mutexes.deep_view(),
            mutexes_if_root: self.mutexes_if_root.deep_view(),
            tolerations_if_root: self.tolerations_if_root.deep_view(),
            affinity_if_root: self.affinity_if_root.deep_view(),
            pod_spec_patch_if_root: self.pod_spec_patch_if_root.deep_view(),
        }
    }
}

/// The boundary attributes of a workflow: they hold for the pods directly inside it.
pub struct Boundary {
    pub node_selector: Vec<(String, String)>,
    pub tolerations: Vec<TolerationTuple>,
    pub affinity: Option<String>,
    pub annotations: Vec<(String, String)>,
    pub parallelism: Option<i64>,
}

#[verifier::ext_equal]
pub struct BoundaryView {
    pub node_selector: Seq<(Seq<char>, Seq<char>)>,
    pub tolerations: Seq<TolerationText>,
    pub affinity: Option<Seq<char>>,
    pub annotations: Seq<(Seq<char>, Seq<char>)>,
    pub parallelism: Option<i64>,
}

impl DeepView for Boundary {
    type V = BoundaryView;

    open spec fn deep_view(&self) -> BoundaryView {
        BoundaryView {
            node_selector: self.node_selector.deep_view(),
            tolerations: self.tolerations.deep_view(),
            affinity: self.affinity.deep_view(),
            annotations: self.annotations.deep_view(),
            parallelism: self.parallelism,
        }
    }
}

/// A workflow template, declared.
pub struct WorkflowDecl {
    pub argo_name: String,
    pub signature: Signature,
    pub output_kind: IoKind,
    pub steps: bool,
    pub nodes: Vec<Node>,
    pub output_task: Option<String>,
    pub synths: Vec<SynthWf>,
    pub callees: Vec<Path>,
    pub texts: WorkflowTexts,
    pub boundary: Boundary,
    pub limits: Limits,
    pub image_pull_secrets_if_root: Vec<String>,
    pub parallelism_if_root: Option<i64>,
    pub on_exit_if_root: Option<Path>,
}

#[verifier::ext_equal]
pub struct WorkflowDeclView {
    pub argo_name: Seq<char>,
    pub signature: SignatureView,
    pub output_kind: IoKind,
    pub steps: bool,
    pub nodes: Seq<NodeView>,
    pub output_task: Option<Seq<char>>,
    pub synths: Seq<SynthWfView>,
    pub callees: Seq<PathView>,
    pub texts: WorkflowTextsView,
    pub boundary: BoundaryView,
    pub limits: LimitsView,
    pub image_pull_secrets_if_root: Seq<Seq<char>>,
    pub parallelism_if_root: Option<i64>,
    pub on_exit_if_root: Option<PathView>,
}

impl DeepView for WorkflowDecl {
    type V = WorkflowDeclView;

    open spec fn deep_view(&self) -> WorkflowDeclView {
        WorkflowDeclView {
            argo_name: self.argo_name@,
            signature: self.signature.deep_view(),
            output_kind: self.output_kind,
            steps: self.steps,
            nodes: self.nodes.deep_view(),
            output_task: self.output_task.deep_view(),
            synths: self.synths.deep_view(),
            callees: self.callees.deep_view(),
            texts: self.texts.deep_view(),
            boundary: self.boundary.deep_view(),
            limits: self.limits.deep_view(),
            image_pull_secrets_if_root: self.image_pull_secrets_if_root.deep_view(),
            parallelism_if_root: self.parallelism_if_root,
            on_exit_if_root: self.on_exit_if_root.deep_view(),
        }
    }
}

// ---- analysis ---------------------------------------------------------------------
/// The tasks of a workflow, the task it returns, and the workflows of its `if`s.
#[verifier::ext_equal]
pub struct AnalyzedView {
    pub nodes: Seq<NodeView>,
    pub output_task: Option<Seq<char>>,
    pub synths: Seq<SynthWfView>,
}

/// The tasks of a workflow, the task it returns, and the workflows of its `if`s.
pub struct Analyzed {
    pub nodes: Vec<Node>,
    pub output_task: Option<String>,
    pub synths: Vec<SynthWf>,
}

impl DeepView for Analyzed {
    type V = AnalyzedView;

    open spec fn deep_view(&self) -> AnalyzedView {
        AnalyzedView {
            nodes: self.nodes.deep_view(),
            output_task: self.output_task.deep_view(),
            synths: self.synths.deep_view(),
        }
    }
}

/// What the body of a workflow called `argo` is analyzed into.
pub open spec fn analyzed(f: FnDecl, argo: Seq<char>) -> Result<AnalyzedView, Seq<char>> {
    match stmts_done(
        f.body@,
        signature_of(args_of(f.params@)).inputs,
        f.output is Some,
        SelfName { argo, rust: f.name@ },
        Seq::empty(),
        0,
    ) {
        Err(m) => Err(m),
        Ok(d) => if f.output is Some && bad_output(d.nodes, d.out) is Some {
            Err(bad_output(d.nodes, d.out)->0)
        } else {
            Ok(AnalyzedView { nodes: retagged(d.nodes), output_task: d.out, synths: d.synth })
        },
    }
}

/// Analyzes the body of a workflow: its tasks, the task it returns, and every
/// workflow that an `if` in it becomes.
pub fn analyze_workflow(f: &FnDecl, parent_argo: &str) -> (r: Result<Analyzed, String>)
    ensures
        agrees(r, analyzed(*f, parent_argo@)),
{
    let args: Vec<FnArg> = fn_args(f);
    let sig: Signature = signature(&args);
    let want: bool = f.output.is_some();
    let mut ctx: SynthCtx = SynthCtx { synth: Vec::new(), if_ctr: 0 };
    proof {
        assert(ctx.synth.deep_view() =~= Seq::<SynthWfView>::empty());
    }
    let me: BodyName = BodyName { argo: parent_argo.to_owned(), rust: f.name.clone() };
    let (nodes, out) = match analyze_stmts(&f.body, &sig.inputs, want, &me, &mut ctx) {
        Ok(p) => p,
        Err(m) => {
            return Err(m);
        },
    };
    if want {
        match &out {
            None => {
                return Err(RETURN_UNRESOLVED.to_owned());
            },
            Some(t) => {
                if fan_task(&nodes, t.as_str()).is_some() {
                    return Err(FAN_RETURN_UNSUPPORTED.to_owned());
                }
                if fallible_task(&nodes, t.as_str()) {
                    return Err(FALLIBLE_RETURN_UNSUPPORTED.to_owned());
                }
            },
        }
    }
    Ok(Analyzed { nodes: retag_refs(&nodes), output_task: out, synths: ctx.synth })
}

// ---- declaration -------------------------------------------------------------------
pub open spec fn boundary_toleration(t: TolerationText) -> Result<TolerationText, Seq<char>> {
    match operator_problem(t.1) {
        Some(m) => Err(m),
        None => match effect_problem(t.3) {
            Some(m) => Err(m),
            None => Ok(t),
        },
    }
}

pub open spec fn boundary_toleration_fn() -> spec_fn(TolerationText) -> Result<
    TolerationText,
    Seq<char>,
> {
    |t: TolerationText| boundary_toleration(t)
}

/// A copy of one toleration.
pub fn copy_toleration(t: &TolerationTuple) -> (r: TolerationTuple)
    ensures
        r.deep_view() == t.deep_view(),
{
    (t.0.clone(), t.1.clone(), t.2.clone(), t.3.clone(), t.4)
}

/// A copy of a list of tolerations.
pub fn copy_tolerations(v: &Vec<TolerationTuple>) -> (r: Vec<TolerationTuple>)
    ensures
        r.deep_view() == v.deep_view(),
{
    let mut out: Vec<TolerationTuple> = Vec::new();
    let ghost all = v.deep_view();
    let mut i: usize = 0;
    proof {
        assert(out.deep_view() =~= all.take(0));
    }
    while i < v.len()
        invariant
            all == v.deep_view(),
            i <= v@.len(),
            out.deep_view() == all.take(i as int),
        decreases v@.len() - i,
    {
        let ghost before = out.deep_view();
        let t: TolerationTuple = copy_toleration(&v[i]);
        let ghost tv = t.deep_view();
        out.push(t);
        proof {
            assert(out.deep_view() =~= before.push(tv));
            assert(out.deep_view() =~= all.take(i + 1));
        }
        i = i + 1;
    }
    proof {
        assert(all.take(i as int) =~= all);
    }
    out
}

/// Checks the literal tolerations of a workflow's boundary.
pub fn check_boundary_tolerations(list: &Vec<TolerationTuple>) -> (r: Result<
    Vec<TolerationTuple>,
    String,
>)
    ensures
        agrees(r, map_res(list.deep_view(), boundary_toleration_fn())),
{
    let ghost f = boundary_toleration_fn();
    let ghost all = list.deep_view();
    let mut out: Vec<TolerationTuple> = Vec::new();
    let mut i: usize = 0;
    proof {
        lemma_map_res_all(all, f);
        assert(out.deep_view() =~= Seq::<TolerationText>::empty());
    }
    while i < list.len()
        invariant
            f == boundary_toleration_fn(),
            all == list.deep_view(),
            i <= list@.len(),
            map_res(all.take(i as int), f) == Ok::<Seq<TolerationText>, Seq<char>>(
                out.deep_view(),
            ),
        decreases list@.len() - i,
    {
        proof {
            lemma_map_res_step(all, f, i as int);
            assert(all[i as int] == list@[i as int].deep_view());
        }
        match check_toleration_operator(list[i].1.as_str()) {
            Ok(_) => {},
            Err(m) => {
                return Err(m);
            },
        }
        match check_toleration_effect(list[i].3.as_str()) {
            Ok(_) => {},
            Err(m) => {
                return Err(m);
            },
        }
        let t: TolerationTuple = copy_toleration(&list[i]);
        let ghost tv = t.deep_view();
        let ghost before = out.deep_view();
        out.push(t);
        proof {
            assert(out.deep_view() =~= before.push(tv));
        }
        i = i + 1;
    }
    proof {
        lemma_map_res_all(all, f);
    }
    Ok(out)
}

pub open spec fn workflow_texts_of(a: WorkflowArgs, own: InjectView, root: InjectView) -> Result<
    WorkflowTextsView,
    Seq<char>,
> {
    match map_res(a.node_selector_if_root@, pair_fn(root)) {
        Err(m) => Err(m),
        Ok(node_selector_if_root) => match map_res(a.mutexes@, mutex_fn(own)) {
            Err(m) => Err(m),
            Ok(mutexes) => match map_res(a.mutexes_if_root@, mutex_fn(root)) {
                Err(m) => Err(m),
                Ok(mutexes_if_root) => match map_res(
                    a.tolerations_if_root@,
                    toleration_fn(root),
                ) {
                    Err(m) => Err(m),
                    Ok(tolerations_if_root) => match opt_inject_in(a.affinity_if_root, root) {
                        Err(m) => Err(m),
                        Ok(affinity_if_root) => match opt_inject_in(
                            a.pod_spec_patch_if_root,
                            root,
                        ) {
                            Err(m) => Err(m),
                            Ok(pod_spec_patch_if_root) => Ok(
                                WorkflowTextsView {
                                    node_selector_if_root,
                                    mutexes,
                                    mutexes_if_root,
                                    tolerations_if_root,
                                    affinity_if_root,
                                    pod_spec_patch_if_root,
                                },
                            ),
                        },
                    },
                },
            },
        },
    }
}

fn lower_workflow_texts(a: &WorkflowArgs, own: &InjectCtx, root: &InjectCtx) -> (r: Result<
    WorkflowTexts,
    String,
>)
    ensures
        agrees(r, workflow_texts_of(*a, own.deep_view(), root.deep_view())),
{
    let node_selector_if_root: Vec<(String, String)> = match inject_pairs(
        &a.node_selector_if_root,
        root,
    ) {
        Ok(v) => v,
        Err(m) => {
            return Err(m);
        },
    };
    let mutexes: Vec<(String, String)> = match lower_mutex_pairs(&a.mutexes, own) {
        Ok(v) => v,
        Err(m) => {
            return Err(m);
        },
    };
    let mutexes_if_root: Vec<(String, String)> = match lower_mutex_pairs(
        &a.mutexes_if_root,
        root,
    ) {
        Ok(v) => v,
        Err(m) => {
            return Err(m);
        },
    };
    let tolerations_if_root: Vec<TolerationTuple> = match lower_toleration_args(
        &a.tolerations_if_root,
        root,
    ) {
        Ok(v) => v,
        Err(m) => {
            return Err(m);
        },
    };
    let affinity_if_root: Option<String> = match inject_opt(&a.affinity_if_root, root) {
        Ok(v) => v,
        Err(m) => {
            return Err(m);
        },
    };
    match inject_opt(&a.pod_spec_patch_if_root, root) {
        Ok(pod_spec_patch_if_root) => Ok(
            WorkflowTexts {
                node_selector_if_root,
                mutexes,
                mutexes_if_root,
                tolerations_if_root,
                affinity_if_root,
                pod_spec_patch_if_root,
            },
        ),
        Err(m) => Err(m),
    }
}

pub open spec fn boundary_of(a: WorkflowArgs) -> Result<BoundaryView, Seq<char>> {
    match map_res(a.boundary_tolerations.deep_view(), boundary_toleration_fn()) {
        Err(m) => Err(m),
        Ok(tolerations) => match parallelism_of(a.parallelism, "parallelism"@) {
            Err(m) => Err(m),
            Ok(parallelism) => Ok(
                BoundaryView {
                    node_selector: a.boundary_node_selector.deep_view(),
                    tolerations,
                    affinity: a.boundary_affinity.deep_view(),
                    annotations: a.annotations.deep_view(),
                    parallelism,
                },
            ),
        },
    }
}

/// A copy of a list of pairs.
pub fn copy_pairs(v: &Vec<(String, String)>) -> (r: Vec<(String, String)>)
    ensures
        r.deep_view() == v.deep_view(),
{
    let mut out: Vec<(String, String)> = Vec::new();
    let ghost all = v.deep_view();
    let mut i: usize = 0;
    proof {
        assert(out.deep_view() =~= all.take(0));
    }
    while i < v.len()
        invariant
            all == v.deep_view(),
            i <= v@.len(),
            out.deep_view() == all.take(i as int),
        decreases v@.len() - i,
    {
        let ghost before = out.deep_view();
        out.push((v[i].0.clone(), v[i].1.clone()));
        proof {
            assert(out.deep_view() =~= before.push(v@[i as int].deep_view()));
            assert(out.deep_view() =~= all.take(i + 1));
        }
        i = i + 1;
    }
    proof {
        assert(all.take(i as int) =~= all);
    }
    out
}

fn lower_boundary(a: &WorkflowArgs) -> (r: Result<Boundary, String>)
    ensures
        agrees(r, boundary_of(*a)),
{
    let tolerations: Vec<TolerationTuple> = match check_boundary_tolerations(
        &a.boundary_tolerations,
    ) {
        Ok(v) => v,
        Err(m) => {
            return Err(m);
        },
    };
    match parallelism(a.parallelism, "parallelism") {
        Ok(p) => Ok(
            Boundary {
                node_selector: copy_pairs(&a.boundary_node_selector),
                tolerations,
                affinity: a.boundary_affinity.dup(),
                annotations: copy_pairs(&a.annotations),
                parallelism: p,
            },
        ),
        Err(m) => Err(m),
    }
}

/// Whether a body declares what only a pod can have.
pub open spec fn declares(s: BodyScanView) -> bool {
    s.host_paths.len() > 0 || s.in_artifacts.len() > 0 || s.out_artifacts.len() > 0
        || s.secrets.len() > 0
}

/// The templates that a workflow names: the callees of its tasks, their hooks, and
/// its exit handler.
pub open spec fn workflow_callees(nodes: Seq<NodeView>, on_exit: Option<PathView>) -> Seq<PathView> {
    distinct_paths(
        nodes,
        match on_exit {
            Some(p) => seq![p],
            None => Seq::empty(),
        },
    )
}

/// What a `#[workflow]` function of the crate `krate` declares.
pub open spec fn workflow_decl_of(f: FnDecl, a: WorkflowArgs, krate: Seq<char>) -> Result<
    WorkflowDeclView,
    Seq<char>,
> {
    let sig = signature_of(args_of(f.params@));
    let own = InjectView { args: sig.inputs, scope: "inputs.parameters"@, kind: "workflow"@ };
    let root = InjectView { args: sig.inputs, scope: "workflow.parameters"@, kind: "workflow"@ };
    let name = argo_name(a.name.deep_view(), krate, f.name@);
    if f.is_async {
        Err(ASYNC_WORKFLOW@)
    } else {
        match template_problem(f, a.name.deep_view(), "workflow"@) {
            Some(m) => Err(m),
            None => if declares(scan_of(found_in_stmts(f.body@))) {
                Err(DECLS_IN_WORKFLOW@)
            } else {
                match analyzed(f, name) {
                    Err(m) => Err(m),
                    Ok(an) => match workflow_texts_of(a, own, root) {
                        Err(m) => Err(m),
                        Ok(texts) => match boundary_of(a) {
                            Err(m) => Err(m),
                            Ok(boundary) => match limits_of(
                                a.retry,
                                None,
                                None,
                                a.active_deadline_if_root,
                                a.ttl_if_root,
                                a.pod_gc_if_root,
                            ) {
                                Err(m) => Err(m),
                                Ok(limits) => match parallelism_of(
                                    a.parallelism_if_root,
                                    "parallelism_if_root"@,
                                ) {
                                    Err(m) => Err(m),
                                    Ok(parallelism_if_root) => Ok(
                                        WorkflowDeclView {
                                            argo_name: name,
                                            signature: sig,
                                            output_kind: output_kind_of(f),
                                            steps: a.steps,
                                            nodes: an.nodes,
                                            output_task: an.output_task,
                                            synths: an.synths,
                                            callees: workflow_callees(
                                                an.nodes,
                                                a.on_exit_if_root.deep_view(),
                                            ),
                                            texts,
                                            boundary,
                                            limits,
                                            image_pull_secrets_if_root:
                                                a.image_pull_secrets_if_root.deep_view(),
                                            parallelism_if_root,
                                            on_exit_if_root: a.on_exit_if_root.deep_view(),
                                        },
                                    ),
                                },
                            },
                        },
                    },
                }
            },
        }
    }
}

/// Reads a `#[workflow]` function: its name, its inputs, its tasks, and its
/// attributes.
pub fn declare_workflow(f: &FnDecl, a: &WorkflowArgs, krate: &str) -> (r: Result<
    WorkflowDecl,
    String,
>)
    ensures
        agrees(r, workflow_decl_of(*f, *a, krate@)),
{
    if f.is_async {
        return Err(ASYNC_WORKFLOW.to_owned());
    }
    let args: Vec<FnArg> = fn_args(f);
    match check_template(f, &args, &a.name, "workflow") {
        Ok(_) => {},
        Err(m) => {
            return Err(m);
        },
    }
    let scan: BodyScan = scan_body(f);
    proof {
        let s = scan.deep_view();
        assert(s.host_paths.len() == scan.host_paths@.len());
        assert(s.in_artifacts.len() == scan.in_artifacts@.len());
        assert(s.out_artifacts.len() == scan.out_artifacts@.len());
        assert(s.secrets.len() == scan.secrets@.len());
    }
    if scan.host_paths.len() > 0 || scan.in_artifacts.len() > 0 || scan.out_artifacts.len() > 0
        || scan.secrets.len() > 0 {
        return Err(DECLS_IN_WORKFLOW.to_owned());
    }
    let name: String = make_argo_name(&a.name, krate, f.name.as_str());
    let an: Analyzed = match analyze_workflow(f, name.as_str()) {
        Ok(v) => v,
        Err(m) => {
            return Err(m);
        },
    };
    let sig: Signature = signature(&args);
    let texts: WorkflowTexts;
    {
        let own: InjectCtx = InjectCtx {
            args: &sig.inputs,
            scope: "inputs.parameters",
            kind: "workflow",
        };
        let root: InjectCtx = InjectCtx {
            args: &sig.inputs,
            scope: "workflow.parameters",
            kind: "workflow",
        };
        texts = match lower_workflow_texts(a, &own, &root) {
            Ok(t) => t,
            Err(m) => {
                return Err(m);
            },
        };
    }
    let boundary: Boundary = match lower_boundary(a) {
        Ok(b) => b,
        Err(m) => {
            return Err(m);
        },
    };
    let limits: Limits = match lower_limits(
        &a.retry,
        &None,
        &None,
        &a.active_deadline_if_root,
        &a.ttl_if_root,
        &a.pod_gc_if_root,
    ) {
        Ok(l) => l,
        Err(m) => {
            return Err(m);
        },
    };
    let parallelism_if_root: Option<i64> = match parallelism(
        a.parallelism_if_root,
        "parallelism_if_root",
    ) {
        Ok(p) => p,
        Err(m) => {
            return Err(m);
        },
    };
    let mut extra: Vec<Path> = Vec::new();
    match &a.on_exit_if_root {
        Some(p) => {
            extra.push(p.dup());
            proof {
                assert(extra.deep_view() =~= seq![p.deep_view()]);
            }
        },
        None => {
            proof {
                assert(extra.deep_view() =~= Seq::<PathView>::empty());
            }
        },
    }
    let callees: Vec<Path> = callee_paths(&an.nodes, &extra);
    Ok(
        WorkflowDecl {
            argo_name: name,
            signature: sig,
            output_kind: output_kind(f),
            steps: a.steps,
            nodes: an.nodes,
            output_task: an.output_task,
            synths: an.synths,
            callees,
            texts,
            boundary,
            limits,
            image_pull_secrets_if_root: a.image_pull_secrets_if_root.dup(),
            parallelism_if_root,
            on_exit_if_root: a.on_exit_if_root.dup(),
        },
    )
}

// ---- the templates that tasks name ----------------------------------------------------
/// The templates that paths in a workflow stand for, by the text of the path.
pub struct Registry {
    pub entries: Vec<(String, TemplateInfo)>,
}

impl DeepView for Registry {
    type V = Seq<(Seq<char>, TemplateInfoView)>;

    open spec fn deep_view(&self) -> Seq<(Seq<char>, TemplateInfoView)> {
        self.entries.deep_view()
    }
}

pub type Known = Seq<(Seq<char>, TemplateInfoView)>;

/// The template that a path stands for.
pub open spec fn known_as(reg: Known, text: Seq<char>) -> Option<TemplateInfoView>
    decreases reg.len(),
{
    if reg.len() == 0 {
        None
    } else if reg[0].0 == text {
        Some(reg[0].1)
    } else {
        known_as(reg.drop_first(), text)
    }
}

impl Registry {
    /// The template that a path stands for.
    pub fn find(&self, text: &str) -> (r: Option<&TemplateInfo>)
        ensures
            r.deep_view() == known_as(self.deep_view(), text@),
    {
        let ghost all = self.deep_view();
        let mut i: usize = 0;
        proof {
            assert(all.skip(0) =~= all);
        }
        while i < self.entries.len()
            invariant
                all == self.deep_view(),
                i <= self.entries@.len(),
                known_as(all, text@) == known_as(all.skip(i as int), text@),
            decreases self.entries@.len() - i,
        {
            proof {
                assert(all.skip(i as int)[0] == self.entries@[i as int].deep_view());
                assert(all.skip(i as int).drop_first() =~= all.skip(i + 1));
            }
            if str_eq(self.entries[i].0.as_str(), text) {
                return Some(&self.entries[i].1);
            }
            i = i + 1;
        }
        None
    }
}

pub open spec fn unknown_template(text: Seq<char>) -> Seq<char> {
    "cannot find template `"@ + text + "`"@
}

/// The template of a hook, where the hook can be written.
pub open spec fn hook_info(h: HookView, reg: Known) -> Result<TemplateInfoView, Seq<char>> {
    match known_as(reg, h.template.text) {
        None => Err(unknown_template(h.template.text)),
        Some(info) => if h.args.len() > info.inputs.len() {
            Err(
                "hook template `"@ + info.argo_name + "` declares "@ + dec(info.inputs.len())
                    + " input(s) but the hook call passes "@ + (dec(h.args.len()) + " arg(s)"@),
            )
        } else {
            Ok(info)
        },
    }
}

pub open spec fn hook_info_fn(reg: Known) -> spec_fn(HookView) -> Result<
    TemplateInfoView,
    Seq<char>,
> {
    |h: HookView| hook_info(h, reg)
}

/// A task on the wire, where its templates are known.
pub open spec fn node_wire(n: NodeView, reg: Known, steps: bool) -> Result<DagTaskView, Seq<char>> {
    match known_as(reg, n.callee.text) {
        None => Err(unknown_template(n.callee.text)),
        Some(info) => match map_res(n.hooks, hook_info_fn(reg)) {
            Err(m) => Err(m),
            Ok(infos) => Ok(task_of(n, info, infos, steps)),
        },
    }
}

pub open spec fn node_wire_fn(reg: Known, steps: bool) -> spec_fn(NodeView) -> Result<
    DagTaskView,
    Seq<char>,
> {
    |n: NodeView| node_wire(n, reg, steps)
}

fn copy_info(i: &TemplateInfo) -> (r: TemplateInfo)
    ensures
        r.deep_view() == i.deep_view(),
{
    let mut kinds: Vec<IoKind> = Vec::new();
    let mut k: usize = 0;
    while k < i.input_kinds.len()
        invariant
            k <= i.input_kinds@.len(),
            kinds@ == i.input_kinds@.take(k as int),
        decreases i.input_kinds@.len() - k,
    {
        kinds.push(i.input_kinds[k]);
        k = k + 1;
        proof {
            assert(kinds@ =~= i.input_kinds@.take(k as int));
        }
    }
    proof {
        assert(kinds@ =~= i.input_kinds@);
    }
    TemplateInfo { argo_name: i.argo_name.clone(), inputs: i.inputs.dup(), input_kinds: kinds }
}

fn find_hook(h: &Hook, reg: &Registry) -> (r: Result<TemplateInfo, String>)
    ensures
        agrees(r, hook_info(h.deep_view(), reg.deep_view())),
{
    match reg.find(h.template.text.as_str()) {
        None => Err(cat3("cannot find template `", h.template.text.as_str(), "`")),
        Some(info) => {
            proof {
                assert(h.deep_view().args.len() == h.args@.len());
                assert(info.deep_view().inputs.len() == info.inputs@.len());
            }
            if h.args.len() > info.inputs.len() {
                let a: String = decimal(info.inputs.len() as u128);
                let b: String = decimal(h.args.len() as u128);
                let mut m: String = cat5(
                    "hook template `",
                    info.argo_name.as_str(),
                    "` declares ",
                    a.as_str(),
                    " input(s) but the hook call passes ",
                );
                let end: String = crate::text::cat2(b.as_str(), " arg(s)");
                m.append(end.as_str());
                return Err(m);
            }
            Ok(copy_info(info))
        },
    }
}

fn find_hooks(hooks: &Vec<Hook>, reg: &Registry) -> (r: Result<Vec<TemplateInfo>, String>)
    ensures
        agrees(r, map_res(hooks.deep_view(), hook_info_fn(reg.deep_view()))),
{
    let ghost f = hook_info_fn(reg.deep_view());
    let ghost all = hooks.deep_view();
    let mut out: Vec<TemplateInfo> = Vec::new();
    let mut i: usize = 0;
    proof {
        lemma_map_res_all(all, f);
        assert(out.deep_view() =~= Seq::<TemplateInfoView>::empty());
    }
    while i < hooks.len()
        invariant
            f == hook_info_fn(reg.deep_view()),
            all == hooks.deep_view(),
            i <= hooks@.len(),
            map_res(all.take(i as int), f) == Ok::<Seq<TemplateInfoView>, Seq<char>>(
                out.deep_view(),
            ),
        decreases hooks@.len() - i,
    {
        proof {
            lemma_map_res_step(all, f, i as int);
            assert(all[i as int] == hooks@[i as int].deep_view());
        }
        let ghost before = out.deep_view();
        match find_hook(&hooks[i], reg) {
            Ok(t) => {
                let ghost tv = t.deep_view();
                out.push(t);
                proof {
                    assert(out.deep_view() =~= before.push(tv));
                }
            },
            Err(m) => {
                return Err(m);
            },
        }
        i = i + 1;
    }
    proof {
        lemma_map_res_all(all, f);
    }
    Ok(out)
}

/// Writes a task whose templates are looked up in `reg`.
pub fn lower_node(n: &Node, reg: &Registry, steps: bool) -> (r: Result<DagTask, String>)
    ensures
        agrees(r, node_wire(n.deep_view(), reg.deep_view(), steps)),
{
    match reg.find(n.callee.text.as_str()) {
        None => Err(cat3("cannot find template `", n.callee.text.as_str(), "`")),
        Some(info) => {
            match find_hooks(&n.hooks, reg) {
                Err(m) => Err(m),
                Ok(infos) => {
                    proof {
                        let hs = n.deep_view().hooks;
                        let f = hook_info_fn(reg.deep_view());
                        lemma_map_res_len(hs, f);
                        let iv = infos.deep_view();
                        assert forall|i: int| 0 <= i < hs.len() implies hook_fits(
                            #[trigger] hs[i],
                            iv[i],
                        ) by {
                            assert(f(hs[i]) == Ok::<TemplateInfoView, Seq<char>>(iv[i]));
                        }
                    }
                    Ok(node_task(n, info, &infos, steps))
                },
            }
        },
    }
}

/// Writes the tasks of a workflow.
pub fn lower_nodes(nodes: &Vec<Node>, reg: &Registry, steps: bool) -> (r: Result<
    Vec<DagTask>,
    String,
>)
    ensures
        agrees(r, map_res(nodes.deep_view(), node_wire_fn(reg.deep_view(), steps))),
{
    let ghost f = node_wire_fn(reg.deep_view(), steps);
    let ghost all = nodes.deep_view();
    let mut out: Vec<DagTask> = Vec::new();
    let mut i: usize = 0;
    proof {
        lemma_map_res_all(all, f);
        assert(out.deep_view() =~= Seq::<DagTaskView>::empty());
    }
    while i < nodes.len()
        invariant
            f == node_wire_fn(reg.deep_view(), steps),
            all == nodes.deep_view(),
            i <= nodes@.len(),
            map_res(all.take(i as int), f) == Ok::<Seq<DagTaskView>, Seq<char>>(out.deep_view()),
        decreases nodes@.len() - i,
    {
        proof {
            lemma_map_res_step(all, f, i as int);
            assert(all[i as int] == nodes@[i as int].deep_view());
        }
        let ghost before = out.deep_view();
        match lower_node(&nodes[i], reg, steps) {
            Ok(t) => {
                let ghost tv = t.deep_view();
                out.push(t);
                proof {
                    assert(out.deep_view() =~= before.push(tv));
                }
            },
            Err(m) => {
                return Err(m);
            },
        }
        i = i + 1;
    }
    proof {
        lemma_map_res_all(all, f);
    }
    Ok(out)
}

// ---- templates ------------------------------------------------------------------------
pub open spec fn named_artifacts(names: Seq<Seq<char>>) -> Seq<ArtifactView> {
    Seq::new(names.len(), |i: int| ArtifactView { name: names[i], ..ArtifactView::empty() })
}

fn name_artifacts(names: &Vec<String>) -> (r: Vec<Artifact>)
    ensures
        r.deep_view() == named_artifacts(names.deep_view()),
{
    let ghost want = named_artifacts(names.deep_view());
    let mut out: Vec<Artifact> = Vec::new();
    let mut i: usize = 0;
    proof {
        assert(out.deep_view() =~= want.take(0));
    }
    while i < names.len()
        invariant
            want == named_artifacts(names.deep_view()),
            i <= names@.len(),
            out.deep_view() == want.take(i as int),
        decreases names@.len() - i,
    {
        let mut a: Artifact = Artifact::default();
        a.name = names[i].clone();
        let ghost av = a.deep_view();
        let ghost before = out.deep_view();
        out.push(a);
        proof {
            assert(out.deep_view() =~= before.push(av));
            assert(out.deep_view() =~= want.take(i + 1));
        }
        i = i + 1;
    }
    proof {
        assert(want.take(i as int) =~= want);
    }
    out
}

/// The inputs of `kind` among all inputs.
pub open spec fn inputs_of_kind(s: SignatureView, n: nat, kind: IoKind) -> Seq<Seq<char>>
    decreases n,
{
    if n == 0 {
        Seq::empty()
    } else {
        let front = inputs_of_kind(s, (n - 1) as nat, kind);
        if n <= s.inputs.len() && n <= s.input_kinds.len() && s.input_kinds[n - 1] == kind {
            front.push(s.inputs[n - 1])
        } else {
            front
        }
    }
}

fn pick_inputs(s: &Signature, kind: IoKind) -> (r: Vec<String>)
    ensures
        r.deep_view() == inputs_of_kind(s.deep_view(), s.deep_view().inputs.len(), kind),
{
    let ghost sv = s.deep_view();
    let mut out: Vec<String> = Vec::new();
    let mut i: usize = 0;
    proof {
        assert(out.deep_view() =~= Seq::<Seq<char>>::empty());
    }
    while i < s.inputs.len()
        invariant
            sv == s.deep_view(),
            i <= s.inputs@.len(),
            out.deep_view() == inputs_of_kind(sv, i as nat, kind),
        decreases s.inputs@.len() - i,
    {
        if i < s.input_kinds.len() && s.input_kinds[i] == kind {
            let ghost before = out.deep_view();
            out.push(s.inputs[i].clone());
            proof {
                assert(out.deep_view() =~= before.push(s.inputs@[i as int]@));
            }
        }
        i = i + 1;
    }
    out
}

/// The inputs of a workflow: parameters and artifacts by name, or none at all.
pub open spec fn workflow_inputs(s: SignatureView) -> Option<InputsView> {
    if s.inputs.len() == 0 {
        None
    } else {
        Some(
            InputsView {
                parameters: declared_params(inputs_of_kind(s, s.inputs.len(), IoKind::Parameter)),
                artifacts: named_artifacts(inputs_of_kind(s, s.inputs.len(), IoKind::Artifact)),
            },
        )
    }
}

pub open spec fn returned_param(v: ValueFromView) -> OutputsView {
    OutputsView {
        parameters: seq![
            ParameterView { name: "return"@, value_from: Some(v), ..ParameterView::empty() },
        ],
        artifacts: Seq::empty(),
    }
}

/// How a workflow hands the result of its last task on.
pub open spec fn workflow_outputs(task: Option<Seq<char>>, kind: IoKind, steps: bool) -> Option<
    OutputsView,
> {
    match task {
        None => None,
        Some(t) => match kind {
            IoKind::Artifact => Some(
                OutputsView {
                    parameters: Seq::empty(),
                    artifacts: seq![
                        ArtifactView {
                            name: "return"@,
                            from: "{{"@ + task_scope(steps) + "."@ + t
                                + ".outputs.artifacts.return}}"@,
                            ..ArtifactView::empty()
                        },
                    ],
                },
            ),
            IoKind::Parameter => Some(
                returned_param(
                    ValueFromView {
                        parameter: "{{"@ + task_scope(steps) + "."@ + t
                            + ".outputs.parameters.return}}"@,
                        ..ValueFromView::empty()
                    },
                ),
            ),
        },
    }
}

fn return_value(v: ValueFrom) -> (r: Outputs)
    ensures
        r.deep_view() == returned_param(v.deep_view()),
{
    let ghost vv = v.deep_view();
    let mut parameters: Vec<Parameter> = Vec::new();
    parameters.push(
        Parameter {
            name: "return".to_owned(),
            value: None,
            default_value: None,
            value_from: Some(v),
        },
    );
    let r: Outputs = Outputs { parameters, artifacts: Vec::new() };
    proof {
        assert(r.deep_view().parameters[0] =~= returned_param(vv).parameters[0]);
        assert(r.deep_view() =~= returned_param(vv));
    }
    r
}

fn build_workflow_outputs(task: &Option<String>, kind: IoKind, steps: bool) -> (r: Option<Outputs>)
    ensures
        r.deep_view() == workflow_outputs(task.deep_view(), kind, steps),
{
    match task {
        None => None,
        Some(t) => {
            let scope: &str = if steps {
                "steps"
            } else {
                "tasks"
            };
            match kind {
                IoKind::Artifact => {
                    let mut a: Artifact = Artifact::default();
                    a.name = "return".to_owned();
                    a.from = cat5("{{", scope, ".", t.as_str(), ".outputs.artifacts.return}}");
                    let ghost av = a.deep_view();
                    let mut artifacts: Vec<Artifact> = Vec::new();
                    artifacts.push(a);
                    let parameters: Vec<Parameter> = Vec::new();
                    proof {
                        assert(artifacts.deep_view() =~= seq![av]);
                        assert(parameters.deep_view() =~= Seq::<ParameterView>::empty());
                    }
                    Some(Outputs { parameters, artifacts })
                },
                IoKind::Parameter => Some(
                    return_value(
                        ValueFrom {
                            path: String::new(),
                            parameter: cat5(
                                "{{",
                                scope,
                                ".",
                                t.as_str(),
                                ".outputs.parameters.return}}",
                            ),
                            expression: String::new(),
                        },
                    ),
                ),
            }
        },
    }
}

pub open spec fn one_each(tasks: Seq<DagTaskView>) -> Seq<Seq<DagTaskView>> {
    Seq::new(tasks.len(), |i: int| seq![tasks[i]])
}

fn group_each(tasks: Vec<DagTask>) -> (r: Vec<Vec<DagTask>>)
    ensures
        r.deep_view() == one_each(tasks.deep_view()),
{
    let ghost want = one_each(tasks.deep_view());
    let mut out: Vec<Vec<DagTask>> = Vec::new();
    let mut i: usize = 0;
    proof {
        assert(out.deep_view() =~= want.take(0));
    }
    while i < tasks.len()
        invariant
            want == one_each(tasks.deep_view()),
            i <= tasks@.len(),
            out.deep_view() == want.take(i as int),
        decreases tasks@.len() - i,
    {
        let mut group: Vec<DagTask> = Vec::new();
        group.push(tasks[i].dup());
        let ghost gv = group.deep_view();
        let ghost before = out.deep_view();
        out.push(group);
        proof {
            assert(gv =~= seq![tasks@[i as int].deep_view()]);
            assert(out.deep_view() =~= before.push(gv));
            assert(out.deep_view() =~= want.take(i + 1));
        }
        i = i + 1;
    }
    proof {
        assert(want.take(i as int) =~= want);
    }
    out
}

/// The template of a declared workflow with these tasks.
pub open spec fn workflow_with(
    d: WorkflowDeclView,
    tasks: Seq<DagTaskView>,
    affinity: Option<Seq<char>>,
) -> TemplateView {
    TemplateView {
        name: d.argo_name,
        metadata: metadata_of(d.boundary.annotations),
        inputs: workflow_inputs(d.signature),
        outputs: workflow_outputs(d.output_task, d.output_kind, d.steps),
        dag: if d.steps {
            None
        } else {
            Some(DagTemplateView { tasks })
        },
        steps: if d.steps {
            one_each(tasks)
        } else {
            Seq::empty()
        },
        node_selector: pairs_map(d.boundary.node_selector),
        retry_strategy: d.limits.retry,
        synchronization: synchronization_of(d.texts.mutexes),
        tolerations: toleration_views(d.boundary.tolerations),
        affinity,
        parallelism: d.boundary.parallelism,
        ..TemplateView::empty()
    }
}

/// The template of a declared workflow, whose callees are looked up in `reg`.
pub open spec fn workflow_template_of(d: WorkflowDeclView, reg: Known) -> Result<
    TemplateView,
    Seq<char>,
> {
    match map_res(d.nodes, node_wire_fn(reg, d.steps)) {
        Err(m) => Err(m),
        Ok(tasks) => match affinity_of(d.boundary.affinity, "boundary_affinity"@) {
            Err(m) => Err(m),
            Ok(affinity) => Ok(workflow_with(d, tasks, affinity)),
        },
    }
}

/// Builds the template of a declared workflow from its tasks.
pub fn build_workflow_with(
    d: &WorkflowDecl,
    tasks: Vec<DagTask>,
    affinity: Option<String>,
) -> (r: Template)
    ensures
        r.deep_view() == workflow_with(d.deep_view(), tasks.deep_view(), affinity.deep_view()),
{
    let mut t: Template = Template::default();
    t.name = d.argo_name.clone();
    t.metadata = metadata_from(&d.boundary.annotations);
    proof {
        assert(d.deep_view().signature.inputs.len() == d.signature.inputs@.len());
    }
    if d.signature.inputs.len() > 0 {
        let params: Vec<String> = pick_inputs(&d.signature, IoKind::Parameter);
        let arts: Vec<String> = pick_inputs(&d.signature, IoKind::Artifact);
        t.inputs = Some(
            Inputs { parameters: declare_params(&params), artifacts: name_artifacts(&arts) },
        );
    }
    t.outputs = build_workflow_outputs(&d.output_task, d.output_kind, d.steps);
    if d.steps {
        t.steps = group_each(tasks);
    } else {
        t.dag = Some(DagTemplate { tasks });
    }
    t.node_selector = map_from_pairs(&d.boundary.node_selector);
    t.retry_strategy = d.limits.retry.dup();
    t.synchronization = template_synchronization(&d.texts.mutexes);
    t.tolerations = template_tolerations(&d.boundary.tolerations);
    t.affinity = affinity;
    t.parallelism = d.boundary.parallelism;
    t
}

/// Builds the template of a declared workflow.
pub fn build_workflow(d: &WorkflowDecl, reg: &Registry) -> (r: Result<Template, String>)
    ensures
        agrees(r, workflow_template_of(d.deep_view(), reg.deep_view())),
{
    let tasks: Vec<DagTask> = match lower_nodes(&d.nodes, reg, d.steps) {
        Ok(t) => t,
        Err(m) => {
            return Err(m);
        },
    };
    match check_affinity(&d.boundary.affinity, "boundary_affinity") {
        Err(m) => Err(m),
        Ok(affinity) => Ok(build_workflow_with(d, tasks, affinity)),
    }
}

// ---- workflows of `if`s -----------------------------------------------------------------
/// The expression that picks the result of the arm that succeeded; the last arm is
/// what is left.
pub open spec fn select_text(arms: Seq<Seq<char>>) -> Seq<char>
    decreases arms.len(),
{
    if arms.len() == 0 {
        Seq::empty()
    } else if arms.len() == 1 {
        "tasks['"@ + arms[0] + "'].outputs.parameters.return"@
    } else {
        "tasks['"@ + arms[0] + "'].status == 'Succeeded' ? tasks['"@ + arms[0]
            + "'].outputs.parameters.return : "@ + select_text(arms.drop_first())
    }
}

/// Renders the expression that picks the result of the arm that succeeded.
pub fn select_expr(arms: &Vec<String>) -> (r: String)
    requires
        arms@.len() > 0,
    ensures
        r@ == select_text(arms.deep_view()),
{
    let ghost all = arms.deep_view();
    let mut n: usize = arms.len() - 1;
    let mut acc: String = cat3("tasks['", arms[n].as_str(), "'].outputs.parameters.return");
    proof {
        assert(all.skip(n as int)[0] == arms@[n as int]@);
    }
    while n > 0
        invariant
            all == arms.deep_view(),
            n < arms@.len(),
            acc@ == select_text(all.skip(n as int)),
        decreases n,
    {
        n = n - 1;
        let mut s: String = cat5(
            "tasks['",
            arms[n].as_str(),
            "'].status == 'Succeeded' ? tasks['",
            arms[n].as_str(),
            "'].outputs.parameters.return : ",
        );
        s.append(acc.as_str());
        proof {
            assert(all.skip(n as int)[0] == arms@[n as int]@);
            assert(all.skip(n as int).drop_first() =~= all.skip(n + 1));
        }
        acc = s;
    }
    proof {
        assert(all.skip(0) =~= all);
    }
    acc
}

pub open spec fn synth_outputs(o: SynthOutView) -> Result<Option<OutputsView>, Seq<char>> {
    match o {
        SynthOutView::Nothing => Ok(None),
        SynthOutView::Terminal(t) => Ok(
            Some(
                returned_param(
                    ValueFromView {
                        parameter: "{{tasks."@ + t + ".outputs.parameters.return}}"@,
                        ..ValueFromView::empty()
                    },
                ),
            ),
        ),
        SynthOutView::Select(arms) => if arms.len() == 0 {
            Err(NO_ARMS@)
        } else {
            Ok(
                Some(
                    returned_param(
                        ValueFromView { expression: select_text(arms), ..ValueFromView::empty() },
                    ),
                ),
            )
        },
    }
}

pub open spec fn synth_with(
    s: SynthWfView,
    tasks: Seq<DagTaskView>,
    outputs: Option<OutputsView>,
) -> TemplateView {
    TemplateView {
        name: s.argo_name,
        inputs: if s.inputs.len() == 0 {
            None
        } else {
            Some(
                InputsView { parameters: declared_params(s.inputs), artifacts: Seq::empty() },
            )
        },
        outputs,
        dag: Some(DagTemplateView { tasks }),
        ..TemplateView::empty()
    }
}

/// The template of a workflow that stands for an `if` or one of its arms.
pub open spec fn synth_template_of(s: SynthWfView, reg: Known) -> Result<TemplateView, Seq<char>> {
    match map_res(s.nodes, node_wire_fn(reg, false)) {
        Err(m) => Err(m),
        Ok(tasks) => match synth_outputs(s.output) {
            Err(m) => Err(m),
            Ok(outputs) => Ok(synth_with(s, tasks, outputs)),
        },
    }
}

/// Builds the template of a workflow that stands for an `if` or one of its arms.
pub fn emit_synth(s: &SynthWf, reg: &Registry) -> (r: Result<Template, String>)
    ensures
        agrees(r, synth_template_of(s.deep_view(), reg.deep_view())),
{
    let tasks: Vec<DagTask> = match lower_nodes(&s.nodes, reg, false) {
        Ok(t) => t,
        Err(m) => {
            return Err(m);
        },
    };
    let outputs: Option<Outputs> = match &s.output {
        SynthOut::Nothing => None,
        SynthOut::Terminal(t) => Some(
            return_value(
                ValueFrom {
                    path: String::new(),
                    parameter: cat3("{{tasks.", t.as_str(), ".outputs.parameters.return}}"),
                    expression: String::new(),
                },
            ),
        ),
        SynthOut::Select(arms) => {
            proof {
                assert(arms.deep_view().len() == arms@.len());
            }
            if arms.len() == 0 {
                return Err(NO_ARMS.to_owned());
            }
            Some(
                return_value(
                    ValueFrom {
                        path: String::new(),
                        parameter: String::new(),
                        expression: select_expr(arms),
                    },
                ),
            )
        },
    };
    let mut t: Template = Template::default();
    t.name = s.argo_name.clone();
    proof {
        assert(s.deep_view().inputs.len() == s.inputs@.len());
    }
    if s.inputs.len() > 0 {
        let none: Vec<Artifact> = Vec::new();
        proof {
            assert(none.deep_view() =~= Seq::<ArtifactView>::empty());
        }
        t.inputs = Some(Inputs { parameters: declare_params(&s.inputs), artifacts: none });
    }
    t.outputs = outputs;
    t.dag = Some(DagTemplate { tasks });
    Ok(t)
}

} // verus!
