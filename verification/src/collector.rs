//! Gathering the templates of a run, and what is written of them.

use crate::api;
use crate::api::{
    LifecycleHook, LifecycleHookView, LocalObjectReference, LocalObjectReferenceView, ObjectMeta,
    ObjectMetaView, PodGc, PodGcView, Synchronization, SynchronizationView, TemplateView,
    TtlStrategy, TtlStrategyView, Workflow, WorkflowSpec, WorkflowSpecView, WorkflowTemplate,
    WorkflowTemplateRef, WorkflowTemplateRefView, WorkflowTemplateView, WorkflowView, API_VERSION,
    KIND_WORKFLOW, KIND_WORKFLOW_TEMPLATE,
};
use crate::attrs::{
    mutex_list, mutex_views, template_tolerations, toleration_views, TolerationText,
    TolerationTuple,
};
use crate::claims::claim_templates;
use crate::container::{affinity_of, check_affinity};
use crate::context::{labels_of, BuildCtx, BuildCtxView};
use crate::folds::{lemma_map_res_all, lemma_map_res_len, lemma_map_res_step, map_res};
use crate::lower::{make_ref, ref_of, IoKind};
use crate::maps::{Data, TextMap};
use crate::node::agrees;
use crate::outside::{debug_str, debug_text};
use crate::run_meta::{meta_of, ContainerRunMeta, ContainerRunMetaView};
use crate::signature::{argv_problem, check_argv};
use crate::sorted::{arranged, in_order_by, law_arranged, lemma_place_at, place};
use crate::text::{cat2, cat3, cat5, has_str, join, joined, less, str_eq, text_leq, text_less};
use crate::workflow::{copy_pairs, copy_tolerations};
use vstd::prelude::*;

verus! {

/// What kind of template a declaration gives.
#[derive(Clone, Copy, PartialEq, Eq, Debug, Structural)]
pub enum TemplateKind {
    /// A leaf: real code in a pod.
    Container,
    /// A composition of other templates.
    Workflow,
}

/// What only the root of a run is given: it has no effect where the template is called from another.
pub struct RootAttrs {
    pub on_exit: Option<String>,
    pub ttl: Option<TtlStrategy>,
    pub pod_gc: Option<String>,
    pub active_deadline: Option<i64>,
    pub node_selector: Vec<(String, String)>,
    pub mutexes: Vec<(String, String)>,
    pub tolerations: Vec<TolerationTuple>,
    pub affinity: Option<String>,
    pub pod_spec_patch: Option<String>,
    pub image_pull_secrets: Vec<String>,
    pub parallelism: Option<i64>,
}

#[verifier::ext_equal]
pub struct RootAttrsView {
    pub on_exit: Option<Seq<char>>,
    pub ttl: Option<TtlStrategyView>,
    pub pod_gc: Option<Seq<char>>,
    pub active_deadline: Option<i64>,
    pub node_selector: Seq<(Seq<char>, Seq<char>)>,
    pub mutexes: Seq<(Seq<char>, Seq<char>)>,
    pub tolerations: Seq<TolerationText>,
    pub affinity: Option<Seq<char>>,
    pub pod_spec_patch: Option<Seq<char>>,
    pub image_pull_secrets: Seq<Seq<char>>,
    pub parallelism: Option<i64>,
}

impl DeepView for RootAttrs {
    type V = RootAttrsView;

    open spec fn deep_view(&self) -> RootAttrsView {
        RootAttrsView {
            on_exit: self.on_exit.deep_view(),
            ttl: self.ttl.deep_view(),
            pod_gc: self.pod_gc.deep_view(),
            active_deadline: self.active_deadline,
            node_selector: self.node_selector.deep_view(),
            mutexes: self.mutexes.deep_view(),
            tolerations: self.tolerations.deep_view(),
            affinity: self.affinity.deep_view(),
            pod_spec_patch: self.pod_spec_patch.deep_view(),
            image_pull_secrets: self.image_pull_secrets.deep_view(),
            parallelism: self.parallelism,
        }
    }
}
/// What a template is known by, and what it asks for where it is the root of a run.
pub struct Identity {
    pub argo_name: String,
    pub inputs: Vec<String>,
    pub input_types: Vec<String>,
    pub input_kinds: Vec<IoKind>,
    pub output_kind: IoKind,
    pub synthetic: bool,
    pub kind: TemplateKind,
    pub root: RootAttrs,
}

#[verifier::ext_equal]
pub struct IdentityView {
    pub argo_name: Seq<char>,
    pub inputs: Seq<Seq<char>>,
    pub input_types: Seq<Seq<char>>,
    pub input_kinds: Seq<IoKind>,
    pub output_kind: IoKind,
    pub synthetic: bool,
    pub kind: TemplateKind,
    pub root: RootAttrsView,
}

impl DeepView for Identity {
    type V = IdentityView;

    open spec fn deep_view(&self) -> IdentityView {
        IdentityView {
            argo_name: self.argo_name@,
            inputs: self.inputs.deep_view(),
            input_types: self.input_types.deep_view(),
            input_kinds: self.input_kinds@,
            output_kind: self.output_kind,
            synthetic: self.synthetic,
            kind: self.kind,
            root: self.root.deep_view(),
        }
    }
}

impl RootAttrsView {
    pub open spec fn empty() -> RootAttrsView {
        RootAttrsView {
            on_exit: None,
            ttl: None,
            pod_gc: None,
            active_deadline: None,
            node_selector: Seq::empty(),
            mutexes: Seq::empty(),
            tolerations: Seq::empty(),
            affinity: None,
            pod_spec_patch: None,
            image_pull_secrets: Seq::empty(),
            parallelism: None,
        }
    }
}

impl Default for RootAttrs {
    fn default() -> (r: RootAttrs)
        ensures
            r.deep_view() == RootAttrsView::empty(),
    {
        let r: RootAttrs = RootAttrs {
            on_exit: None,
            ttl: None,
            pod_gc: None,
            active_deadline: None,
            node_selector: Vec::new(),
            mutexes: Vec::new(),
            tolerations: Vec::new(),
            affinity: None,
            pod_spec_patch: None,
            image_pull_secrets: Vec::new(),
            parallelism: None,
        };
        proof {
            assert(r.deep_view() =~= RootAttrsView::empty());
        }
        r
    }
}

pub open spec fn first_some<A>(a: Option<A>, b: Option<A>) -> Option<A> {
    if a is Some {
        a
    } else {
        b
    }
}

pub open spec fn first_filled<A>(a: Seq<A>, b: Seq<A>) -> Seq<A> {
    if a.len() > 0 {
        a
    } else {
        b
    }
}

/// What a template asks for when it is registered again: what is given the second
/// time stands, the rest stays.
pub open spec fn overlaid(new: RootAttrsView, old: RootAttrsView) -> RootAttrsView {
    RootAttrsView {
        on_exit: first_some(new.on_exit, old.on_exit),
        ttl: first_some(new.ttl, old.ttl),
        pod_gc: first_some(new.pod_gc, old.pod_gc),
        active_deadline: first_some(new.active_deadline, old.active_deadline),
        node_selector: first_filled(new.node_selector, old.node_selector),
        mutexes: first_filled(new.mutexes, old.mutexes),
        tolerations: first_filled(new.tolerations, old.tolerations),
        affinity: first_some(new.affinity, old.affinity),
        pod_spec_patch: first_some(new.pod_spec_patch, old.pod_spec_patch),
        image_pull_secrets: first_filled(new.image_pull_secrets, old.image_pull_secrets),
        parallelism: first_some(new.parallelism, old.parallelism),
    }
}

fn overlay(new: RootAttrs, before: &RootAttrs) -> (r: RootAttrs)
    ensures
        r.deep_view() == overlaid(new.deep_view(), before.deep_view()),
{
    proof {
        let v = new.deep_view();
        assert(v.node_selector.len() == new.node_selector@.len());
        assert(v.mutexes.len() == new.mutexes@.len());
        assert(v.tolerations.len() == new.tolerations@.len());
        assert(v.image_pull_secrets.len() == new.image_pull_secrets@.len());
    }
    RootAttrs {
        on_exit: if new.on_exit.is_some() {
            new.on_exit
        } else {
            before.on_exit.dup()
        },
        ttl: if new.ttl.is_some() {
            new.ttl
        } else {
            before.ttl.dup()
        },
        pod_gc: if new.pod_gc.is_some() {
            new.pod_gc
        } else {
            before.pod_gc.dup()
        },
        active_deadline: if new.active_deadline.is_some() {
            new.active_deadline
        } else {
            before.active_deadline
        },
        node_selector: if new.node_selector.len() > 0 {
            new.node_selector
        } else {
            copy_pairs(&before.node_selector)
        },
        mutexes: if new.mutexes.len() > 0 {
            new.mutexes
        } else {
            copy_pairs(&before.mutexes)
        },
        tolerations: if new.tolerations.len() > 0 {
            new.tolerations
        } else {
            copy_tolerations(&before.tolerations)
        },
        affinity: if new.affinity.is_some() {
            new.affinity
        } else {
            before.affinity.dup()
        },
        pod_spec_patch: if new.pod_spec_patch.is_some() {
            new.pod_spec_patch
        } else {
            before.pod_spec_patch.dup()
        },
        image_pull_secrets: if new.image_pull_secrets.len() > 0 {
            new.image_pull_secrets
        } else {
            before.image_pull_secrets.dup()
        },
        parallelism: if new.parallelism.is_some() {
            new.parallelism
        } else {
            before.parallelism
        },
    }
}

/// A template: what it is known by, and what it is built into.
pub trait Template: Sized {
    spec fn identity(&self) -> IdentityView;

    spec fn built(&self, ctx: BuildCtxView) -> Result<TemplateView, Seq<char>>;

    /// What the template is known by.
    fn identify(&self) -> (r: Identity)
        ensures
            r.deep_view() == self.identity(),
    ;

    /// Builds the inner template object.
    fn build(&self, ctx: &BuildCtx) -> (r: Result<api::Template, String>)
        ensures
            agrees(r, self.built(ctx.deep_view())),
    ;
}

// ---- the wrapper around one template -------------------------------------------------
/// A template as a resource of its own: its name is the template's and the
/// entrypoint's.
pub open spec fn wrapped(name: Seq<char>, inner: TemplateView) -> WorkflowTemplateView {
    WorkflowTemplateView {
        api_version: API_VERSION@,
        kind: KIND_WORKFLOW_TEMPLATE@,
        metadata: Some(ObjectMetaView { name, ..ObjectMetaView::empty() }),
        spec: Some(
            WorkflowSpecView {
                entrypoint: name,
                templates: seq![inner],
                ..WorkflowSpecView::empty()
            },
        ),
    }
}

/// Wraps a template as a resource of its own.
pub fn wrap_workflow_template(name: String, inner: api::Template) -> (r: WorkflowTemplate)
    ensures
        r.deep_view() == wrapped(name@, inner.deep_view()),
{
    let ghost iv = inner.deep_view();
    let mut meta: ObjectMeta = ObjectMeta::default();
    meta.name = name.clone();
    let mut spec: WorkflowSpec = WorkflowSpec::default();
    let mut templates: Vec<api::Template> = Vec::new();
    templates.push(inner);
    proof {
        assert(templates.deep_view() =~= seq![iv]);
    }
    spec.entrypoint = name;
    spec.templates = templates;
    WorkflowTemplate {
        api_version: API_VERSION.to_owned(),
        kind: KIND_WORKFLOW_TEMPLATE.to_owned(),
        metadata: Some(meta),
        spec: Some(spec),
    }
}

/// The name of a resource; without metadata it has an empty one.
pub open spec fn named(t: WorkflowTemplateView) -> Seq<char> {
    match t.metadata {
        Some(m) => m.name,
        None => Seq::empty(),
    }
}

/// The name of a resource.
pub fn name_of(t: &WorkflowTemplate) -> (r: String)
    ensures
        r@ == named(t.deep_view()),
{
    match &t.metadata {
        Some(m) => m.name.clone(),
        None => {
            let s: String = String::new();
            proof {
                assert(s@ =~= Seq::<char>::empty());
            }
            s
        },
    }
}

// ---- order ------------------------------------------------------------------------------
pub open spec fn name_key() -> spec_fn(WorkflowTemplateView) -> Seq<char> {
    |t: WorkflowTemplateView| named(t)
}

/// Resources in the order of their names; those with one name stay as they were.
pub open spec fn by_name(xs: Seq<WorkflowTemplateView>) -> Seq<WorkflowTemplateView> {
    arranged(xs, name_key())
}

fn insert_by_name(acc: &mut Vec<WorkflowTemplate>, x: WorkflowTemplate)
    ensures
        final(acc).deep_view() == place(old(acc).deep_view(), x.deep_view(), name_key()),
{
    let ghost a = acc.deep_view();
    let ghost xv = x.deep_view();
    let name: String = name_of(&x);
    let mut n: usize = 0;
    while n < acc.len() && !less(name.as_str(), name_of(&acc[n]).as_str())
        invariant
            acc.deep_view() == a,
            name@ == named(xv),
            n <= acc@.len(),
            forall|i: int| 0 <= i < n ==> !text_less(named(xv), named(#[trigger] a[i])),
        decreases acc@.len() - n,
    {
        proof {
            assert(a[n as int] == acc@[n as int].deep_view());
        }
        n = n + 1;
    }
    proof {
        if n < acc@.len() {
            assert(a[n as int] == acc@[n as int].deep_view());
        }
        lemma_place_at(a, xv, name_key(), n as int);
    }
    acc.insert(n, x);
    proof {
        assert(acc.deep_view() =~= a.insert(n as int, xv));
    }
}

// ---- what a root is given ------------------------------------------------------------------
pub open spec fn exit_hook(handler: Seq<char>) -> LifecycleHookView {
    LifecycleHookView { template_ref: Some(ref_of(handler)), ..LifecycleHookView::empty() }
}

/// The exit hook that runs the template `handler`.
pub fn exit_hook_ref(handler: &str) -> (r: LifecycleHook)
    ensures
        r.deep_view() == exit_hook(handler@),
{
    let mut h: LifecycleHook = LifecycleHook::default();
    h.template_ref = Some(make_ref(handler));
    h
}

pub open spec fn with_pairs(
    m: Map<Seq<char>, Seq<char>>,
    pairs: Seq<(Seq<char>, Seq<char>)>,
) -> Map<Seq<char>, Seq<char>>
    decreases pairs.len(),
{
    if pairs.len() == 0 {
        m
    } else {
        with_pairs(m, pairs.drop_last()).insert(pairs.last().0, pairs.last().1)
    }
}

fn insert_pairs(m: &mut TextMap<String>, pairs: &Vec<(String, String)>)
    ensures
        final(m).deep_view() == with_pairs(old(m).deep_view(), pairs.deep_view()),
{
    let ghost m0 = m.deep_view();
    let ghost all = pairs.deep_view();
    let mut i: usize = 0;
    proof {
        assert(all.take(0) =~= Seq::<(Seq<char>, Seq<char>)>::empty());
    }
    while i < pairs.len()
        invariant
            all == pairs.deep_view(),
            i <= pairs@.len(),
            m.deep_view() == with_pairs(m0, all.take(i as int)),
        decreases pairs@.len() - i,
    {
        proof {
            assert(all.take(i + 1).drop_last() =~= all.take(i as int));
            assert(all.take(i + 1).last() == pairs@[i as int].deep_view());
        }
        m.insert(pairs[i].0.clone(), pairs[i].1.clone());
        i = i + 1;
    }
    proof {
        assert(all.take(i as int) =~= all);
    }
}

pub open spec fn more_mutexes(
    s: Option<SynchronizationView>,
    pairs: Seq<(Seq<char>, Seq<char>)>,
) -> Option<SynchronizationView> {
    if pairs.len() == 0 {
        s
    } else {
        Some(
            SynchronizationView {
                mutexes: match s {
                    Some(v) => v.mutexes + mutex_views(pairs),
                    None => mutex_views(pairs),
                },
            },
        )
    }
}

pub open spec fn pull_refs(names: Seq<Seq<char>>) -> Seq<LocalObjectReferenceView> {
    Seq::new(names.len(), |i: int| LocalObjectReferenceView { name: names[i] })
}

fn pull_list(names: &Vec<String>) -> (r: Vec<LocalObjectReference>)
    ensures
        r.deep_view() == pull_refs(names.deep_view()),
{
    let ghost want = pull_refs(names.deep_view());
    let mut out: Vec<LocalObjectReference> = Vec::new();
    let mut i: usize = 0;
    proof {
        assert(out.deep_view() =~= want.take(0));
    }
    while i < names.len()
        invariant
            want == pull_refs(names.deep_view()),
            i <= names@.len(),
            out.deep_view() == want.take(i as int),
        decreases names@.len() - i,
    {
        let ghost before = out.deep_view();
        let x: LocalObjectReference = LocalObjectReference { name: names[i].clone() };
        let ghost xv = x.deep_view();
        out.push(x);
        proof {
            assert(out.deep_view() =~= before.push(xv));
            assert(out.deep_view() =~= want.take(i + 1));
        }
        i = i + 1;
    }
    proof {
        assert(want.take(i as int) =~= want);
    }
    out
}

/// A specification with what a template asks for as a root, its affinity checked.
pub open spec fn stamped_with(
    r: RootAttrsView,
    affinity: Option<Seq<char>>,
    spec: WorkflowSpecView,
) -> WorkflowSpecView {
    WorkflowSpecView {
        hooks: match r.on_exit {
            Some(h) => spec.hooks.insert("exit"@, exit_hook(h)),
            None => spec.hooks,
        },
        ttl_strategy: first_some(r.ttl, spec.ttl_strategy),
        pod_gc: match r.pod_gc {
            Some(s) => Some(PodGcView { strategy: s }),
            None => spec.pod_gc,
        },
        active_deadline_seconds: first_some(r.active_deadline, spec.active_deadline_seconds),
        node_selector: with_pairs(spec.node_selector, r.node_selector),
        synchronization: more_mutexes(spec.synchronization, r.mutexes),
        tolerations: spec.tolerations + toleration_views(r.tolerations),
        affinity: first_some(affinity, spec.affinity),
        pod_spec_patch: first_some(r.pod_spec_patch, spec.pod_spec_patch),
        image_pull_secrets: spec.image_pull_secrets + pull_refs(r.image_pull_secrets),
        parallelism: first_some(r.parallelism, spec.parallelism),
        ..spec
    }
}

/// A specification with what a template asks for as a root.
pub open spec fn stamped(r: RootAttrsView, spec: WorkflowSpecView) -> Result<
    WorkflowSpecView,
    Seq<char>,
> {
    match affinity_of(r.affinity, "affinity_if_root"@) {
        Err(m) => Err(m),
        Ok(a) => Ok(stamped_with(r, a, spec)),
    }
}

/// Puts what a template asks for as a root on a specification, its affinity
/// checked before.
pub fn stamp_with(r: &RootAttrs, affinity: Option<String>, before: WorkflowSpec) -> (s: WorkflowSpec)
    ensures
        s.deep_view() == stamped_with(r.deep_view(), affinity.deep_view(), before.deep_view()),
{
    let ghost b = before.deep_view();
    let mut spec: WorkflowSpec = before;
    match &r.on_exit {
        Some(h) => spec.hooks.insert("exit".to_owned(), exit_hook_ref(h.as_str())),
        None => {},
    }
    if r.ttl.is_some() {
        spec.ttl_strategy = r.ttl.dup();
    }
    match &r.pod_gc {
        Some(s) => {
            spec.pod_gc = Some(PodGc { strategy: s.clone() });
        },
        None => {},
    }
    if r.active_deadline.is_some() {
        spec.active_deadline_seconds = r.active_deadline;
    }
    insert_pairs(&mut spec.node_selector, &r.node_selector);
    proof {
        assert(r.deep_view().mutexes.len() == r.mutexes@.len());
    }
    if r.mutexes.len() > 0 {
        let mut more: Vec<api::Mutex> = mutex_list(&r.mutexes);
        let ghost mv = more.deep_view();
        let mut all: Vec<api::Mutex> = match &spec.synchronization {
            Some(s) => s.mutexes.dup(),
            None => Vec::new(),
        };
        let ghost av = all.deep_view();
        all.append(&mut more);
        proof {
            assert(all.deep_view() =~= av + mv);
            if b.synchronization is None {
                assert(av + mv =~= mv);
            }
        }
        spec.synchronization = Some(Synchronization { mutexes: all });
    }
    let mut tols: Vec<api::Toleration> = template_tolerations(&r.tolerations);
    let ghost tv = tols.deep_view();
    let ghost t0 = spec.tolerations.deep_view();
    spec.tolerations.append(&mut tols);
    proof {
        assert(spec.tolerations.deep_view() =~= t0 + tv);
    }
    if affinity.is_some() {
        spec.affinity = affinity;
    }
    if r.pod_spec_patch.is_some() {
        spec.pod_spec_patch = r.pod_spec_patch.dup();
    }
    let mut pulls: Vec<LocalObjectReference> = pull_list(&r.image_pull_secrets);
    let ghost pv = pulls.deep_view();
    let ghost p0 = spec.image_pull_secrets.deep_view();
    spec.image_pull_secrets.append(&mut pulls);
    proof {
        assert(spec.image_pull_secrets.deep_view() =~= p0 + pv);
    }
    if r.parallelism.is_some() {
        spec.parallelism = r.parallelism;
    }
    spec
}

/// Puts what a template asks for as a root on a specification.
pub fn stamp_root(r: &RootAttrs, spec: WorkflowSpec) -> (s: Result<WorkflowSpec, String>)
    ensures
        agrees(s, stamped(r.deep_view(), spec.deep_view())),
{
    match check_affinity(&r.affinity, "affinity_if_root") {
        Err(m) => Err(m),
        Ok(a) => Ok(stamp_with(r, a, spec)),
    }
}

/// Gives a resource the labels of the build, and the claims that every run makes for
/// itself.
pub fn dress(ctx: &BuildCtx, t: &WorkflowTemplate) -> (r: WorkflowTemplate)
    ensures
        r.deep_view() == dressed(ctx.deep_view(), t.deep_view()),
{
    let mut meta: ObjectMeta = match &t.metadata {
        Some(m) => m.dup(),
        None => ObjectMeta::default(),
    };
    meta.labels = ctx.labels();
    let spec: Option<WorkflowSpec> = match &t.spec {
        None => None,
        Some(s) => {
            let mut s2: WorkflowSpec = s.dup();
            s2.volume_claim_templates = ctx.claim_templates();
            Some(s2)
        },
    };
    WorkflowTemplate {
        api_version: t.api_version.clone(),
        kind: t.kind.clone(),
        metadata: Some(meta),
        spec,
    }
}

// ---- the collector ------------------------------------------------------------------------
/// The templates of a run, what they ask for as roots, and which of them can be
/// run in a pod.
pub struct Collector<T: Template> {
    seen: Vec<String>,
    builders: Vec<T>,
    runners: TextMap<usize>,
    roots: TextMap<RootAttrs>,
    types: TextMap<Vec<String>>,
    synthetic: Vec<String>,
}

#[verifier::ext_equal]
#[verifier::reject_recursive_types(T)]
pub struct CollectorView<T> {
    /// The names that were entered.
    pub seen: Seq<Seq<char>>,
    /// The templates that were added, in order.
    pub builders: Seq<T>,
    /// The names that can be run, with the length of their command line.
    pub runners: Map<Seq<char>, usize>,
    /// What each name asks for as a root.
    pub roots: Map<Seq<char>, RootAttrsView>,
    /// The types of each name's inputs.
    pub types: Map<Seq<char>, Seq<Seq<char>>>,
    /// The names that stand for an `if` or one of its arms.
    pub synthetic: Seq<Seq<char>>,
}

impl<T: Template> View for Collector<T> {
    type V = CollectorView<T>;

    closed spec fn view(&self) -> CollectorView<T> {
        CollectorView {
            seen: self.seen.deep_view(),
            builders: self.builders@,
            runners: self.runners.deep_view(),
            roots: self.roots.deep_view(),
            types: self.types.deep_view(),
            synthetic: self.synthetic.deep_view(),
        }
    }
}

impl<T> CollectorView<T> {
    pub open spec fn empty() -> CollectorView<T> {
        CollectorView {
            seen: Seq::empty(),
            builders: Seq::empty(),
            runners: Map::empty(),
            roots: Map::empty(),
            types: Map::empty(),
            synthetic: Seq::empty(),
        }
    }

    /// What `name` asks for as a root.
    pub open spec fn root_of(self, name: Seq<char>) -> RootAttrsView {
        if self.roots.dom().contains(name) {
            self.roots[name]
        } else {
            RootAttrsView::empty()
        }
    }

    /// The types of the inputs of `name`.
    pub open spec fn types_of(self, name: Seq<char>) -> Seq<Seq<char>> {
        if self.types.dom().contains(name) {
            self.types[name]
        } else {
            Seq::empty()
        }
    }
}

impl<T> CollectorView<T> {
    /// The collection after a name was entered.
    pub open spec fn entered(self, name: Seq<char>) -> CollectorView<T> {
        if self.seen.contains(name) {
            self
        } else {
            CollectorView { seen: self.seen.push(name), ..self }
        }
    }

    /// The collection after a template that is known by `id` was added.
    pub open spec fn added(self, t: T, id: IdentityView) -> CollectorView<T> {
        CollectorView {
            builders: self.builders.push(t),
            roots: self.roots.insert(id.argo_name, overlaid(id.root, self.root_of(id.argo_name))),
            types: if id.input_types.len() > 0 {
                self.types.insert(id.argo_name, id.input_types)
            } else {
                self.types
            },
            synthetic: if id.synthetic && !self.synthetic.contains(id.argo_name) {
                self.synthetic.push(id.argo_name)
            } else {
                self.synthetic
            },
            ..self
        }
    }

    /// The collection after a name was noted as one that can be run.
    pub open spec fn runs(self, name: Seq<char>, arity: usize) -> CollectorView<T> {
        CollectorView { runners: self.runners.insert(name, arity), ..self }
    }
}

pub open spec fn build_fn<T: Template>(ctx: BuildCtxView) -> spec_fn(T) -> Result<
    TemplateView,
    Seq<char>,
> {
    |t: T| t.built(ctx)
}

pub open spec fn wrapped_all(ts: Seq<TemplateView>) -> Seq<WorkflowTemplateView> {
    Seq::new(ts.len(), |i: int| wrapped(ts[i].name, ts[i]))
}

/// A resource with what its name asks for as a root.
pub open spec fn stamped_resource<T>(c: CollectorView<T>, t: WorkflowTemplateView) -> Result<
    WorkflowTemplateView,
    Seq<char>,
> {
    match t.spec {
        None => Ok(t),
        Some(s) => match stamped(c.root_of(named(t)), s) {
            Err(m) => Err(m),
            Ok(s2) => Ok(WorkflowTemplateView { spec: Some(s2), ..t }),
        },
    }
}

/// A resource of this build: with the labels of the build, and with the claims that
/// every run makes for itself.
pub open spec fn dressed(ctx: BuildCtxView, t: WorkflowTemplateView) -> WorkflowTemplateView {
    WorkflowTemplateView {
        metadata: Some(
            ObjectMetaView {
                labels: labels_of(ctx),
                ..match t.metadata {
                    Some(m) => m,
                    None => ObjectMetaView::empty(),
                }
            },
        ),
        spec: match t.spec {
            None => None,
            Some(s) => Some(
                WorkflowSpecView {
                    volume_claim_templates: claim_templates(ctx.claims),
                    ..s
                },
            ),
        },
        ..t
    }
}

pub open spec fn stamp_fn<T>(c: CollectorView<T>, ctx: BuildCtxView) -> spec_fn(
    WorkflowTemplateView,
) -> Result<WorkflowTemplateView, Seq<char>> {
    |t: WorkflowTemplateView| stamped_resource(c, dressed(ctx, t))
}

/// Every template as a resource of its own, in the order of the names, each with
/// the labels of the build, the claims that a run makes, and what it asks for as a
/// root.
pub open spec fn resources_of<T: Template>(c: CollectorView<T>, ctx: BuildCtxView) -> Result<
    Seq<WorkflowTemplateView>,
    Seq<char>,
> {
    match map_res(c.builders, build_fn::<T>(ctx)) {
        Err(m) => Err(m),
        Ok(ts) => map_res(by_name(wrapped_all(ts)), stamp_fn(c, ctx)),
    }
}

/// A workflow that runs the template `root`.
pub open spec fn runnable_of<T>(c: CollectorView<T>, root: Seq<char>, ctx: BuildCtxView) -> Result<
    WorkflowView,
    Seq<char>,
> {
    match stamped(
        c.root_of(root),
        WorkflowSpecView {
            workflow_template_ref: Some(
                WorkflowTemplateRefView { name: root, cluster_scope: false },
            ),
            service_account_name: ctx.config.defaults.service_account,
            ..WorkflowSpecView::empty()
        },
    ) {
        Err(m) => Err(m),
        Ok(spec) => Ok(
            WorkflowView {
                api_version: API_VERSION@,
                kind: KIND_WORKFLOW@,
                metadata: Some(
                    ObjectMetaView { generate_name: root + "-"@, ..ObjectMetaView::empty() },
                ),
                spec: Some(spec),
            },
        ),
    }
}

/// What a runner has to know of a template of this collection.
pub open spec fn described<T>(
    c: CollectorView<T>,
    t: TemplateView,
    krate: Seq<char>,
) -> ContainerRunMetaView {
    ContainerRunMetaView {
        package: krate,
        synthetic: c.synthetic.contains(t.name),
        ..meta_of(t, c.types_of(t.name))
    }
}

pub open spec fn describe_fn<T: Template>(
    c: CollectorView<T>,
    ctx: BuildCtxView,
    krate: Seq<char>,
) -> spec_fn(T) -> Result<ContainerRunMetaView, Seq<char>> {
    |t: T|
        match t.built(ctx) {
            Err(m) => Err(m),
            Ok(v) => Ok(described(c, v, krate)),
        }
}

/// The first template with the name `name`, or `krate` and `name` joined by a
/// dash.
pub open spec fn found_named<T: Template>(
    builders: Seq<T>,
    ctx: BuildCtxView,
    krate: Seq<char>,
    name: Seq<char>,
) -> Result<TemplateView, Seq<char>>
    decreases builders.len(),
{
    if builders.len() == 0 {
        Err(
            "no template named "@ + debug_text(name) + " (or "@ + debug_text(krate + "-"@ + name)
                + ")"@,
        )
    } else {
        match builders[0].built(ctx) {
            Err(m) => Err(m),
            Ok(t) => if t.name == name || t.name == krate + "-"@ + name {
                Ok(t)
            } else {
                found_named(builders.drop_first(), ctx, krate, name)
            },
        }
    }
}

/// Why a template cannot be run with a command line of `n` elements.
pub open spec fn run_problem<T>(c: CollectorView<T>, name: Seq<char>, n: nat) -> Option<Seq<char>> {
    if c.runners.dom().contains(name) {
        argv_problem(name, n, c.runners[name] as nat)
    } else {
        Some("no runnable container template named "@ + debug_text(name))
    }
}

impl<T: Template> Default for Collector<T> {
    fn default() -> (r: Collector<T>)
        ensures
            r@ == CollectorView::<T>::empty(),
    {
        Collector::new()
    }
}

impl<T: Template> Collector<T> {
    /// A collection of nothing.
    pub fn new() -> (r: Collector<T>)
        ensures
            r@ == CollectorView::<T>::empty(),
    {
        let r: Collector<T> = Collector {
            seen: Vec::new(),
            builders: Vec::new(),
            runners: TextMap::new(),
            roots: TextMap::new(),
            types: TextMap::new(),
            synthetic: Vec::new(),
        };
        proof {
            assert(r@ =~= CollectorView::<T>::empty());
        }
        r
    }

    /// Enters a name; says whether it is new.
    pub fn enter(&mut self, argo_name: &str) -> (r: bool)
        ensures
            r == !old(self)@.seen.contains(argo_name@),
            final(self)@ == old(self)@.entered(argo_name@),
    {
        if has_str(&self.seen, argo_name) {
            false
        } else {
            let ghost before = self.seen.deep_view();
            self.seen.push(argo_name.to_owned());
            proof {
                assert(self.seen.deep_view() =~= before.push(argo_name@));
            }
            true
        }
    }

    /// Adds a template that is only built.
    pub fn add_builder(&mut self, build: T)
        ensures
            final(self)@ == (CollectorView {
                builders: old(self)@.builders.push(build),
                ..old(self)@
            }),
    {
        self.builders.push(build);
    }

    fn add_root(&mut self, name: &str, root: RootAttrs)
        ensures
            final(self)@ == (CollectorView {
                roots: old(self)@.roots.insert(
                    name@,
                    overlaid(root.deep_view(), old(self)@.root_of(name@)),
                ),
                ..old(self)@
            }),
    {
        let all: RootAttrs = match self.roots.get(name) {
            Some(before) => overlay(root, before),
            None => overlay(root, &RootAttrs::default()),
        };
        self.roots.insert(name.to_owned(), all);
    }

    /// Adds a template with what it asks for as a root and the types of its
    /// inputs.
    pub fn add(&mut self, t: T)
        ensures
            final(self)@ == old(self)@.added(t, t.identity()),
    {
        let id: Identity = t.identify();
        proof {
            assert(id.deep_view().input_types.len() == id.input_types@.len());
        }
        self.add_root(id.argo_name.as_str(), id.root);
        if id.input_types.len() > 0 {
            self.types.insert(id.argo_name.clone(), id.input_types);
        }
        if id.synthetic && !has_str(&self.synthetic, id.argo_name.as_str()) {
            let ghost before = self.synthetic.deep_view();
            self.synthetic.push(id.argo_name.clone());
            proof {
                assert(self.synthetic.deep_view() =~= before.push(id.argo_name@));
            }
        }
        self.builders.push(t);
    }

    /// Notes that a name can be run in a pod with a command line of `arity`
    /// elements.
    pub fn add_runner(&mut self, argo_name: &str, arity: usize)
        ensures
            final(self)@ == old(self)@.runs(argo_name@, arity),
    {
        self.runners.insert(argo_name.to_owned(), arity);
    }

    /// Puts what `name` asks for as a root on a specification.
    pub fn stamp_spec(&self, name: &str, spec: WorkflowSpec) -> (r: Result<WorkflowSpec, String>)
        ensures
            agrees(r, stamped(self@.root_of(name@), spec.deep_view())),
    {
        match self.roots.get(name) {
            Some(root) => stamp_root(root, spec),
            None => stamp_root(&RootAttrs::default(), spec),
        }
    }

    fn build_sorted(&self, ctx: &BuildCtx) -> (r: Result<Vec<WorkflowTemplate>, String>)
        ensures
            agrees(
                r,
                match map_res(self@.builders, build_fn::<T>(ctx.deep_view())) {
                    Err(m) => Err(m),
                    Ok(ts) => Ok(by_name(wrapped_all(ts))),
                },
            ),
    {
        let ghost f = build_fn::<T>(ctx.deep_view());
        let ghost all = self.builders@;
        let ghost mut done: Seq<TemplateView> = Seq::empty();
        let mut out: Vec<WorkflowTemplate> = Vec::new();
        let mut i: usize = 0;
        proof {
            lemma_map_res_all(all, f);
            assert(out.deep_view() =~= by_name(wrapped_all(done)));
        }
        while i < self.builders.len()
            invariant
                f == build_fn::<T>(ctx.deep_view()),
                all == self.builders@,
                self@.builders == all,
                i <= self.builders@.len(),
                map_res(all.take(i as int), f) == Ok::<Seq<TemplateView>, Seq<char>>(done),
                out.deep_view() == by_name(wrapped_all(done)),
            decreases self.builders@.len() - i,
        {
            proof {
                lemma_map_res_step(all, f, i as int);
            }
            match self.builders[i].build(ctx) {
                Ok(t) => {
                    let ghost tv = t.deep_view();
                    let name: String = t.name.clone();
                    insert_by_name(&mut out, wrap_workflow_template(name, t));
                    proof {
                        let next = done.push(tv);
                        assert(wrapped_all(next).drop_last() =~= wrapped_all(done));
                        assert(wrapped_all(next).last() == wrapped(tv.name, tv));
                        done = next;
                    }
                },
                Err(m) => {
                    return Err(m);
                },
            }
            i = i + 1;
        }
        proof {
            lemma_map_res_all(all, f);
        }
        Ok(out)
    }

    fn stamp_resource(&self, t: &WorkflowTemplate) -> (r: Result<WorkflowTemplate, String>)
        ensures
            agrees(r, stamped_resource(self@, t.deep_view())),
    {
        let spec: Option<WorkflowSpec> = match &t.spec {
            None => None,
            Some(s) => match self.stamp_spec(name_of(t).as_str(), s.dup()) {
                Ok(s2) => Some(s2),
                Err(m) => {
                    return Err(m);
                },
            },
        };
        Ok(
            WorkflowTemplate {
                api_version: t.api_version.clone(),
                kind: t.kind.clone(),
                metadata: t.metadata.dup(),
                spec,
            },
        )
    }

    /// Builds every template as a resource of its own, in the order of the names,
    /// each with the labels of the build, the claims that a run makes, and what it
    /// asks for as a root.
    pub fn build_templates(&self, ctx: &BuildCtx) -> (r: Result<Vec<WorkflowTemplate>, String>)
        ensures
            agrees(r, resources_of(self@, ctx.deep_view())),
    {
        let sorted: Vec<WorkflowTemplate> = match self.build_sorted(ctx) {
            Ok(v) => v,
            Err(m) => {
                return Err(m);
            },
        };
        let ghost f = stamp_fn(self@, ctx.deep_view());
        let ghost all = sorted.deep_view();
        let mut out: Vec<WorkflowTemplate> = Vec::new();
        let mut i: usize = 0;
        proof {
            lemma_map_res_all(all, f);
            assert(out.deep_view() =~= Seq::<WorkflowTemplateView>::empty());
        }
        while i < sorted.len()
            invariant
                f == stamp_fn(self@, ctx.deep_view()),
                all == sorted.deep_view(),
                resources_of(self@, ctx.deep_view()) == map_res(all, f),
                i <= sorted@.len(),
                map_res(all.take(i as int), f) == Ok::<Seq<WorkflowTemplateView>, Seq<char>>(
                    out.deep_view(),
                ),
            decreases sorted@.len() - i,
        {
            proof {
                lemma_map_res_step(all, f, i as int);
                assert(all[i as int] == sorted@[i as int].deep_view());
            }
            let ghost before = out.deep_view();
            match self.stamp_resource(&dress(ctx, &sorted[i])) {
                Ok(t) => {
                    let ghost tv = t.deep_view();
                    out.push(t);
                    proof {
                        assert(out.deep_view() =~= before.push(tv));
                    }
                },
                Err(m) => {
                    return Err(m);
                },
            }
            i = i + 1;
        }
        proof {
            lemma_map_res_all(all, f);
        }
        Ok(out)
    }

    /// A workflow that runs the template `root`.
    pub fn runnable(&self, root: &str, ctx: &BuildCtx) -> (r: Result<Workflow, String>)
        ensures
            agrees(r, runnable_of(self@, root@, ctx.deep_view())),
    {
        let mut spec: WorkflowSpec = WorkflowSpec::default();
        spec.workflow_template_ref = Some(
            WorkflowTemplateRef { name: root.to_owned(), cluster_scope: false },
        );
        spec.service_account_name = ctx.config().defaults.service_account.clone();
        match self.stamp_spec(root, spec) {
            Err(m) => Err(m),
            Ok(stamped_spec) => {
                let mut meta: ObjectMeta = ObjectMeta::default();
                meta.generate_name = cat2(root, "-");
                Ok(
                    Workflow {
                        api_version: API_VERSION.to_owned(),
                        kind: KIND_WORKFLOW.to_owned(),
                        metadata: Some(meta),
                        spec: Some(stamped_spec),
                    },
                )
            },
        }
    }

    /// What is emitted for the root template: the resources, and on request a
    /// workflow that runs it.
    pub fn emit(&self, root: &str, ctx: &BuildCtx, with_workflow: bool) -> (r: Result<
        (Vec<WorkflowTemplate>, Option<Workflow>),
        String,
    >)
        ensures
            agrees(r, emitted_of(self@, root@, ctx.deep_view(), with_workflow)),
    {
        let resources: Vec<WorkflowTemplate> = match self.build_templates(ctx) {
            Ok(v) => v,
            Err(m) => {
                return Err(m);
            },
        };
        if !with_workflow {
            return Ok((resources, None));
        }
        match self.runnable(root, ctx) {
            Ok(w) => Ok((resources, Some(w))),
            Err(m) => Err(m),
        }
    }

    fn describe_built(&self, t: &api::Template, krate: &str) -> (r: ContainerRunMeta)
        ensures
            r.deep_view() == described(self@, t.deep_view(), krate@),
    {
        let none: Vec<String> = Vec::new();
        proof {
            assert(none.deep_view() =~= Seq::<Seq<char>>::empty());
        }
        let types: &Vec<String> = match self.types.get(t.name.as_str()) {
            Some(v) => v,
            None => &none,
        };
        let mut m: ContainerRunMeta = ContainerRunMeta::from_template(t, types);
        m.package = krate.to_owned();
        m.synthetic = has_str(&self.synthetic, t.name.as_str());
        m
    }

    /// Describes every template, in the order in which they were added.
    pub fn list(&self, ctx: &BuildCtx, krate: &str) -> (r: Result<Vec<ContainerRunMeta>, String>)
        ensures
            agrees(
                r,
                map_res(self@.builders, describe_fn::<T>(self@, ctx.deep_view(), krate@)),
            ),
    {
        let ghost f = describe_fn::<T>(self@, ctx.deep_view(), krate@);
        let ghost all = self.builders@;
        let mut out: Vec<ContainerRunMeta> = Vec::new();
        let mut i: usize = 0;
        proof {
            lemma_map_res_all(all, f);
            assert(out.deep_view() =~= Seq::<ContainerRunMetaView>::empty());
        }
        while i < self.builders.len()
            invariant
                f == describe_fn::<T>(self@, ctx.deep_view(), krate@),
                all == self.builders@,
                self@.builders == all,
                i <= self.builders@.len(),
                map_res(all.take(i as int), f) == Ok::<Seq<ContainerRunMetaView>, Seq<char>>(
                    out.deep_view(),
                ),
            decreases self.builders@.len() - i,
        {
            proof {
                lemma_map_res_step(all, f, i as int);
            }
            let ghost before = out.deep_view();
            match self.builders[i].build(ctx) {
                Ok(t) => {
                    let m: ContainerRunMeta = self.describe_built(&t, krate);
                    let ghost mv = m.deep_view();
                    out.push(m);
                    proof {
                        assert(out.deep_view() =~= before.push(mv));
                    }
                },
                Err(m) => {
                    return Err(m);
                },
            }
            i = i + 1;
        }
        proof {
            lemma_map_res_all(all, f);
        }
        Ok(out)
    }

    fn find_named(&self, ctx: &BuildCtx, krate: &str, name: &str) -> (r: Result<
        api::Template,
        String,
    >)
        ensures
            agrees(r, found_named(self@.builders, ctx.deep_view(), krate@, name@)),
    {
        let full: String = cat3(krate, "-", name);
        let ghost all = self.builders@;
        let ghost c = ctx.deep_view();
        let mut i: usize = 0;
        proof {
            assert(all.skip(0) =~= all);
        }
        while i < self.builders.len()
            invariant
                all == self.builders@,
                self@.builders == all,
                c == ctx.deep_view(),
                full@ == krate@ + "-"@ + name@,
                i <= self.builders@.len(),
                found_named(all, c, krate@, name@) == found_named(
                    all.skip(i as int),
                    c,
                    krate@,
                    name@,
                ),
            decreases self.builders@.len() - i,
        {
            proof {
                assert(all.skip(i as int)[0] == all[i as int]);
                assert(all.skip(i as int).drop_first() =~= all.skip(i + 1));
            }
            match self.builders[i].build(ctx) {
                Ok(t) => {
                    if str_eq(t.name.as_str(), name) || str_eq(t.name.as_str(), full.as_str()) {
                        return Ok(t);
                    }
                },
                Err(m) => {
                    return Err(m);
                },
            }
            i = i + 1;
        }
        let a: String = debug_str(name);
        let b: String = debug_str(full.as_str());
        Err(cat5("no template named ", a.as_str(), " (or ", b.as_str(), ")"))
    }

    /// Describes one template, by its full name or by the part behind the crate's.
    pub fn describe(&self, ctx: &BuildCtx, krate: &str, name: &str) -> (r: Result<
        ContainerRunMeta,
        String,
    >)
        ensures
            agrees(
                r,
                match found_named(self@.builders, ctx.deep_view(), krate@, name@) {
                    Err(m) => Err(m),
                    Ok(t) => Ok(described(self@, t, krate@)),
                },
            ),
    {
        match self.find_named(ctx, krate, name) {
            Err(m) => Err(m),
            Ok(t) => Ok(self.describe_built(&t, krate)),
        }
    }

    /// Checks that a template can be run with a command line of `n` elements.
    pub fn check_run(&self, name: &str, n: usize) -> (r: Result<(), String>)
        ensures
            match r {
                Ok(_) => run_problem(self@, name@, n as nat) is None,
                Err(m) => run_problem(self@, name@, n as nat) == Some(m@),
            },
    {
        match self.runners.get(name) {
            Some(want) => check_argv(name, n, *want),
            None => {
                let q: String = debug_str(name);
                Err(cat2("no runnable container template named ", q.as_str()))
            },
        }
    }

    /// How many templates were added.
    pub fn len(&self) -> (r: usize)
        ensures
            r == self@.builders.len(),
    {
        self.builders.len()
    }

    /// The template that was added at this place.
    pub fn template(&self, i: usize) -> (r: &T)
        requires
            i < self@.builders.len(),
        ensures
            *r == self@.builders[i as int],
    {
        &self.builders[i]
    }
}

pub open spec fn emitted_of<T: Template>(
    c: CollectorView<T>,
    root: Seq<char>,
    ctx: BuildCtxView,
    with_workflow: bool,
) -> Result<(Seq<WorkflowTemplateView>, Option<WorkflowView>), Seq<char>> {
    match resources_of(c, ctx) {
        Err(m) => Err(m),
        Ok(resources) => if !with_workflow {
            Ok((resources, None))
        } else {
            match runnable_of(c, root, ctx) {
                Err(m) => Err(m),
                Ok(w) => Ok((resources, Some(w))),
            }
        },
    }
}

/// One stream of documents.
pub fn join_docs(docs: &Vec<String>) -> (r: String)
    ensures
        r@ == joined(docs.deep_view(), "---\n"@),
{
    join(docs, "---\n")
}

// ---- laws -----------------------------------------------------------------------------------
/// A name is new exactly once: entered twice, it is refused the second time and
/// nothing changes.
pub proof fn law_enter_once<T>(c: CollectorView<T>, name: Seq<char>)
    ensures
        c.entered(name).seen.contains(name),
        c.entered(name).entered(name) == c.entered(name),
        c.seen.no_duplicates() ==> c.entered(name).seen.no_duplicates(),
{
    if !c.seen.contains(name) {
        assert(c.seen.push(name)[c.seen.len() as int] == name);
    }
}

/// What is emitted are the templates that were added, one resource each, in the
/// order of the names; each is its own entrypoint, has the labels of the build, and
/// makes the claims that a run has to make.
pub proof fn law_resources<T: Template>(c: CollectorView<T>, ctx: BuildCtxView)
    requires
        resources_of(c, ctx) is Ok,
    ensures
        in_order_by((resources_of(c, ctx))->Ok_0, name_key()),
        (resources_of(c, ctx))->Ok_0.len() == c.builders.len(),
        forall|i: int|
            0 <= i < c.builders.len() ==> {
                let r = #[trigger] ((resources_of(c, ctx))->Ok_0)[i];
                &&& r.spec is Some
                &&& r.spec->0.entrypoint == named(r)
                &&& r.spec->0.templates.len() == 1
                &&& r.spec->0.templates[0].name == named(r)
                &&& r.spec->0.volume_claim_templates == claim_templates(ctx.claims)
                &&& r.metadata is Some
                &&& r.metadata->0.labels == labels_of(ctx)
            },
{
    let f = build_fn::<T>(ctx);
    let ts = map_res(c.builders, f)->Ok_0;
    lemma_map_res_len(c.builders, f);
    let w = wrapped_all(ts);
    law_arranged(w, name_key());
    let s = by_name(w);
    let g = stamp_fn(c, ctx);
    lemma_map_res_len(s, g);
    let r = map_res(s, g)->Ok_0;
    broadcast use vstd::seq_lib::group_to_multiset_ensures;

    assert forall|i: int| 0 <= i < s.len() implies named(#[trigger] r[i]) == named(s[i])
        && r[i].spec is Some && r[i].spec->0.entrypoint == named(r[i])
        && r[i].spec->0.templates.len() == 1 && r[i].spec->0.templates[0].name == named(r[i])
        && r[i].spec->0.volume_claim_templates == claim_templates(ctx.claims)
        && r[i].metadata is Some && r[i].metadata->0.labels == labels_of(ctx) by {
        assert(g(s[i]) == Ok::<WorkflowTemplateView, Seq<char>>(r[i]));
        assert(s.to_multiset().count(s[i]) > 0) by {
            assert(s.contains(s[i]));
        }
        assert(w.contains(s[i]));
        let k = choose|k: int| 0 <= k < w.len() && w[k] == s[i];
        assert(s[i] == wrapped(ts[k].name, ts[k]));
    }
    let key = name_key();
    assert forall|i: int, j: int| 0 <= i < j < r.len() implies text_leq(
        key(#[trigger] r[i]),
        key(#[trigger] r[j]),
    ) by {
        assert(text_leq(key(s[i]), key(s[j])));
    }
}

/// What the root of a run asks for is the same on its own resource and on the
/// workflow that runs it.
pub proof fn law_root_stamped_alike<T: Template>(
    c: CollectorView<T>,
    ctx: BuildCtxView,
    t: WorkflowTemplateView,
)
    requires
        t.spec == Some(
            WorkflowSpecView {
                entrypoint: t.spec->0.entrypoint,
                templates: t.spec->0.templates,
                ..WorkflowSpecView::empty()
            },
        ),
    ensures
        stamped_resource(c, t) is Ok <==> runnable_of(c, named(t), ctx) is Ok,
        stamped_resource(c, t) is Ok ==> {
            let a = stamped_resource(c, t)->Ok_0.spec->0;
            let b = runnable_of(c, named(t), ctx)->Ok_0.spec->0;
            &&& a.hooks == b.hooks
            &&& a.ttl_strategy == b.ttl_strategy
            &&& a.pod_gc == b.pod_gc
            &&& a.active_deadline_seconds == b.active_deadline_seconds
            &&& a.node_selector == b.node_selector
            &&& a.synchronization == b.synchronization
            &&& a.tolerations == b.tolerations
            &&& a.affinity == b.affinity
            &&& a.pod_spec_patch == b.pod_spec_patch
            &&& a.image_pull_secrets == b.image_pull_secrets
            &&& a.parallelism == b.parallelism
        },
{
}

} // verus!
