//! The subset of the Argo Workflows API that the library writes: plain
//! records, each with the mathematical record it stands for.
//!
//! On the wire every field is written in camel case (`pod_gc` as `podGC`,
//! `default_value` as `default`, `path_type` as `type`) and left out where
//! [`crate::ser::skip`] says so.

use crate::maps::{Data, TextMap};
use vstd::prelude::*;

verus! {

/// `apiVersion` of the resources.
pub const API_VERSION: &'static str = "argoproj.io/v1alpha1";

/// `kind` of a run.
pub const KIND_WORKFLOW: &'static str = "Workflow";

/// `kind` of a template resource.
pub const KIND_WORKFLOW_TEMPLATE: &'static str = "WorkflowTemplate";

/// A run of workflow templates.
#[derive(Debug, PartialEq)]
pub struct Workflow {
    pub api_version: String,
    pub kind: String,
    pub metadata: Option<ObjectMeta>,
    pub spec: Option<WorkflowSpec>,
}

#[verifier::ext_equal]
pub struct WorkflowView {
    pub api_version: Seq<char>,
    pub kind: Seq<char>,
    pub metadata: Option<ObjectMetaView>,
    pub spec: Option<WorkflowSpecView>,
}

impl DeepView for Workflow {
    type V = WorkflowView;

    open spec fn deep_view(&self) -> WorkflowView {
        WorkflowView {
            api_version: self.api_version@,
            kind: self.kind@,
            metadata: self.metadata.deep_view(),
            spec: self.spec.deep_view(),
        }
    }
}

impl WorkflowView {
    /// Every field at its empty value.
    pub open spec fn empty() -> WorkflowView {
        WorkflowView {
            api_version: Seq::empty(),
            kind: Seq::empty(),
            metadata: None,
            spec: None,
        }
    }
}

impl Default for Workflow {
    fn default() -> (r: Self)
        ensures
            r.deep_view() == WorkflowView::empty(),
    {
        let r: Workflow = Workflow {
            api_version: String::new(),
            kind: String::new(),
            metadata: None,
            spec: None,
        };
        proof {
            assert(r.deep_view() =~= WorkflowView::empty());
        }
        r
    }
}

impl Data for Workflow {
    fn same(&self, other: &Self) -> (r: bool) {
        self.api_version.same(&other.api_version)
            && self.kind.same(&other.kind)
            && self.metadata.same(&other.metadata)
            && self.spec.same(&other.spec)
    }

    fn dup(&self) -> (r: Self) {
        Workflow {
            api_version: self.api_version.dup(),
            kind: self.kind.dup(),
            metadata: self.metadata.dup(),
            spec: self.spec.dup(),
        }
    }
}

/// A reusable template resource. Every workflow and every container becomes one.
#[derive(Debug, PartialEq)]
pub struct WorkflowTemplate {
    pub api_version: String,
    pub kind: String,
    pub metadata: Option<ObjectMeta>,
    pub spec: Option<WorkflowSpec>,
}

#[verifier::ext_equal]
pub struct WorkflowTemplateView {
    pub api_version: Seq<char>,
    pub kind: Seq<char>,
    pub metadata: Option<ObjectMetaView>,
    pub spec: Option<WorkflowSpecView>,
}

impl DeepView for WorkflowTemplate {
    type V = WorkflowTemplateView;

    open spec fn deep_view(&self) -> WorkflowTemplateView {
        WorkflowTemplateView {
            api_version: self.api_version@,
            kind: self.kind@,
            metadata: self.metadata.deep_view(),
            spec: self.spec.deep_view(),
        }
    }
}

impl WorkflowTemplateView {
    /// Every field at its empty value.
    pub open spec fn empty() -> WorkflowTemplateView {
        WorkflowTemplateView {
            api_version: Seq::empty(),
            kind: Seq::empty(),
            metadata: None,
            spec: None,
        }
    }
}

impl Default for WorkflowTemplate {
    fn default() -> (r: Self)
        ensures
            r.deep_view() == WorkflowTemplateView::empty(),
    {
        let r: WorkflowTemplate = WorkflowTemplate {
            api_version: String::new(),
            kind: String::new(),
            metadata: None,
            spec: None,
        };
        proof {
            assert(r.deep_view() =~= WorkflowTemplateView::empty());
        }
        r
    }
}

impl Data for WorkflowTemplate {
    fn same(&self, other: &Self) -> (r: bool) {
        self.api_version.same(&other.api_version)
            && self.kind.same(&other.kind)
            && self.metadata.same(&other.metadata)
            && self.spec.same(&other.spec)
    }

    fn dup(&self) -> (r: Self) {
        WorkflowTemplate {
            api_version: self.api_version.dup(),
            kind: self.kind.dup(),
            metadata: self.metadata.dup(),
            spec: self.spec.dup(),
        }
    }
}

#[derive(Debug, PartialEq)]
pub struct ObjectMeta {
    pub name: String,
    pub generate_name: String,
    pub namespace: String,
    pub labels: TextMap<String>,
    pub annotations: TextMap<String>,
}

#[verifier::ext_equal]
pub struct ObjectMetaView {
    pub name: Seq<char>,
    pub generate_name: Seq<char>,
    pub namespace: Seq<char>,
    pub labels: Map<Seq<char>, Seq<char>>,
    pub annotations: Map<Seq<char>, Seq<char>>,
}

impl DeepView for ObjectMeta {
    type V = ObjectMetaView;

    open spec fn deep_view(&self) -> ObjectMetaView {
        ObjectMetaView {
            name: self.name@,
            generate_name: self.generate_name@,
            namespace: self.namespace@,
            labels: self.labels.deep_view(),
            annotations: self.annotations.deep_view(),
        }
    }
}

impl ObjectMetaView {
    /// Every field at its empty value.
    pub open spec fn empty() -> ObjectMetaView {
        ObjectMetaView {
            name: Seq::empty(),
            generate_name: Seq::empty(),
            namespace: Seq::empty(),
            labels: Map::empty(),
            annotations: Map::empty(),
        }
    }
}

impl Default for ObjectMeta {
    fn default() -> (r: Self)
        ensures
            r.deep_view() == ObjectMetaView::empty(),
    {
        let r: ObjectMeta = ObjectMeta {
            name: String::new(),
            generate_name: String::new(),
            namespace: String::new(),
            labels: TextMap::new(),
            annotations: TextMap::new(),
        };
        proof {
            assert(r.deep_view() =~= ObjectMetaView::empty());
        }
        r
    }
}

impl Data for ObjectMeta {
    fn same(&self, other: &Self) -> (r: bool) {
        self.name.same(&other.name)
            && self.generate_name.same(&other.generate_name)
            && self.namespace.same(&other.namespace)
            && self.labels.same(&other.labels)
            && self.annotations.same(&other.annotations)
    }

    fn dup(&self) -> (r: Self) {
        ObjectMeta {
            name: self.name.dup(),
            generate_name: self.generate_name.dup(),
            namespace: self.namespace.dup(),
            labels: self.labels.dup(),
            annotations: self.annotations.dup(),
        }
    }
}

#[derive(Debug, PartialEq)]
pub struct WorkflowSpec {
    pub entrypoint: String,
    pub templates: Vec<Template>,
    pub arguments: Option<Arguments>,
    pub workflow_template_ref: Option<WorkflowTemplateRef>,
    pub service_account_name: String,
    pub node_selector: TextMap<String>,
    pub hooks: TextMap<LifecycleHook>,
    pub ttl_strategy: Option<TtlStrategy>,
    pub pod_gc: Option<PodGc>,
    pub active_deadline_seconds: Option<i64>,
    pub synchronization: Option<Synchronization>,
    pub tolerations: Vec<Toleration>,
    pub affinity: Option<String>,
    pub pod_spec_patch: Option<String>,
    pub image_pull_secrets: Vec<LocalObjectReference>,
    pub priority: Option<i32>,
    pub parallelism: Option<i64>,
    pub volume_claim_templates: Vec<PersistentVolumeClaim>,
}

#[verifier::ext_equal]
pub struct WorkflowSpecView {
    pub entrypoint: Seq<char>,
    pub templates: Seq<TemplateView>,
    pub arguments: Option<ArgumentsView>,
    pub workflow_template_ref: Option<WorkflowTemplateRefView>,
    pub service_account_name: Seq<char>,
    pub node_selector: Map<Seq<char>, Seq<char>>,
    pub hooks: Map<Seq<char>, LifecycleHookView>,
    pub ttl_strategy: Option<TtlStrategyView>,
    pub pod_gc: Option<PodGcView>,
    pub active_deadline_seconds: Option<i64>,
    pub synchronization: Option<SynchronizationView>,
    pub tolerations: Seq<TolerationView>,
    pub affinity: Option<Seq<char>>,
    pub pod_spec_patch: Option<Seq<char>>,
    pub image_pull_secrets: Seq<LocalObjectReferenceView>,
    pub priority: Option<i32>,
    pub parallelism: Option<i64>,
    pub volume_claim_templates: Seq<PersistentVolumeClaimView>,
}

impl DeepView for WorkflowSpec {
    type V = WorkflowSpecView;

    open spec fn deep_view(&self) -> WorkflowSpecView {
        WorkflowSpecView {
            entrypoint: self.entrypoint@,
            templates: self.templates.deep_view(),
            arguments: self.arguments.deep_view(),
            workflow_template_ref: self.workflow_template_ref.deep_view(),
            service_account_name: self.service_account_name@,
            node_selector: self.node_selector.deep_view(),
            hooks: self.hooks.deep_view(),
            ttl_strategy: self.ttl_strategy.deep_view(),
            pod_gc: self.pod_gc.deep_view(),
            active_deadline_seconds: self.active_deadline_seconds.deep_view(),
            synchronization: self.synchronization.deep_view(),
            tolerations: self.tolerations.deep_view(),
            affinity: self.affinity.deep_view(),
            pod_spec_patch: self.pod_spec_patch.deep_view(),
            image_pull_secrets: self.image_pull_secrets.deep_view(),
            priority: self.priority.deep_view(),
            parallelism: self.parallelism.deep_view(),
            volume_claim_templates: self.volume_claim_templates.deep_view(),
        }
    }
}

impl WorkflowSpecView {
    /// Every field at its empty value.
    pub open spec fn empty() -> WorkflowSpecView {
        WorkflowSpecView {
            entrypoint: Seq::empty(),
            templates: Seq::empty(),
            arguments: None,
            workflow_template_ref: None,
            service_account_name: Seq::empty(),
            node_selector: Map::empty(),
            hooks: Map::empty(),
            ttl_strategy: None,
            pod_gc: None,
            active_deadline_seconds: None,
            synchronization: None,
            tolerations: Seq::empty(),
            affinity: None,
            pod_spec_patch: None,
            image_pull_secrets: Seq::empty(),
            priority: None,
            parallelism: None,
            volume_claim_templates: Seq::empty(),
        }
    }
}

impl Default for WorkflowSpec {
    fn default() -> (r: Self)
        ensures
            r.deep_view() == WorkflowSpecView::empty(),
    {
        let r: WorkflowSpec = WorkflowSpec {
            entrypoint: String::new(),
            templates: Vec::new(),
            arguments: None,
            workflow_template_ref: None,
            service_account_name: String::new(),
            node_selector: TextMap::new(),
            hooks: TextMap::new(),
            ttl_strategy: None,
            pod_gc: None,
            active_deadline_seconds: None,
            synchronization: None,
            tolerations: Vec::new(),
            affinity: None,
            pod_spec_patch: None,
            image_pull_secrets: Vec::new(),
            priority: None,
            parallelism: None,
            volume_claim_templates: Vec::new(),
        };
        proof {
            assert(r.deep_view() =~= WorkflowSpecView::empty());
        }
        r
    }
}

impl Data for WorkflowSpec {
    fn same(&self, other: &Self) -> (r: bool) {
        self.entrypoint.same(&other.entrypoint)
            && self.templates.same(&other.templates)
            && self.arguments.same(&other.arguments)
            && self.workflow_template_ref.same(&other.workflow_template_ref)
            && self.service_account_name.same(&other.service_account_name)
            && self.node_selector.same(&other.node_selector)
            && self.hooks.same(&other.hooks)
            && self.ttl_strategy.same(&other.ttl_strategy)
            && self.pod_gc.same(&other.pod_gc)
            && self.active_deadline_seconds.same(&other.active_deadline_seconds)
            && self.synchronization.same(&other.synchronization)
            && self.tolerations.same(&other.tolerations)
            && self.affinity.same(&other.affinity)
            && self.pod_spec_patch.same(&other.pod_spec_patch)
            && self.image_pull_secrets.same(&other.image_pull_secrets)
            && self.priority.same(&other.priority)
            && self.parallelism.same(&other.parallelism)
            && self.volume_claim_templates.same(&other.volume_claim_templates)
    }

    fn dup(&self) -> (r: Self) {
        WorkflowSpec {
            entrypoint: self.entrypoint.dup(),
            templates: self.templates.dup(),
            arguments: self.arguments.dup(),
            workflow_template_ref: self.workflow_template_ref.dup(),
            service_account_name: self.service_account_name.dup(),
            node_selector: self.node_selector.dup(),
            hooks: self.hooks.dup(),
            ttl_strategy: self.ttl_strategy.dup(),
            pod_gc: self.pod_gc.dup(),
            active_deadline_seconds: self.active_deadline_seconds.dup(),
            synchronization: self.synchronization.dup(),
            tolerations: self.tolerations.dup(),
            affinity: self.affinity.dup(),
            pod_spec_patch: self.pod_spec_patch.dup(),
            image_pull_secrets: self.image_pull_secrets.dup(),
            priority: self.priority.dup(),
            parallelism: self.parallelism.dup(),
            volume_claim_templates: self.volume_claim_templates.dup(),
        }
    }
}

/// When a finished run is deleted, in seconds.
#[derive(Debug, PartialEq)]
pub struct TtlStrategy {
    pub seconds_after_completion: Option<i32>,
    pub seconds_after_success: Option<i32>,
    pub seconds_after_failure: Option<i32>,
}

#[verifier::ext_equal]
pub struct TtlStrategyView {
    pub seconds_after_completion: Option<i32>,
    pub seconds_after_success: Option<i32>,
    pub seconds_after_failure: Option<i32>,
}

impl DeepView for TtlStrategy {
    type V = TtlStrategyView;

    open spec fn deep_view(&self) -> TtlStrategyView {
        TtlStrategyView {
            seconds_after_completion: self.seconds_after_completion.deep_view(),
            seconds_after_success: self.seconds_after_success.deep_view(),
            seconds_after_failure: self.seconds_after_failure.deep_view(),
        }
    }
}

impl TtlStrategyView {
    /// Every field at its empty value.
    pub open spec fn empty() -> TtlStrategyView {
        TtlStrategyView {
            seconds_after_completion: None,
            seconds_after_success: None,
            seconds_after_failure: None,
        }
    }
}

impl Default for TtlStrategy {
    fn default() -> (r: Self)
        ensures
            r.deep_view() == TtlStrategyView::empty(),
    {
        let r: TtlStrategy = TtlStrategy {
            seconds_after_completion: None,
            seconds_after_success: None,
            seconds_after_failure: None,
        };
        proof {
            assert(r.deep_view() =~= TtlStrategyView::empty());
        }
        r
    }
}

impl Data for TtlStrategy {
    fn same(&self, other: &Self) -> (r: bool) {
        self.seconds_after_completion.same(&other.seconds_after_completion)
            && self.seconds_after_success.same(&other.seconds_after_success)
            && self.seconds_after_failure.same(&other.seconds_after_failure)
    }

    fn dup(&self) -> (r: Self) {
        TtlStrategy {
            seconds_after_completion: self.seconds_after_completion.dup(),
            seconds_after_success: self.seconds_after_success.dup(),
            seconds_after_failure: self.seconds_after_failure.dup(),
        }
    }
}

/// When the pods of a run are deleted.
#[derive(Debug, PartialEq)]
pub struct PodGc {
    pub strategy: String,
}

#[verifier::ext_equal]
pub struct PodGcView {
    pub strategy: Seq<char>,
}

impl DeepView for PodGc {
    type V = PodGcView;

    open spec fn deep_view(&self) -> PodGcView {
        PodGcView {
            strategy: self.strategy@,
        }
    }
}

impl PodGcView {
    /// Every field at its empty value.
    pub open spec fn empty() -> PodGcView {
        PodGcView {
            strategy: Seq::empty(),
        }
    }
}

impl Default for PodGc {
    fn default() -> (r: Self)
        ensures
            r.deep_view() == PodGcView::empty(),
    {
        let r: PodGc = PodGc {
            strategy: String::new(),
        };
        proof {
            assert(r.deep_view() =~= PodGcView::empty());
        }
        r
    }
}

impl Data for PodGc {
    fn same(&self, other: &Self) -> (r: bool) {
        self.strategy.same(&other.strategy)
    }

    fn dup(&self) -> (r: Self) {
        PodGc {
            strategy: self.strategy.dup(),
        }
    }
}

#[derive(Debug, PartialEq)]
pub struct WorkflowTemplateRef {
    pub name: String,
    pub cluster_scope: bool,
}

#[verifier::ext_equal]
pub struct WorkflowTemplateRefView {
    pub name: Seq<char>,
    pub cluster_scope: bool,
}

impl DeepView for WorkflowTemplateRef {
    type V = WorkflowTemplateRefView;

    open spec fn deep_view(&self) -> WorkflowTemplateRefView {
        WorkflowTemplateRefView {
            name: self.name@,
            cluster_scope: self.cluster_scope,
        }
    }
}

impl WorkflowTemplateRefView {
    /// Every field at its empty value.
    pub open spec fn empty() -> WorkflowTemplateRefView {
        WorkflowTemplateRefView {
            name: Seq::empty(),
            cluster_scope: false,
        }
    }
}

impl Default for WorkflowTemplateRef {
    fn default() -> (r: Self)
        ensures
            r.deep_view() == WorkflowTemplateRefView::empty(),
    {
        let r: WorkflowTemplateRef = WorkflowTemplateRef {
            name: String::new(),
            cluster_scope: false,
        };
        proof {
            assert(r.deep_view() =~= WorkflowTemplateRefView::empty());
        }
        r
    }
}

impl Data for WorkflowTemplateRef {
    fn same(&self, other: &Self) -> (r: bool) {
        self.name.same(&other.name)
            && self.cluster_scope.same(&other.cluster_scope)
    }

    fn dup(&self) -> (r: Self) {
        WorkflowTemplateRef {
            name: self.name.dup(),
            cluster_scope: self.cluster_scope.dup(),
        }
    }
}

/// A task's reference to a template in another template resource.
#[derive(Debug, PartialEq)]
pub struct TemplateRef {
    pub name: String,
    pub template: String,
    pub cluster_scope: bool,
}

#[verifier::ext_equal]
pub struct TemplateRefView {
    pub name: Seq<char>,
    pub template: Seq<char>,
    pub cluster_scope: bool,
}

impl DeepView for TemplateRef {
    type V = TemplateRefView;

    open spec fn deep_view(&self) -> TemplateRefView {
        TemplateRefView {
            name: self.name@,
            template: self.template@,
            cluster_scope: self.cluster_scope,
        }
    }
}

impl TemplateRefView {
    /// Every field at its empty value.
    pub open spec fn empty() -> TemplateRefView {
        TemplateRefView {
            name: Seq::empty(),
            template: Seq::empty(),
            cluster_scope: false,
        }
    }
}

impl Default for TemplateRef {
    fn default() -> (r: Self)
        ensures
            r.deep_view() == TemplateRefView::empty(),
    {
        let r: TemplateRef = TemplateRef {
            name: String::new(),
            template: String::new(),
            cluster_scope: false,
        };
        proof {
            assert(r.deep_view() =~= TemplateRefView::empty());
        }
        r
    }
}

impl Data for TemplateRef {
    fn same(&self, other: &Self) -> (r: bool) {
        self.name.same(&other.name)
            && self.template.same(&other.template)
            && self.cluster_scope.same(&other.cluster_scope)
    }

    fn dup(&self) -> (r: Self) {
        TemplateRef {
            name: self.name.dup(),
            template: self.template.dup(),
            cluster_scope: self.cluster_scope.dup(),
        }
    }
}

/// One template: a pod (`container`), a graph (`dag`) or a sequence (`steps`).
#[derive(Debug, PartialEq)]
pub struct Template {
    pub name: String,
    pub metadata: Option<ObjectMeta>,
    pub inputs: Option<Inputs>,
    pub outputs: Option<Outputs>,
    pub container: Option<Container>,
    pub dag: Option<DagTemplate>,
    pub script: Option<ScriptTemplate>,
    pub volumes: Vec<Volume>,
    pub service_account_name: String,
    pub node_selector: TextMap<String>,
    pub steps: Vec<Vec<DagTask>>,
    pub retry_strategy: Option<RetryStrategy>,
    pub timeout: String,
    pub active_deadline_seconds: Option<i32>,
    pub synchronization: Option<Synchronization>,
    pub tolerations: Vec<Toleration>,
    pub affinity: Option<String>,
    pub pod_spec_patch: Option<String>,
    pub parallelism: Option<i64>,
    pub daemon: bool,
}

#[verifier::ext_equal]
pub struct TemplateView {
    pub name: Seq<char>,
    pub metadata: Option<ObjectMetaView>,
    pub inputs: Option<InputsView>,
    pub outputs: Option<OutputsView>,
    pub container: Option<ContainerView>,
    pub dag: Option<DagTemplateView>,
    pub script: Option<ScriptTemplateView>,
    pub volumes: Seq<VolumeView>,
    pub service_account_name: Seq<char>,
    pub node_selector: Map<Seq<char>, Seq<char>>,
    pub steps: Seq<Seq<DagTaskView>>,
    pub retry_strategy: Option<RetryStrategyView>,
    pub timeout: Seq<char>,
    pub active_deadline_seconds: Option<i32>,
    pub synchronization: Option<SynchronizationView>,
    pub tolerations: Seq<TolerationView>,
    pub affinity: Option<Seq<char>>,
    pub pod_spec_patch: Option<Seq<char>>,
    pub parallelism: Option<i64>,
    pub daemon: bool,
}

impl DeepView for Template {
    type V = TemplateView;

    open spec fn deep_view(&self) -> TemplateView {
        TemplateView {
            name: self.name@,
            metadata: self.metadata.deep_view(),
            inputs: self.inputs.deep_view(),
            outputs: self.outputs.deep_view(),
            container: self.container.deep_view(),
            dag: self.dag.deep_view(),
            script: self.script.deep_view(),
            volumes: self.volumes.deep_view(),
            service_account_name: self.service_account_name@,
            node_selector: self.node_selector.deep_view(),
            steps: self.steps.deep_view(),
            retry_strategy: self.retry_strategy.deep_view(),
            timeout: self.timeout@,
            active_deadline_seconds: self.active_deadline_seconds.deep_view(),
            synchronization: self.synchronization.deep_view(),
            tolerations: self.tolerations.deep_view(),
            affinity: self.affinity.deep_view(),
            pod_spec_patch: self.pod_spec_patch.deep_view(),
            parallelism: self.parallelism.deep_view(),
            daemon: self.daemon,
        }
    }
}

impl TemplateView {
    /// Every field at its empty value.
    pub open spec fn empty() -> TemplateView {
        TemplateView {
            name: Seq::empty(),
            metadata: None,
            inputs: None,
            outputs: None,
            container: None,
            dag: None,
            script: None,
            volumes: Seq::empty(),
            service_account_name: Seq::empty(),
            node_selector: Map::empty(),
            steps: Seq::empty(),
            retry_strategy: None,
            timeout: Seq::empty(),
            active_deadline_seconds: None,
            synchronization: None,
            tolerations: Seq::empty(),
            affinity: None,
            pod_spec_patch: None,
            parallelism: None,
            daemon: false,
        }
    }
}

impl Default for Template {
    fn default() -> (r: Self)
        ensures
            r.deep_view() == TemplateView::empty(),
    {
        let r: Template = Template {
            name: String::new(),
            metadata: None,
            inputs: None,
            outputs: None,
            container: None,
            dag: None,
            script: None,
            volumes: Vec::new(),
            service_account_name: String::new(),
            node_selector: TextMap::new(),
            steps: Vec::new(),
            retry_strategy: None,
            timeout: String::new(),
            active_deadline_seconds: None,
            synchronization: None,
            tolerations: Vec::new(),
            affinity: None,
            pod_spec_patch: None,
            parallelism: None,
            daemon: false,
        };
        proof {
            assert(r.deep_view() =~= TemplateView::empty());
        }
        r
    }
}

impl Data for Template {
    fn same(&self, other: &Self) -> (r: bool) {
        self.name.same(&other.name)
            && self.metadata.same(&other.metadata)
            && self.inputs.same(&other.inputs)
            && self.outputs.same(&other.outputs)
            && self.container.same(&other.container)
            && self.dag.same(&other.dag)
            && self.script.same(&other.script)
            && self.volumes.same(&other.volumes)
            && self.service_account_name.same(&other.service_account_name)
            && self.node_selector.same(&other.node_selector)
            && self.steps.same(&other.steps)
            && self.retry_strategy.same(&other.retry_strategy)
            && self.timeout.same(&other.timeout)
            && self.active_deadline_seconds.same(&other.active_deadline_seconds)
            && self.synchronization.same(&other.synchronization)
            && self.tolerations.same(&other.tolerations)
            && self.affinity.same(&other.affinity)
            && self.pod_spec_patch.same(&other.pod_spec_patch)
            && self.parallelism.same(&other.parallelism)
            && self.daemon.same(&other.daemon)
    }

    fn dup(&self) -> (r: Self) {
        Template {
            name: self.name.dup(),
            metadata: self.metadata.dup(),
            inputs: self.inputs.dup(),
            outputs: self.outputs.dup(),
            container: self.container.dup(),
            dag: self.dag.dup(),
            script: self.script.dup(),
            volumes: self.volumes.dup(),
            service_account_name: self.service_account_name.dup(),
            node_selector: self.node_selector.dup(),
            steps: self.steps.dup(),
            retry_strategy: self.retry_strategy.dup(),
            timeout: self.timeout.dup(),
            active_deadline_seconds: self.active_deadline_seconds.dup(),
            synchronization: self.synchronization.dup(),
            tolerations: self.tolerations.dup(),
            affinity: self.affinity.dup(),
            pod_spec_patch: self.pod_spec_patch.dup(),
            parallelism: self.parallelism.dup(),
            daemon: self.daemon.dup(),
        }
    }
}

/// Re-run on failure; no `limit` is unlimited, no policy is Argo's own.
#[derive(Debug, PartialEq)]
pub struct RetryStrategy {
    pub limit: Option<i32>,
    pub retry_policy: String,
    pub backoff: Option<Backoff>,
}

#[verifier::ext_equal]
pub struct RetryStrategyView {
    pub limit: Option<i32>,
    pub retry_policy: Seq<char>,
    pub backoff: Option<BackoffView>,
}

impl DeepView for RetryStrategy {
    type V = RetryStrategyView;

    open spec fn deep_view(&self) -> RetryStrategyView {
        RetryStrategyView {
            limit: self.limit.deep_view(),
            retry_policy: self.retry_policy@,
            backoff: self.backoff.deep_view(),
        }
    }
}

impl RetryStrategyView {
    /// Every field at its empty value.
    pub open spec fn empty() -> RetryStrategyView {
        RetryStrategyView {
            limit: None,
            retry_policy: Seq::empty(),
            backoff: None,
        }
    }
}

impl Default for RetryStrategy {
    fn default() -> (r: Self)
        ensures
            r.deep_view() == RetryStrategyView::empty(),
    {
        let r: RetryStrategy = RetryStrategy {
            limit: None,
            retry_policy: String::new(),
            backoff: None,
        };
        proof {
            assert(r.deep_view() =~= RetryStrategyView::empty());
        }
        r
    }
}

impl Data for RetryStrategy {
    fn same(&self, other: &Self) -> (r: bool) {
        self.limit.same(&other.limit)
            && self.retry_policy.same(&other.retry_policy)
            && self.backoff.same(&other.backoff)
    }

    fn dup(&self) -> (r: Self) {
        RetryStrategy {
            limit: self.limit.dup(),
            retry_policy: self.retry_policy.dup(),
            backoff: self.backoff.dup(),
        }
    }
}

#[derive(Debug, PartialEq)]
pub struct Backoff {
    pub duration: String,
    pub factor: Option<i32>,
    pub max_duration: String,
}

#[verifier::ext_equal]
pub struct BackoffView {
    pub duration: Seq<char>,
    pub factor: Option<i32>,
    pub max_duration: Seq<char>,
}

impl DeepView for Backoff {
    type V = BackoffView;

    open spec fn deep_view(&self) -> BackoffView {
        BackoffView {
            duration: self.duration@,
            factor: self.factor.deep_view(),
            max_duration: self.max_duration@,
        }
    }
}

impl BackoffView {
    /// Every field at its empty value.
    pub open spec fn empty() -> BackoffView {
        BackoffView {
            duration: Seq::empty(),
            factor: None,
            max_duration: Seq::empty(),
        }
    }
}

impl Default for Backoff {
    fn default() -> (r: Self)
        ensures
            r.deep_view() == BackoffView::empty(),
    {
        let r: Backoff = Backoff {
            duration: String::new(),
            factor: None,
            max_duration: String::new(),
        };
        proof {
            assert(r.deep_view() =~= BackoffView::empty());
        }
        r
    }
}

impl Data for Backoff {
    fn same(&self, other: &Self) -> (r: bool) {
        self.duration.same(&other.duration)
            && self.factor.same(&other.factor)
            && self.max_duration.same(&other.max_duration)
    }

    fn dup(&self) -> (r: Self) {
        Backoff {
            duration: self.duration.dup(),
            factor: self.factor.dup(),
            max_duration: self.max_duration.dup(),
        }
    }
}

#[derive(Debug, PartialEq)]
pub struct Inputs {
    pub parameters: Vec<Parameter>,
    pub artifacts: Vec<Artifact>,
}

#[verifier::ext_equal]
pub struct InputsView {
    pub parameters: Seq<ParameterView>,
    pub artifacts: Seq<ArtifactView>,
}

impl DeepView for Inputs {
    type V = InputsView;

    open spec fn deep_view(&self) -> InputsView {
        InputsView {
            parameters: self.parameters.deep_view(),
            artifacts: self.artifacts.deep_view(),
        }
    }
}

impl InputsView {
    /// Every field at its empty value.
    pub open spec fn empty() -> InputsView {
        InputsView {
            parameters: Seq::empty(),
            artifacts: Seq::empty(),
        }
    }
}

impl Default for Inputs {
    fn default() -> (r: Self)
        ensures
            r.deep_view() == InputsView::empty(),
    {
        let r: Inputs = Inputs {
            parameters: Vec::new(),
            artifacts: Vec::new(),
        };
        proof {
            assert(r.deep_view() =~= InputsView::empty());
        }
        r
    }
}

impl Data for Inputs {
    fn same(&self, other: &Self) -> (r: bool) {
        self.parameters.same(&other.parameters)
            && self.artifacts.same(&other.artifacts)
    }

    fn dup(&self) -> (r: Self) {
        Inputs {
            parameters: self.parameters.dup(),
            artifacts: self.artifacts.dup(),
        }
    }
}

#[derive(Debug, PartialEq)]
pub struct Outputs {
    pub parameters: Vec<Parameter>,
    pub artifacts: Vec<Artifact>,
}

#[verifier::ext_equal]
pub struct OutputsView {
    pub parameters: Seq<ParameterView>,
    pub artifacts: Seq<ArtifactView>,
}

impl DeepView for Outputs {
    type V = OutputsView;

    open spec fn deep_view(&self) -> OutputsView {
        OutputsView {
            parameters: self.parameters.deep_view(),
            artifacts: self.artifacts.deep_view(),
        }
    }
}

impl OutputsView {
    /// Every field at its empty value.
    pub open spec fn empty() -> OutputsView {
        OutputsView {
            parameters: Seq::empty(),
            artifacts: Seq::empty(),
        }
    }
}

impl Default for Outputs {
    fn default() -> (r: Self)
        ensures
            r.deep_view() == OutputsView::empty(),
    {
        let r: Outputs = Outputs {
            parameters: Vec::new(),
            artifacts: Vec::new(),
        };
        proof {
            assert(r.deep_view() =~= OutputsView::empty());
        }
        r
    }
}

impl Data for Outputs {
    fn same(&self, other: &Self) -> (r: bool) {
        self.parameters.same(&other.parameters)
            && self.artifacts.same(&other.artifacts)
    }

    fn dup(&self) -> (r: Self) {
        Outputs {
            parameters: self.parameters.dup(),
            artifacts: self.artifacts.dup(),
        }
    }
}

#[derive(Debug, PartialEq)]
pub struct Parameter {
    pub name: String,
    pub value: Option<String>,
    pub default_value: Option<String>,
    pub value_from: Option<ValueFrom>,
}

#[verifier::ext_equal]
pub struct ParameterView {
    pub name: Seq<char>,
    pub value: Option<Seq<char>>,
    pub default_value: Option<Seq<char>>,
    pub value_from: Option<ValueFromView>,
}

impl DeepView for Parameter {
    type V = ParameterView;

    open spec fn deep_view(&self) -> ParameterView {
        ParameterView {
            name: self.name@,
            value: self.value.deep_view(),
            default_value: self.default_value.deep_view(),
            value_from: self.value_from.deep_view(),
        }
    }
}

impl ParameterView {
    /// Every field at its empty value.
    pub open spec fn empty() -> ParameterView {
        ParameterView {
            name: Seq::empty(),
            value: None,
            default_value: None,
            value_from: None,
        }
    }
}

impl Default for Parameter {
    fn default() -> (r: Self)
        ensures
            r.deep_view() == ParameterView::empty(),
    {
        let r: Parameter = Parameter {
            name: String::new(),
            value: None,
            default_value: None,
            value_from: None,
        };
        proof {
            assert(r.deep_view() =~= ParameterView::empty());
        }
        r
    }
}

impl Data for Parameter {
    fn same(&self, other: &Self) -> (r: bool) {
        self.name.same(&other.name)
            && self.value.same(&other.value)
            && self.default_value.same(&other.default_value)
            && self.value_from.same(&other.value_from)
    }

    fn dup(&self) -> (r: Self) {
        Parameter {
            name: self.name.dup(),
            value: self.value.dup(),
            default_value: self.default_value.dup(),
            value_from: self.value_from.dup(),
        }
    }
}

#[derive(Debug, PartialEq)]
pub struct ValueFrom {
    pub path: String,
    pub parameter: String,
    pub expression: String,
}

#[verifier::ext_equal]
pub struct ValueFromView {
    pub path: Seq<char>,
    pub parameter: Seq<char>,
    pub expression: Seq<char>,
}

impl DeepView for ValueFrom {
    type V = ValueFromView;

    open spec fn deep_view(&self) -> ValueFromView {
        ValueFromView {
            path: self.path@,
            parameter: self.parameter@,
            expression: self.expression@,
        }
    }
}

impl ValueFromView {
    /// Every field at its empty value.
    pub open spec fn empty() -> ValueFromView {
        ValueFromView {
            path: Seq::empty(),
            parameter: Seq::empty(),
            expression: Seq::empty(),
        }
    }
}

impl Default for ValueFrom {
    fn default() -> (r: Self)
        ensures
            r.deep_view() == ValueFromView::empty(),
    {
        let r: ValueFrom = ValueFrom {
            path: String::new(),
            parameter: String::new(),
            expression: String::new(),
        };
        proof {
            assert(r.deep_view() =~= ValueFromView::empty());
        }
        r
    }
}

impl Data for ValueFrom {
    fn same(&self, other: &Self) -> (r: bool) {
        self.path.same(&other.path)
            && self.parameter.same(&other.parameter)
            && self.expression.same(&other.expression)
    }

    fn dup(&self) -> (r: Self) {
        ValueFrom {
            path: self.path.dup(),
            parameter: self.parameter.dup(),
            expression: self.expression.dup(),
        }
    }
}

#[derive(Debug, PartialEq)]
pub struct Artifact {
    pub name: String,
    pub path: String,
    pub s3: Option<S3Artifact>,
    pub archive: Option<ArchiveStrategy>,
    pub mode: Option<i32>,
    pub from: String,
}

#[verifier::ext_equal]
pub struct ArtifactView {
    pub name: Seq<char>,
    pub path: Seq<char>,
    pub s3: Option<S3ArtifactView>,
    pub archive: Option<ArchiveStrategyView>,
    pub mode: Option<i32>,
    pub from: Seq<char>,
}

impl DeepView for Artifact {
    type V = ArtifactView;

    open spec fn deep_view(&self) -> ArtifactView {
        ArtifactView {
            name: self.name@,
            path: self.path@,
            s3: self.s3.deep_view(),
            archive: self.archive.deep_view(),
            mode: self.mode.deep_view(),
            from: self.from@,
        }
    }
}

impl ArtifactView {
    /// Every field at its empty value.
    pub open spec fn empty() -> ArtifactView {
        ArtifactView {
            name: Seq::empty(),
            path: Seq::empty(),
            s3: None,
            archive: None,
            mode: None,
            from: Seq::empty(),
        }
    }
}

impl Default for Artifact {
    fn default() -> (r: Self)
        ensures
            r.deep_view() == ArtifactView::empty(),
    {
        let r: Artifact = Artifact {
            name: String::new(),
            path: String::new(),
            s3: None,
            archive: None,
            mode: None,
            from: String::new(),
        };
        proof {
            assert(r.deep_view() =~= ArtifactView::empty());
        }
        r
    }
}

impl Data for Artifact {
    fn same(&self, other: &Self) -> (r: bool) {
        self.name.same(&other.name)
            && self.path.same(&other.path)
            && self.s3.same(&other.s3)
            && self.archive.same(&other.archive)
            && self.mode.same(&other.mode)
            && self.from.same(&other.from)
    }

    fn dup(&self) -> (r: Self) {
        Artifact {
            name: self.name.dup(),
            path: self.path.dup(),
            s3: self.s3.dup(),
            archive: self.archive.dup(),
            mode: self.mode.dup(),
            from: self.from.dup(),
        }
    }
}

/// A key in a Secret.
#[derive(Debug, PartialEq)]
pub struct SecretKeySelector {
    pub name: String,
    pub key: String,
    pub optional: bool,
}

#[verifier::ext_equal]
pub struct SecretKeySelectorView {
    pub name: Seq<char>,
    pub key: Seq<char>,
    pub optional: bool,
}

impl DeepView for SecretKeySelector {
    type V = SecretKeySelectorView;

    open spec fn deep_view(&self) -> SecretKeySelectorView {
        SecretKeySelectorView {
            name: self.name@,
            key: self.key@,
            optional: self.optional,
        }
    }
}

impl SecretKeySelectorView {
    /// Every field at its empty value.
    pub open spec fn empty() -> SecretKeySelectorView {
        SecretKeySelectorView {
            name: Seq::empty(),
            key: Seq::empty(),
            optional: false,
        }
    }
}

impl Default for SecretKeySelector {
    fn default() -> (r: Self)
        ensures
            r.deep_view() == SecretKeySelectorView::empty(),
    {
        let r: SecretKeySelector = SecretKeySelector {
            name: String::new(),
            key: String::new(),
            optional: false,
        };
        proof {
            assert(r.deep_view() =~= SecretKeySelectorView::empty());
        }
        r
    }
}

impl Data for SecretKeySelector {
    fn same(&self, other: &Self) -> (r: bool) {
        self.name.same(&other.name)
            && self.key.same(&other.key)
            && self.optional.same(&other.optional)
    }

    fn dup(&self) -> (r: Self) {
        SecretKeySelector {
            name: self.name.dup(),
            key: self.key.dup(),
            optional: self.optional.dup(),
        }
    }
}

#[derive(Debug, PartialEq)]
pub struct S3Artifact {
    pub endpoint: String,
    pub bucket: String,
    pub region: String,
    pub insecure: bool,
    pub key: String,
    pub access_key_secret: Option<SecretKeySelector>,
    pub secret_key_secret: Option<SecretKeySelector>,
}

#[verifier::ext_equal]
pub struct S3ArtifactView {
    pub endpoint: Seq<char>,
    pub bucket: Seq<char>,
    pub region: Seq<char>,
    pub insecure: bool,
    pub key: Seq<char>,
    pub access_key_secret: Option<SecretKeySelectorView>,
    pub secret_key_secret: Option<SecretKeySelectorView>,
}

impl DeepView for S3Artifact {
    type V = S3ArtifactView;

    open spec fn deep_view(&self) -> S3ArtifactView {
        S3ArtifactView {
            endpoint: self.endpoint@,
            bucket: self.bucket@,
            region: self.region@,
            insecure: self.insecure,
            key: self.key@,
            access_key_secret: self.access_key_secret.deep_view(),
            secret_key_secret: self.secret_key_secret.deep_view(),
        }
    }
}

impl S3ArtifactView {
    /// Every field at its empty value.
    pub open spec fn empty() -> S3ArtifactView {
        S3ArtifactView {
            endpoint: Seq::empty(),
            bucket: Seq::empty(),
            region: Seq::empty(),
            insecure: false,
            key: Seq::empty(),
            access_key_secret: None,
            secret_key_secret: None,
        }
    }
}

impl Default for S3Artifact {
    fn default() -> (r: Self)
        ensures
            r.deep_view() == S3ArtifactView::empty(),
    {
        let r: S3Artifact = S3Artifact {
            endpoint: String::new(),
            bucket: String::new(),
            region: String::new(),
            insecure: false,
            key: String::new(),
            access_key_secret: None,
            secret_key_secret: None,
        };
        proof {
            assert(r.deep_view() =~= S3ArtifactView::empty());
        }
        r
    }
}

impl Data for S3Artifact {
    fn same(&self, other: &Self) -> (r: bool) {
        self.endpoint.same(&other.endpoint)
            && self.bucket.same(&other.bucket)
            && self.region.same(&other.region)
            && self.insecure.same(&other.insecure)
            && self.key.same(&other.key)
            && self.access_key_secret.same(&other.access_key_secret)
            && self.secret_key_secret.same(&other.secret_key_secret)
    }

    fn dup(&self) -> (r: Self) {
        S3Artifact {
            endpoint: self.endpoint.dup(),
            bucket: self.bucket.dup(),
            region: self.region.dup(),
            insecure: self.insecure.dup(),
            key: self.key.dup(),
            access_key_secret: self.access_key_secret.dup(),
            secret_key_secret: self.secret_key_secret.dup(),
        }
    }
}

#[derive(Debug, PartialEq)]
pub struct ArchiveStrategy {
    pub none: Option<NoneStrategy>,
}

#[verifier::ext_equal]
pub struct ArchiveStrategyView {
    pub none: Option<NoneStrategyView>,
}

impl DeepView for ArchiveStrategy {
    type V = ArchiveStrategyView;

    open spec fn deep_view(&self) -> ArchiveStrategyView {
        ArchiveStrategyView {
            none: self.none.deep_view(),
        }
    }
}

impl ArchiveStrategyView {
    /// Every field at its empty value.
    pub open spec fn empty() -> ArchiveStrategyView {
        ArchiveStrategyView {
            none: None,
        }
    }
}

impl Default for ArchiveStrategy {
    fn default() -> (r: Self)
        ensures
            r.deep_view() == ArchiveStrategyView::empty(),
    {
        let r: ArchiveStrategy = ArchiveStrategy {
            none: None,
        };
        proof {
            assert(r.deep_view() =~= ArchiveStrategyView::empty());
        }
        r
    }
}

impl Data for ArchiveStrategy {
    fn same(&self, other: &Self) -> (r: bool) {
        self.none.same(&other.none)
    }

    fn dup(&self) -> (r: Self) {
        ArchiveStrategy {
            none: self.none.dup(),
        }
    }
}

#[derive(Debug, PartialEq)]
pub struct NoneStrategy {}

#[verifier::ext_equal]
pub struct NoneStrategyView {}

impl DeepView for NoneStrategy {
    type V = NoneStrategyView;

    open spec fn deep_view(&self) -> NoneStrategyView {
        NoneStrategyView {  }
    }
}

impl NoneStrategyView {
    /// Every field at its empty value.
    pub open spec fn empty() -> NoneStrategyView {
        NoneStrategyView {  }
    }
}

impl Default for NoneStrategy {
    fn default() -> (r: Self)
        ensures
            r.deep_view() == NoneStrategyView::empty(),
    {
        NoneStrategy {  }
    }
}

impl Data for NoneStrategy {
    fn same(&self, other: &Self) -> (r: bool) {
        true
    }

    fn dup(&self) -> (r: Self) {
        NoneStrategy {  }
    }
}

#[derive(Debug, PartialEq)]
pub struct Arguments {
    pub parameters: Vec<Parameter>,
    pub artifacts: Vec<Artifact>,
}

#[verifier::ext_equal]
pub struct ArgumentsView {
    pub parameters: Seq<ParameterView>,
    pub artifacts: Seq<ArtifactView>,
}

impl DeepView for Arguments {
    type V = ArgumentsView;

    open spec fn deep_view(&self) -> ArgumentsView {
        ArgumentsView {
            parameters: self.parameters.deep_view(),
            artifacts: self.artifacts.deep_view(),
        }
    }
}

impl ArgumentsView {
    /// Every field at its empty value.
    pub open spec fn empty() -> ArgumentsView {
        ArgumentsView {
            parameters: Seq::empty(),
            artifacts: Seq::empty(),
        }
    }
}

impl Default for Arguments {
    fn default() -> (r: Self)
        ensures
            r.deep_view() == ArgumentsView::empty(),
    {
        let r: Arguments = Arguments {
            parameters: Vec::new(),
            artifacts: Vec::new(),
        };
        proof {
            assert(r.deep_view() =~= ArgumentsView::empty());
        }
        r
    }
}

impl Data for Arguments {
    fn same(&self, other: &Self) -> (r: bool) {
        self.parameters.same(&other.parameters)
            && self.artifacts.same(&other.artifacts)
    }

    fn dup(&self) -> (r: Self) {
        Arguments {
            parameters: self.parameters.dup(),
            artifacts: self.artifacts.dup(),
        }
    }
}

#[derive(Debug, PartialEq)]
pub struct DagTemplate {
    pub tasks: Vec<DagTask>,
}

#[verifier::ext_equal]
pub struct DagTemplateView {
    pub tasks: Seq<DagTaskView>,
}

impl DeepView for DagTemplate {
    type V = DagTemplateView;

    open spec fn deep_view(&self) -> DagTemplateView {
        DagTemplateView {
            tasks: self.tasks.deep_view(),
        }
    }
}

impl DagTemplateView {
    /// Every field at its empty value.
    pub open spec fn empty() -> DagTemplateView {
        DagTemplateView {
            tasks: Seq::empty(),
        }
    }
}

impl Default for DagTemplate {
    fn default() -> (r: Self)
        ensures
            r.deep_view() == DagTemplateView::empty(),
    {
        let r: DagTemplate = DagTemplate {
            tasks: Vec::new(),
        };
        proof {
            assert(r.deep_view() =~= DagTemplateView::empty());
        }
        r
    }
}

impl Data for DagTemplate {
    fn same(&self, other: &Self) -> (r: bool) {
        self.tasks.same(&other.tasks)
    }

    fn dup(&self) -> (r: Self) {
        DagTemplate {
            tasks: self.tasks.dup(),
        }
    }
}

/// One task of a graph, or one step of a sequence.
#[derive(Debug, PartialEq)]
pub struct DagTask {
    pub name: String,
    pub template: String,
    pub dependencies: Vec<String>,
    pub arguments: Option<Arguments>,
    pub template_ref: Option<TemplateRef>,
    pub continue_on: Option<ContinueOn>,
    pub hooks: TextMap<LifecycleHook>,
    pub with_param: String,
    pub when: String,
}

#[verifier::ext_equal]
pub struct DagTaskView {
    pub name: Seq<char>,
    pub template: Seq<char>,
    pub dependencies: Seq<Seq<char>>,
    pub arguments: Option<ArgumentsView>,
    pub template_ref: Option<TemplateRefView>,
    pub continue_on: Option<ContinueOnView>,
    pub hooks: Map<Seq<char>, LifecycleHookView>,
    pub with_param: Seq<char>,
    pub when: Seq<char>,
}

impl DeepView for DagTask {
    type V = DagTaskView;

    open spec fn deep_view(&self) -> DagTaskView {
        DagTaskView {
            name: self.name@,
            template: self.template@,
            dependencies: self.dependencies.deep_view(),
            arguments: self.arguments.deep_view(),
            template_ref: self.template_ref.deep_view(),
            continue_on: self.continue_on.deep_view(),
            hooks: self.hooks.deep_view(),
            with_param: self.with_param@,
            when: self.when@,
        }
    }
}

impl DagTaskView {
    /// Every field at its empty value.
    pub open spec fn empty() -> DagTaskView {
        DagTaskView {
            name: Seq::empty(),
            template: Seq::empty(),
            dependencies: Seq::empty(),
            arguments: None,
            template_ref: None,
            continue_on: None,
            hooks: Map::empty(),
            with_param: Seq::empty(),
            when: Seq::empty(),
        }
    }
}

impl Default for DagTask {
    fn default() -> (r: Self)
        ensures
            r.deep_view() == DagTaskView::empty(),
    {
        let r: DagTask = DagTask {
            name: String::new(),
            template: String::new(),
            dependencies: Vec::new(),
            arguments: None,
            template_ref: None,
            continue_on: None,
            hooks: TextMap::new(),
            with_param: String::new(),
            when: String::new(),
        };
        proof {
            assert(r.deep_view() =~= DagTaskView::empty());
        }
        r
    }
}

impl Data for DagTask {
    fn same(&self, other: &Self) -> (r: bool) {
        self.name.same(&other.name)
            && self.template.same(&other.template)
            && self.dependencies.same(&other.dependencies)
            && self.arguments.same(&other.arguments)
            && self.template_ref.same(&other.template_ref)
            && self.continue_on.same(&other.continue_on)
            && self.hooks.same(&other.hooks)
            && self.with_param.same(&other.with_param)
            && self.when.same(&other.when)
    }

    fn dup(&self) -> (r: Self) {
        DagTask {
            name: self.name.dup(),
            template: self.template.dup(),
            dependencies: self.dependencies.dup(),
            arguments: self.arguments.dup(),
            template_ref: self.template_ref.dup(),
            continue_on: self.continue_on.dup(),
            hooks: self.hooks.dup(),
            with_param: self.with_param.dup(),
            when: self.when.dup(),
        }
    }
}

/// Go on to the dependents although the task failed.
#[derive(Debug, PartialEq)]
pub struct ContinueOn {
    pub error: bool,
    pub failed: bool,
}

#[verifier::ext_equal]
pub struct ContinueOnView {
    pub error: bool,
    pub failed: bool,
}

impl DeepView for ContinueOn {
    type V = ContinueOnView;

    open spec fn deep_view(&self) -> ContinueOnView {
        ContinueOnView {
            error: self.error,
            failed: self.failed,
        }
    }
}

impl ContinueOnView {
    /// Every field at its empty value.
    pub open spec fn empty() -> ContinueOnView {
        ContinueOnView {
            error: false,
            failed: false,
        }
    }
}

impl Default for ContinueOn {
    fn default() -> (r: Self)
        ensures
            r.deep_view() == ContinueOnView::empty(),
    {
        let r: ContinueOn = ContinueOn {
            error: false,
            failed: false,
        };
        proof {
            assert(r.deep_view() =~= ContinueOnView::empty());
        }
        r
    }
}

impl Data for ContinueOn {
    fn same(&self, other: &Self) -> (r: bool) {
        self.error.same(&other.error)
            && self.failed.same(&other.failed)
    }

    fn dup(&self) -> (r: Self) {
        ContinueOn {
            error: self.error.dup(),
            failed: self.failed.dup(),
        }
    }
}

/// A template run on a lifecycle event; no expression is the exit hook.
#[derive(Debug, PartialEq)]
pub struct LifecycleHook {
    pub template_ref: Option<TemplateRef>,
    pub arguments: Option<Arguments>,
    pub expression: String,
}

#[verifier::ext_equal]
pub struct LifecycleHookView {
    pub template_ref: Option<TemplateRefView>,
    pub arguments: Option<ArgumentsView>,
    pub expression: Seq<char>,
}

impl DeepView for LifecycleHook {
    type V = LifecycleHookView;

    open spec fn deep_view(&self) -> LifecycleHookView {
        LifecycleHookView {
            template_ref: self.template_ref.deep_view(),
            arguments: self.arguments.deep_view(),
            expression: self.expression@,
        }
    }
}

impl LifecycleHookView {
    /// Every field at its empty value.
    pub open spec fn empty() -> LifecycleHookView {
        LifecycleHookView {
            template_ref: None,
            arguments: None,
            expression: Seq::empty(),
        }
    }
}

impl Default for LifecycleHook {
    fn default() -> (r: Self)
        ensures
            r.deep_view() == LifecycleHookView::empty(),
    {
        let r: LifecycleHook = LifecycleHook {
            template_ref: None,
            arguments: None,
            expression: String::new(),
        };
        proof {
            assert(r.deep_view() =~= LifecycleHookView::empty());
        }
        r
    }
}

impl Data for LifecycleHook {
    fn same(&self, other: &Self) -> (r: bool) {
        self.template_ref.same(&other.template_ref)
            && self.arguments.same(&other.arguments)
            && self.expression.same(&other.expression)
    }

    fn dup(&self) -> (r: Self) {
        LifecycleHook {
            template_ref: self.template_ref.dup(),
            arguments: self.arguments.dup(),
            expression: self.expression.dup(),
        }
    }
}

#[derive(Debug, PartialEq)]
pub struct Container {
    pub image: String,
    pub command: Vec<String>,
    pub args: Vec<String>,
    pub env: Vec<EnvVar>,
    pub volume_mounts: Vec<VolumeMount>,
    pub working_dir: String,
    pub security_context: Option<SecurityContext>,
}

#[verifier::ext_equal]
pub struct ContainerView {
    pub image: Seq<char>,
    pub command: Seq<Seq<char>>,
    pub args: Seq<Seq<char>>,
    pub env: Seq<EnvVarView>,
    pub volume_mounts: Seq<VolumeMountView>,
    pub working_dir: Seq<char>,
    pub security_context: Option<SecurityContextView>,
}

impl DeepView for Container {
    type V = ContainerView;

    open spec fn deep_view(&self) -> ContainerView {
        ContainerView {
            image: self.image@,
            command: self.command.deep_view(),
            args: self.args.deep_view(),
            env: self.env.deep_view(),
            volume_mounts: self.volume_mounts.deep_view(),
            working_dir: self.working_dir@,
            security_context: self.security_context.deep_view(),
        }
    }
}

impl ContainerView {
    /// Every field at its empty value.
    pub open spec fn empty() -> ContainerView {
        ContainerView {
            image: Seq::empty(),
            command: Seq::empty(),
            args: Seq::empty(),
            env: Seq::empty(),
            volume_mounts: Seq::empty(),
            working_dir: Seq::empty(),
            security_context: None,
        }
    }
}

impl Default for Container {
    fn default() -> (r: Self)
        ensures
            r.deep_view() == ContainerView::empty(),
    {
        let r: Container = Container {
            image: String::new(),
            command: Vec::new(),
            args: Vec::new(),
            env: Vec::new(),
            volume_mounts: Vec::new(),
            working_dir: String::new(),
            security_context: None,
        };
        proof {
            assert(r.deep_view() =~= ContainerView::empty());
        }
        r
    }
}

impl Data for Container {
    fn same(&self, other: &Self) -> (r: bool) {
        self.image.same(&other.image)
            && self.command.same(&other.command)
            && self.args.same(&other.args)
            && self.env.same(&other.env)
            && self.volume_mounts.same(&other.volume_mounts)
            && self.working_dir.same(&other.working_dir)
            && self.security_context.same(&other.security_context)
    }

    fn dup(&self) -> (r: Self) {
        Container {
            image: self.image.dup(),
            command: self.command.dup(),
            args: self.args.dup(),
            env: self.env.dup(),
            volume_mounts: self.volume_mounts.dup(),
            working_dir: self.working_dir.dup(),
            security_context: self.security_context.dup(),
        }
    }
}

#[derive(Debug, PartialEq)]
pub struct SecurityContext {
    pub privileged: bool,
}

#[verifier::ext_equal]
pub struct SecurityContextView {
    pub privileged: bool,
}

impl DeepView for SecurityContext {
    type V = SecurityContextView;

    open spec fn deep_view(&self) -> SecurityContextView {
        SecurityContextView {
            privileged: self.privileged,
        }
    }
}

impl SecurityContextView {
    /// Every field at its empty value.
    pub open spec fn empty() -> SecurityContextView {
        SecurityContextView {
            privileged: false,
        }
    }
}

impl Default for SecurityContext {
    fn default() -> (r: Self)
        ensures
            r.deep_view() == SecurityContextView::empty(),
    {
        let r: SecurityContext = SecurityContext {
            privileged: false,
        };
        proof {
            assert(r.deep_view() =~= SecurityContextView::empty());
        }
        r
    }
}

impl Data for SecurityContext {
    fn same(&self, other: &Self) -> (r: bool) {
        self.privileged.same(&other.privileged)
    }

    fn dup(&self) -> (r: Self) {
        SecurityContext {
            privileged: self.privileged.dup(),
        }
    }
}

#[derive(Debug, PartialEq)]
pub struct ScriptTemplate {
    pub image: String,
    pub command: Vec<String>,
    pub source: String,
}

#[verifier::ext_equal]
pub struct ScriptTemplateView {
    pub image: Seq<char>,
    pub command: Seq<Seq<char>>,
    pub source: Seq<char>,
}

impl DeepView for ScriptTemplate {
    type V = ScriptTemplateView;

    open spec fn deep_view(&self) -> ScriptTemplateView {
        ScriptTemplateView {
            image: self.image@,
            command: self.command.deep_view(),
            source: self.source@,
        }
    }
}

impl ScriptTemplateView {
    /// Every field at its empty value.
    pub open spec fn empty() -> ScriptTemplateView {
        ScriptTemplateView {
            image: Seq::empty(),
            command: Seq::empty(),
            source: Seq::empty(),
        }
    }
}

impl Default for ScriptTemplate {
    fn default() -> (r: Self)
        ensures
            r.deep_view() == ScriptTemplateView::empty(),
    {
        let r: ScriptTemplate = ScriptTemplate {
            image: String::new(),
            command: Vec::new(),
            source: String::new(),
        };
        proof {
            assert(r.deep_view() =~= ScriptTemplateView::empty());
        }
        r
    }
}

impl Data for ScriptTemplate {
    fn same(&self, other: &Self) -> (r: bool) {
        self.image.same(&other.image)
            && self.command.same(&other.command)
            && self.source.same(&other.source)
    }

    fn dup(&self) -> (r: Self) {
        ScriptTemplate {
            image: self.image.dup(),
            command: self.command.dup(),
            source: self.source.dup(),
        }
    }
}

#[derive(Debug, PartialEq)]
pub struct EnvVar {
    pub name: String,
    pub value: String,
    pub value_from: Option<EnvVarSource>,
}

#[verifier::ext_equal]
pub struct EnvVarView {
    pub name: Seq<char>,
    pub value: Seq<char>,
    pub value_from: Option<EnvVarSourceView>,
}

impl DeepView for EnvVar {
    type V = EnvVarView;

    open spec fn deep_view(&self) -> EnvVarView {
        EnvVarView {
            name: self.name@,
            value: self.value@,
            value_from: self.value_from.deep_view(),
        }
    }
}

impl EnvVarView {
    /// Every field at its empty value.
    pub open spec fn empty() -> EnvVarView {
        EnvVarView {
            name: Seq::empty(),
            value: Seq::empty(),
            value_from: None,
        }
    }
}

impl Default for EnvVar {
    fn default() -> (r: Self)
        ensures
            r.deep_view() == EnvVarView::empty(),
    {
        let r: EnvVar = EnvVar {
            name: String::new(),
            value: String::new(),
            value_from: None,
        };
        proof {
            assert(r.deep_view() =~= EnvVarView::empty());
        }
        r
    }
}

impl Data for EnvVar {
    fn same(&self, other: &Self) -> (r: bool) {
        self.name.same(&other.name)
            && self.value.same(&other.value)
            && self.value_from.same(&other.value_from)
    }

    fn dup(&self) -> (r: Self) {
        EnvVar {
            name: self.name.dup(),
            value: self.value.dup(),
            value_from: self.value_from.dup(),
        }
    }
}

#[derive(Debug, PartialEq)]
pub struct EnvVarSource {
    pub secret_key_ref: Option<SecretKeySelector>,
}

#[verifier::ext_equal]
pub struct EnvVarSourceView {
    pub secret_key_ref: Option<SecretKeySelectorView>,
}

impl DeepView for EnvVarSource {
    type V = EnvVarSourceView;

    open spec fn deep_view(&self) -> EnvVarSourceView {
        EnvVarSourceView {
            secret_key_ref: self.secret_key_ref.deep_view(),
        }
    }
}

impl EnvVarSourceView {
    /// Every field at its empty value.
    pub open spec fn empty() -> EnvVarSourceView {
        EnvVarSourceView {
            secret_key_ref: None,
        }
    }
}

impl Default for EnvVarSource {
    fn default() -> (r: Self)
        ensures
            r.deep_view() == EnvVarSourceView::empty(),
    {
        let r: EnvVarSource = EnvVarSource {
            secret_key_ref: None,
        };
        proof {
            assert(r.deep_view() =~= EnvVarSourceView::empty());
        }
        r
    }
}

impl Data for EnvVarSource {
    fn same(&self, other: &Self) -> (r: bool) {
        self.secret_key_ref.same(&other.secret_key_ref)
    }

    fn dup(&self) -> (r: Self) {
        EnvVarSource {
            secret_key_ref: self.secret_key_ref.dup(),
        }
    }
}

#[derive(Debug, PartialEq)]
pub struct Volume {
    pub name: String,
    pub host_path: Option<HostPathVolumeSource>,
    pub empty_dir: Option<EmptyDirVolumeSource>,
    pub persistent_volume_claim: Option<PersistentVolumeClaimVolumeSource>,
}

#[verifier::ext_equal]
pub struct VolumeView {
    pub name: Seq<char>,
    pub host_path: Option<HostPathVolumeSourceView>,
    pub empty_dir: Option<EmptyDirVolumeSourceView>,
    pub persistent_volume_claim: Option<PersistentVolumeClaimVolumeSourceView>,
}

impl DeepView for Volume {
    type V = VolumeView;

    open spec fn deep_view(&self) -> VolumeView {
        VolumeView {
            name: self.name@,
            host_path: self.host_path.deep_view(),
            empty_dir: self.empty_dir.deep_view(),
            persistent_volume_claim: self.persistent_volume_claim.deep_view(),
        }
    }
}

impl VolumeView {
    /// Every field at its empty value.
    pub open spec fn empty() -> VolumeView {
        VolumeView {
            name: Seq::empty(),
            host_path: None,
            empty_dir: None,
            persistent_volume_claim: None,
        }
    }
}

impl Default for Volume {
    fn default() -> (r: Self)
        ensures
            r.deep_view() == VolumeView::empty(),
    {
        let r: Volume = Volume {
            name: String::new(),
            host_path: None,
            empty_dir: None,
            persistent_volume_claim: None,
        };
        proof {
            assert(r.deep_view() =~= VolumeView::empty());
        }
        r
    }
}

impl Data for Volume {
    fn same(&self, other: &Self) -> (r: bool) {
        self.name.same(&other.name)
            && self.host_path.same(&other.host_path)
            && self.empty_dir.same(&other.empty_dir)
            && self.persistent_volume_claim.same(&other.persistent_volume_claim)
    }

    fn dup(&self) -> (r: Self) {
        Volume {
            name: self.name.dup(),
            host_path: self.host_path.dup(),
            empty_dir: self.empty_dir.dup(),
            persistent_volume_claim: self.persistent_volume_claim.dup(),
        }
    }
}

/// A claim that is there before the run.
#[derive(Debug, PartialEq)]
pub struct PersistentVolumeClaimVolumeSource {
    pub claim_name: String,
    pub read_only: bool,
}

#[verifier::ext_equal]
pub struct PersistentVolumeClaimVolumeSourceView {
    pub claim_name: Seq<char>,
    pub read_only: bool,
}

impl DeepView for PersistentVolumeClaimVolumeSource {
    type V = PersistentVolumeClaimVolumeSourceView;

    open spec fn deep_view(&self) -> PersistentVolumeClaimVolumeSourceView {
        PersistentVolumeClaimVolumeSourceView {
            claim_name: self.claim_name@,
            read_only: self.read_only,
        }
    }
}

impl PersistentVolumeClaimVolumeSourceView {
    /// Every field at its empty value.
    pub open spec fn empty() -> PersistentVolumeClaimVolumeSourceView {
        PersistentVolumeClaimVolumeSourceView {
            claim_name: Seq::empty(),
            read_only: false,
        }
    }
}

impl Default for PersistentVolumeClaimVolumeSource {
    fn default() -> (r: Self)
        ensures
            r.deep_view() == PersistentVolumeClaimVolumeSourceView::empty(),
    {
        let r: PersistentVolumeClaimVolumeSource = PersistentVolumeClaimVolumeSource {
            claim_name: String::new(),
            read_only: false,
        };
        proof {
            assert(r.deep_view() =~= PersistentVolumeClaimVolumeSourceView::empty());
        }
        r
    }
}

impl Data for PersistentVolumeClaimVolumeSource {
    fn same(&self, other: &Self) -> (r: bool) {
        self.claim_name.same(&other.claim_name)
            && self.read_only.same(&other.read_only)
    }

    fn dup(&self) -> (r: Self) {
        PersistentVolumeClaimVolumeSource {
            claim_name: self.claim_name.dup(),
            read_only: self.read_only.dup(),
        }
    }
}

/// A claim that a run makes for itself.
#[derive(Debug, PartialEq)]
pub struct PersistentVolumeClaim {
    pub metadata: Option<ObjectMeta>,
    pub spec: Option<PersistentVolumeClaimSpec>,
}

#[verifier::ext_equal]
pub struct PersistentVolumeClaimView {
    pub metadata: Option<ObjectMetaView>,
    pub spec: Option<PersistentVolumeClaimSpecView>,
}

impl DeepView for PersistentVolumeClaim {
    type V = PersistentVolumeClaimView;

    open spec fn deep_view(&self) -> PersistentVolumeClaimView {
        PersistentVolumeClaimView {
            metadata: self.metadata.deep_view(),
            spec: self.spec.deep_view(),
        }
    }
}

impl PersistentVolumeClaimView {
    /// Every field at its empty value.
    pub open spec fn empty() -> PersistentVolumeClaimView {
        PersistentVolumeClaimView {
            metadata: None,
            spec: None,
        }
    }
}

impl Default for PersistentVolumeClaim {
    fn default() -> (r: Self)
        ensures
            r.deep_view() == PersistentVolumeClaimView::empty(),
    {
        let r: PersistentVolumeClaim = PersistentVolumeClaim {
            metadata: None,
            spec: None,
        };
        proof {
            assert(r.deep_view() =~= PersistentVolumeClaimView::empty());
        }
        r
    }
}

impl Data for PersistentVolumeClaim {
    fn same(&self, other: &Self) -> (r: bool) {
        self.metadata.same(&other.metadata)
            && self.spec.same(&other.spec)
    }

    fn dup(&self) -> (r: Self) {
        PersistentVolumeClaim {
            metadata: self.metadata.dup(),
            spec: self.spec.dup(),
        }
    }
}

#[derive(Debug, PartialEq)]
pub struct PersistentVolumeClaimSpec {
    pub access_modes: Vec<String>,
    pub resources: Option<VolumeResourceRequirements>,
    pub storage_class_name: String,
}

#[verifier::ext_equal]
pub struct PersistentVolumeClaimSpecView {
    pub access_modes: Seq<Seq<char>>,
    pub resources: Option<VolumeResourceRequirementsView>,
    pub storage_class_name: Seq<char>,
}

impl DeepView for PersistentVolumeClaimSpec {
    type V = PersistentVolumeClaimSpecView;

    open spec fn deep_view(&self) -> PersistentVolumeClaimSpecView {
        PersistentVolumeClaimSpecView {
            access_modes: self.access_modes.deep_view(),
            resources: self.resources.deep_view(),
            storage_class_name: self.storage_class_name@,
        }
    }
}

impl PersistentVolumeClaimSpecView {
    /// Every field at its empty value.
    pub open spec fn empty() -> PersistentVolumeClaimSpecView {
        PersistentVolumeClaimSpecView {
            access_modes: Seq::empty(),
            resources: None,
            storage_class_name: Seq::empty(),
        }
    }
}

impl Default for PersistentVolumeClaimSpec {
    fn default() -> (r: Self)
        ensures
            r.deep_view() == PersistentVolumeClaimSpecView::empty(),
    {
        let r: PersistentVolumeClaimSpec = PersistentVolumeClaimSpec {
            access_modes: Vec::new(),
            resources: None,
            storage_class_name: String::new(),
        };
        proof {
            assert(r.deep_view() =~= PersistentVolumeClaimSpecView::empty());
        }
        r
    }
}

impl Data for PersistentVolumeClaimSpec {
    fn same(&self, other: &Self) -> (r: bool) {
        self.access_modes.same(&other.access_modes)
            && self.resources.same(&other.resources)
            && self.storage_class_name.same(&other.storage_class_name)
    }

    fn dup(&self) -> (r: Self) {
        PersistentVolumeClaimSpec {
            access_modes: self.access_modes.dup(),
            resources: self.resources.dup(),
            storage_class_name: self.storage_class_name.dup(),
        }
    }
}

#[derive(Debug, PartialEq)]
pub struct VolumeResourceRequirements {
    pub requests: TextMap<String>,
}

#[verifier::ext_equal]
pub struct VolumeResourceRequirementsView {
    pub requests: Map<Seq<char>, Seq<char>>,
}

impl DeepView for VolumeResourceRequirements {
    type V = VolumeResourceRequirementsView;

    open spec fn deep_view(&self) -> VolumeResourceRequirementsView {
        VolumeResourceRequirementsView {
            requests: self.requests.deep_view(),
        }
    }
}

impl VolumeResourceRequirementsView {
    /// Every field at its empty value.
    pub open spec fn empty() -> VolumeResourceRequirementsView {
        VolumeResourceRequirementsView {
            requests: Map::empty(),
        }
    }
}

impl Default for VolumeResourceRequirements {
    fn default() -> (r: Self)
        ensures
            r.deep_view() == VolumeResourceRequirementsView::empty(),
    {
        let r: VolumeResourceRequirements = VolumeResourceRequirements {
            requests: TextMap::new(),
        };
        proof {
            assert(r.deep_view() =~= VolumeResourceRequirementsView::empty());
        }
        r
    }
}

impl Data for VolumeResourceRequirements {
    fn same(&self, other: &Self) -> (r: bool) {
        self.requests.same(&other.requests)
    }

    fn dup(&self) -> (r: Self) {
        VolumeResourceRequirements {
            requests: self.requests.dup(),
        }
    }
}

#[derive(Debug, PartialEq)]
pub struct HostPathVolumeSource {
    pub path: String,
    pub path_type: String,
}

#[verifier::ext_equal]
pub struct HostPathVolumeSourceView {
    pub path: Seq<char>,
    pub path_type: Seq<char>,
}

impl DeepView for HostPathVolumeSource {
    type V = HostPathVolumeSourceView;

    open spec fn deep_view(&self) -> HostPathVolumeSourceView {
        HostPathVolumeSourceView {
            path: self.path@,
            path_type: self.path_type@,
        }
    }
}

impl HostPathVolumeSourceView {
    /// Every field at its empty value.
    pub open spec fn empty() -> HostPathVolumeSourceView {
        HostPathVolumeSourceView {
            path: Seq::empty(),
            path_type: Seq::empty(),
        }
    }
}

impl Default for HostPathVolumeSource {
    fn default() -> (r: Self)
        ensures
            r.deep_view() == HostPathVolumeSourceView::empty(),
    {
        let r: HostPathVolumeSource = HostPathVolumeSource {
            path: String::new(),
            path_type: String::new(),
        };
        proof {
            assert(r.deep_view() =~= HostPathVolumeSourceView::empty());
        }
        r
    }
}

impl Data for HostPathVolumeSource {
    fn same(&self, other: &Self) -> (r: bool) {
        self.path.same(&other.path)
            && self.path_type.same(&other.path_type)
    }

    fn dup(&self) -> (r: Self) {
        HostPathVolumeSource {
            path: self.path.dup(),
            path_type: self.path_type.dup(),
        }
    }
}

/// Present and empty: a scratch directory of the pod.
#[derive(Debug, PartialEq)]
pub struct EmptyDirVolumeSource {}

#[verifier::ext_equal]
pub struct EmptyDirVolumeSourceView {}

impl DeepView for EmptyDirVolumeSource {
    type V = EmptyDirVolumeSourceView;

    open spec fn deep_view(&self) -> EmptyDirVolumeSourceView {
        EmptyDirVolumeSourceView {  }
    }
}

impl EmptyDirVolumeSourceView {
    /// Every field at its empty value.
    pub open spec fn empty() -> EmptyDirVolumeSourceView {
        EmptyDirVolumeSourceView {  }
    }
}

impl Default for EmptyDirVolumeSource {
    fn default() -> (r: Self)
        ensures
            r.deep_view() == EmptyDirVolumeSourceView::empty(),
    {
        EmptyDirVolumeSource {  }
    }
}

impl Data for EmptyDirVolumeSource {
    fn same(&self, other: &Self) -> (r: bool) {
        true
    }

    fn dup(&self) -> (r: Self) {
        EmptyDirVolumeSource {  }
    }
}

#[derive(Debug, PartialEq)]
pub struct VolumeMount {
    pub name: String,
    pub mount_path: String,
    pub read_only: bool,
}

#[verifier::ext_equal]
pub struct VolumeMountView {
    pub name: Seq<char>,
    pub mount_path: Seq<char>,
    pub read_only: bool,
}

impl DeepView for VolumeMount {
    type V = VolumeMountView;

    open spec fn deep_view(&self) -> VolumeMountView {
        VolumeMountView {
            name: self.name@,
            mount_path: self.mount_path@,
            read_only: self.read_only,
        }
    }
}

impl VolumeMountView {
    /// Every field at its empty value.
    pub open spec fn empty() -> VolumeMountView {
        VolumeMountView {
            name: Seq::empty(),
            mount_path: Seq::empty(),
            read_only: false,
        }
    }
}

impl Default for VolumeMount {
    fn default() -> (r: Self)
        ensures
            r.deep_view() == VolumeMountView::empty(),
    {
        let r: VolumeMount = VolumeMount {
            name: String::new(),
            mount_path: String::new(),
            read_only: false,
        };
        proof {
            assert(r.deep_view() =~= VolumeMountView::empty());
        }
        r
    }
}

impl Data for VolumeMount {
    fn same(&self, other: &Self) -> (r: bool) {
        self.name.same(&other.name)
            && self.mount_path.same(&other.mount_path)
            && self.read_only.same(&other.read_only)
    }

    fn dup(&self) -> (r: Self) {
        VolumeMount {
            name: self.name.dup(),
            mount_path: self.mount_path.dup(),
            read_only: self.read_only.dup(),
        }
    }
}

#[derive(Debug, PartialEq)]
pub struct Synchronization {
    pub mutexes: Vec<Mutex>,
}

#[verifier::ext_equal]
pub struct SynchronizationView {
    pub mutexes: Seq<MutexView>,
}

impl DeepView for Synchronization {
    type V = SynchronizationView;

    open spec fn deep_view(&self) -> SynchronizationView {
        SynchronizationView {
            mutexes: self.mutexes.deep_view(),
        }
    }
}

impl SynchronizationView {
    /// Every field at its empty value.
    pub open spec fn empty() -> SynchronizationView {
        SynchronizationView {
            mutexes: Seq::empty(),
        }
    }
}

impl Default for Synchronization {
    fn default() -> (r: Self)
        ensures
            r.deep_view() == SynchronizationView::empty(),
    {
        let r: Synchronization = Synchronization {
            mutexes: Vec::new(),
        };
        proof {
            assert(r.deep_view() =~= SynchronizationView::empty());
        }
        r
    }
}

impl Data for Synchronization {
    fn same(&self, other: &Self) -> (r: bool) {
        self.mutexes.same(&other.mutexes)
    }

    fn dup(&self) -> (r: Self) {
        Synchronization {
            mutexes: self.mutexes.dup(),
        }
    }
}

#[derive(Debug, PartialEq)]
pub struct Mutex {
    pub name: String,
    pub namespace: String,
}

#[verifier::ext_equal]
pub struct MutexView {
    pub name: Seq<char>,
    pub namespace: Seq<char>,
}

impl DeepView for Mutex {
    type V = MutexView;

    open spec fn deep_view(&self) -> MutexView {
        MutexView {
            name: self.name@,
            namespace: self.namespace@,
        }
    }
}

impl MutexView {
    /// Every field at its empty value.
    pub open spec fn empty() -> MutexView {
        MutexView {
            name: Seq::empty(),
            namespace: Seq::empty(),
        }
    }
}

impl Default for Mutex {
    fn default() -> (r: Self)
        ensures
            r.deep_view() == MutexView::empty(),
    {
        let r: Mutex = Mutex {
            name: String::new(),
            namespace: String::new(),
        };
        proof {
            assert(r.deep_view() =~= MutexView::empty());
        }
        r
    }
}

impl Data for Mutex {
    fn same(&self, other: &Self) -> (r: bool) {
        self.name.same(&other.name)
            && self.namespace.same(&other.namespace)
    }

    fn dup(&self) -> (r: Self) {
        Mutex {
            name: self.name.dup(),
            namespace: self.namespace.dup(),
        }
    }
}

#[derive(Debug, PartialEq)]
pub struct Toleration {
    pub key: String,
    pub operator: String,
    pub value: String,
    pub effect: String,
    pub toleration_seconds: Option<i64>,
}

#[verifier::ext_equal]
pub struct TolerationView {
    pub key: Seq<char>,
    pub operator: Seq<char>,
    pub value: Seq<char>,
    pub effect: Seq<char>,
    pub toleration_seconds: Option<i64>,
}

impl DeepView for Toleration {
    type V = TolerationView;

    open spec fn deep_view(&self) -> TolerationView {
        TolerationView {
            key: self.key@,
            operator: self.operator@,
            value: self.value@,
            effect: self.effect@,
            toleration_seconds: self.toleration_seconds.deep_view(),
        }
    }
}

impl TolerationView {
    /// Every field at its empty value.
    pub open spec fn empty() -> TolerationView {
        TolerationView {
            key: Seq::empty(),
            operator: Seq::empty(),
            value: Seq::empty(),
            effect: Seq::empty(),
            toleration_seconds: None,
        }
    }
}

impl Default for Toleration {
    fn default() -> (r: Self)
        ensures
            r.deep_view() == TolerationView::empty(),
    {
        let r: Toleration = Toleration {
            key: String::new(),
            operator: String::new(),
            value: String::new(),
            effect: String::new(),
            toleration_seconds: None,
        };
        proof {
            assert(r.deep_view() =~= TolerationView::empty());
        }
        r
    }
}

impl Data for Toleration {
    fn same(&self, other: &Self) -> (r: bool) {
        self.key.same(&other.key)
            && self.operator.same(&other.operator)
            && self.value.same(&other.value)
            && self.effect.same(&other.effect)
            && self.toleration_seconds.same(&other.toleration_seconds)
    }

    fn dup(&self) -> (r: Self) {
        Toleration {
            key: self.key.dup(),
            operator: self.operator.dup(),
            value: self.value.dup(),
            effect: self.effect.dup(),
            toleration_seconds: self.toleration_seconds.dup(),
        }
    }
}

#[derive(Debug, PartialEq)]
pub struct LocalObjectReference {
    pub name: String,
}

#[verifier::ext_equal]
pub struct LocalObjectReferenceView {
    pub name: Seq<char>,
}

impl DeepView for LocalObjectReference {
    type V = LocalObjectReferenceView;

    open spec fn deep_view(&self) -> LocalObjectReferenceView {
        LocalObjectReferenceView {
            name: self.name@,
        }
    }
}

impl LocalObjectReferenceView {
    /// Every field at its empty value.
    pub open spec fn empty() -> LocalObjectReferenceView {
        LocalObjectReferenceView {
            name: Seq::empty(),
        }
    }
}

impl Default for LocalObjectReference {
    fn default() -> (r: Self)
        ensures
            r.deep_view() == LocalObjectReferenceView::empty(),
    {
        let r: LocalObjectReference = LocalObjectReference {
            name: String::new(),
        };
        proof {
            assert(r.deep_view() =~= LocalObjectReferenceView::empty());
        }
        r
    }
}

impl Data for LocalObjectReference {
    fn same(&self, other: &Self) -> (r: bool) {
        self.name.same(&other.name)
    }

    fn dup(&self) -> (r: Self) {
        LocalObjectReference {
            name: self.name.dup(),
        }
    }
}

} // verus!
