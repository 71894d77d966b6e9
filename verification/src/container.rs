//! Containers: what a `#[container]` function declares, and the template that is
//! built from it.

use crate::api::{
    Artifact, ArtifactView, Container, ContainerView, EnvVar, EnvVarSource, EnvVarSourceView,
    EnvVarView, Inputs, InputsView, ObjectMeta, ObjectMetaView, Outputs, OutputsView, Parameter,
    ParameterView, RetryStrategy, RetryStrategyView, SecretKeySelector, SecretKeySelectorView,
    SecurityContext, SecurityContextView, Template, TemplateView, TtlStrategy, TtlStrategyView,
    ValueFrom, ValueFromView,
};
use crate::ast::{Expr, FnDecl, Path, PathView};
use crate::attrs::{
    inject_opt, inject_pairs, lower_mutex_pairs, lower_toleration_args, mutex_fn, opt_expr,
    opt_inject_in, pair_fn, parse_pod_gc_fields, parse_retry_fields, parse_ttl_fields,
    pod_gc_fields, pod_gc_of, pod_gc_strategy, retry_fields, retry_of, retry_strategy, secs_i32,
    secs_i32_of, secs_i64, secs_i64_of, synchronization_of, template_synchronization,
    template_tolerations, timeout, timeout_of, toleration_fn, toleration_views, ttl_fields, ttl_of,
    ttl_strategy, InjectCtx, InjectView, MutexArg, TolerationArg, TolerationText, TolerationTuple,
};
use crate::claims::{
    claim_mount, claim_mounts, claim_template, claim_templates, claim_volume, claim_volumes,
    law_found_claim, law_mounts_have_volumes, mount_claims, reg_at, reg_fn,
};
use crate::context::{
    claims_of, has_secret, resolved_of, secrets_of, BuildCtx, BuildCtxView, Declares, SecretText,
};
use crate::delivery::{
    artifact_inputs, artifact_outputs, container_volumes, delivery_of, delivery_with_argv,
    inputs_at, mounts_of, mounts_path, not_mounted, outputs_at, s3_at, s3_loc, service_account,
    volumes_of, ContainerDelivery, MountText, ATHENA_INPUT_ARTIFACT_DIR, ATHENA_RESULT_ARTIFACT_FILE, ATHENA_RESULT_FILE,
    CARGO_ATHENA_TEMPLATE_ENV,
};
use crate::folds::{lemma_map_res_len, map_res};
use crate::lower::IoKind;
use crate::maps::{Data, TextMap};
use crate::munge::{
    host_mount, in_artifact, opt_str, out_artifact, pvc_mount, secret_env, secret_env_name,
};
use crate::names::{argo_name, check_dns1123_name, make_argo_name, name_problem};
use crate::node::agrees;
use crate::outside::{yaml_error, yaml_problem};
use crate::pvc::{claim_at, claim_fn, PvcLifecycle, PvcReg, PvcRegView};
use crate::scan::{found_in_stmts, scan_body, scan_of, BodyScan, BodyScanView, FoundView};
use crate::signature::{
    args_of, check_fn_shape, check_yaml_safe_names, fn_args, is_artifact, is_artifact_ty, kind_for,
    shape_problem, signature, signature_of, yaml_name_problem, FnArg, Signature, SignatureView,
};
use crate::text::cat3;
use vstd::prelude::*;

verus! {

/// `#[container(…)]`. A group such as `retry(…)` is held by its fields, and a map
/// by its entries in the order of their keys.
pub struct ContainerArgs {
    pub image: Option<Expr>,
    pub name: Option<String>,
    pub service_account: Option<Expr>,
    pub node_selector: Vec<(String, Expr)>,
    pub on_exit_if_root: Option<Path>,
    pub retry: Option<Vec<(String, Expr)>>,
    pub timeout: Option<Expr>,
    pub pod_running_timeout: Option<Expr>,
    pub ttl_if_root: Option<Vec<(String, Expr)>>,
    pub pod_gc_if_root: Option<Vec<(String, Expr)>>,
    pub active_deadline_if_root: Option<Expr>,
    pub env: Vec<(String, Expr)>,
    /// Host path, where it is mounted, and whether only for reading.
    pub host_mount: Vec<(String, String, bool)>,
    pub annotations: Vec<(String, Expr)>,
    pub privileged: bool,
    pub daemon: bool,
    pub mutexes: Vec<MutexArg>,
    pub mutexes_if_root: Vec<MutexArg>,
    pub tolerations: Vec<TolerationArg>,
    pub tolerations_if_root: Vec<TolerationArg>,
    pub affinity: Option<Expr>,
    pub affinity_if_root: Option<Expr>,
    pub pod_spec_patch: Option<Expr>,
    pub pod_spec_patch_if_root: Option<Expr>,
    pub image_pull_secrets_if_root: Vec<String>,
}

/// The attribute values of a container after injection.
pub struct ContainerTexts {
    pub image: Option<String>,
    pub service_account: Option<String>,
    pub node_selector: Vec<(String, String)>,
    pub env: Vec<(String, String)>,
    pub annotations: Vec<(String, String)>,
    pub mutexes: Vec<(String, String)>,
    pub mutexes_if_root: Vec<(String, String)>,
    pub tolerations: Vec<TolerationTuple>,
    pub tolerations_if_root: Vec<TolerationTuple>,
    pub affinity: Option<String>,
    pub affinity_if_root: Option<String>,
    pub pod_spec_patch: Option<String>,
    pub pod_spec_patch_if_root: Option<String>,
}

#[verifier::ext_equal]
pub struct ContainerTextsView {
    pub image: Option<Seq<char>>,
    pub service_account: Option<Seq<char>>,
    pub node_selector: Seq<(Seq<char>, Seq<char>)>,
    pub env: Seq<(Seq<char>, Seq<char>)>,
    pub annotations: Seq<(Seq<char>, Seq<char>)>,
    pub mutexes: Seq<(Seq<char>, Seq<char>)>,
    pub mutexes_if_root: Seq<(Seq<char>, Seq<char>)>,
    pub tolerations: Seq<TolerationText>,
    pub tolerations_if_root: Seq<TolerationText>,
    pub affinity: Option<Seq<char>>,
    pub affinity_if_root: Option<Seq<char>>,
    pub pod_spec_patch: Option<Seq<char>>,
    pub pod_spec_patch_if_root: Option<Seq<char>>,
}

impl DeepView for ContainerTexts {
    type V = ContainerTextsView;

    open spec fn deep_view(&self) -> ContainerTextsView {
        ContainerTextsView {
            image: self.image.deep_view(),
            service_account: self.service_account.deep_view(),
            node_selector: self.node_selector.deep_view(),
            env: self.env.deep_view(),
            annotations: self.annotations.deep_view(),
            mutexes: self.mutexes.deep_view(),
            mutexes_if_root: self.mutexes_if_root.deep_view(),
            tolerations: self.tolerations.deep_view(),
            tolerations_if_root: self.tolerations_if_root.deep_view(),
            affinity: self.affinity.deep_view(),
            affinity_if_root: self.affinity_if_root.deep_view(),
            pod_spec_patch: self.pod_spec_patch.deep_view(),
            pod_spec_patch_if_root: self.pod_spec_patch_if_root.deep_view(),
        }
    }
}

/// The retries, the timeouts and the deletion times of a template.
pub struct Limits {
    pub retry: Option<RetryStrategy>,
    pub timeout: String,
    pub pod_running_timeout: Option<i32>,
    pub active_deadline_if_root: Option<i64>,
    pub ttl_if_root: Option<TtlStrategy>,
    pub pod_gc_if_root: Option<String>,
}

#[verifier::ext_equal]
pub struct LimitsView {
    pub retry: Option<RetryStrategyView>,
    pub timeout: Seq<char>,
    pub pod_running_timeout: Option<i32>,
    pub active_deadline_if_root: Option<i64>,
    pub ttl_if_root: Option<TtlStrategyView>,
    pub pod_gc_if_root: Option<Seq<char>>,
}

impl DeepView for Limits {
    type V = LimitsView;

    open spec fn deep_view(&self) -> LimitsView {
        LimitsView {
            retry: self.retry.deep_view(),
            timeout: self.timeout@,
            pod_running_timeout: self.pod_running_timeout,
            active_deadline_if_root: self.active_deadline_if_root,
            ttl_if_root: self.ttl_if_root.deep_view(),
            pod_gc_if_root: self.pod_gc_if_root.deep_view(),
        }
    }
}

/// A container template, declared.
pub struct ContainerDecl {
    pub argo_name: String,
    pub signature: Signature,
    pub output_kind: IoKind,
    pub scan: BodyScan,
    pub texts: ContainerTexts,
    pub limits: Limits,
    pub host_mounts: Vec<(String, String, bool)>,
    pub image_pull_secrets_if_root: Vec<String>,
    pub on_exit_if_root: Option<Path>,
    pub privileged: bool,
    pub daemon: bool,
}

#[verifier::ext_equal]
pub struct ContainerDeclView {
    pub argo_name: Seq<char>,
    pub signature: SignatureView,
    pub output_kind: IoKind,
    pub scan: BodyScanView,
    pub texts: ContainerTextsView,
    pub limits: LimitsView,
    pub host_mounts: Seq<(Seq<char>, Seq<char>, bool)>,
    pub image_pull_secrets_if_root: Seq<Seq<char>>,
    pub on_exit_if_root: Option<PathView>,
    pub privileged: bool,
    pub daemon: bool,
}

impl DeepView for ContainerDecl {
    type V = ContainerDeclView;

    open spec fn deep_view(&self) -> ContainerDeclView {
        ContainerDeclView {
            argo_name: self.argo_name@,
            signature: self.signature.deep_view(),
            output_kind: self.output_kind,
            scan: self.scan.deep_view(),
            texts: self.texts.deep_view(),
            limits: self.limits.deep_view(),
            host_mounts: self.host_mounts.deep_view(),
            image_pull_secrets_if_root: self.image_pull_secrets_if_root.deep_view(),
            on_exit_if_root: self.on_exit_if_root.deep_view(),
            privileged: self.privileged,
            daemon: self.daemon,
        }
    }
}

// ---- limits ------------------------------------------------------------------------
pub open spec fn opt_retry(f: Option<Vec<(String, Expr)>>) -> Result<
    Option<RetryStrategyView>,
    Seq<char>,
> {
    match f {
        None => Ok(None),
        Some(v) => match retry_fields(v@) {
            Ok(r) => retry_of(Some(r)),
            Err(m) => Err(m),
        },
    }
}

pub open spec fn opt_ttl(f: Option<Vec<(String, Expr)>>) -> Result<
    Option<TtlStrategyView>,
    Seq<char>,
> {
    match f {
        None => Ok(None),
        Some(v) => match ttl_fields(v@) {
            Ok(r) => ttl_of(Some(r)),
            Err(m) => Err(m),
        },
    }
}

pub open spec fn opt_pod_gc(f: Option<Vec<(String, Expr)>>) -> Result<Option<Seq<char>>, Seq<char>> {
    match f {
        None => Ok(None),
        Some(v) => match pod_gc_fields(v@) {
            Ok(r) => pod_gc_of(Some(r)),
            Err(m) => Err(m),
        },
    }
}

/// Lowers `retry(…)` from its fields.
pub fn lower_retry(f: &Option<Vec<(String, Expr)>>) -> (r: Result<Option<RetryStrategy>, String>)
    ensures
        agrees(r, opt_retry(*f)),
{
    match f {
        None => Ok(None),
        Some(v) => match parse_retry_fields(v) {
            Ok(a) => retry_strategy(&Some(a)),
            Err(m) => Err(m),
        },
    }
}

/// Lowers `ttl_if_root(…)` from its fields.
pub fn lower_ttl(f: &Option<Vec<(String, Expr)>>) -> (r: Result<Option<TtlStrategy>, String>)
    ensures
        agrees(r, opt_ttl(*f)),
{
    match f {
        None => Ok(None),
        Some(v) => match parse_ttl_fields(v) {
            Ok(a) => ttl_strategy(&Some(a)),
            Err(m) => Err(m),
        },
    }
}

/// Lowers `pod_gc_if_root(…)` from its fields.
pub fn lower_pod_gc(f: &Option<Vec<(String, Expr)>>) -> (r: Result<Option<String>, String>)
    ensures
        agrees(r, opt_pod_gc(*f)),
{
    match f {
        None => Ok(None),
        Some(v) => match parse_pod_gc_fields(v) {
            Ok(a) => pod_gc_strategy(&Some(a)),
            Err(m) => Err(m),
        },
    }
}

fn opt_ref(e: &Option<Expr>) -> (r: Option<&Expr>)
    ensures
        opt_expr(r) == *e,
{
    match e {
        Some(x) => Some(x),
        None => None,
    }
}

pub open spec fn limits_of(
    retry: Option<Vec<(String, Expr)>>,
    timeout: Option<Expr>,
    pod_running: Option<Expr>,
    active_deadline: Option<Expr>,
    ttl: Option<Vec<(String, Expr)>>,
    pod_gc: Option<Vec<(String, Expr)>>,
) -> Result<LimitsView, Seq<char>> {
    match opt_retry(retry) {
        Err(m) => Err(m),
        Ok(retry) => match timeout_of(timeout) {
            Err(m) => Err(m),
            Ok(timeout) => match secs_i32_of(pod_running, "pod_running_timeout"@) {
                Err(m) => Err(m),
                Ok(pod_running_timeout) => match secs_i64_of(
                    active_deadline,
                    "active_deadline_if_root"@,
                ) {
                    Err(m) => Err(m),
                    Ok(active_deadline_if_root) => match opt_ttl(ttl) {
                        Err(m) => Err(m),
                        Ok(ttl_if_root) => match opt_pod_gc(pod_gc) {
                            Err(m) => Err(m),
                            Ok(pod_gc_if_root) => Ok(
                                LimitsView {
                                    retry,
                                    timeout,
                                    pod_running_timeout,
                                    active_deadline_if_root,
                                    ttl_if_root,
                                    pod_gc_if_root,
                                },
                            ),
                        },
                    },
                },
            },
        },
    }
}

/// Lowers the retries, the timeouts and the deletion times of a template.
pub fn lower_limits(
    retry_f: &Option<Vec<(String, Expr)>>,
    timeout_e: &Option<Expr>,
    pod_running: &Option<Expr>,
    active_deadline: &Option<Expr>,
    ttl: &Option<Vec<(String, Expr)>>,
    pod_gc: &Option<Vec<(String, Expr)>>,
) -> (r: Result<Limits, String>)
    ensures
        agrees(
            r,
            limits_of(*retry_f, *timeout_e, *pod_running, *active_deadline, *ttl, *pod_gc),
        ),
{
    let retry: Option<RetryStrategy> = match lower_retry(retry_f) {
        Ok(v) => v,
        Err(m) => {
            return Err(m);
        },
    };
    let timeout: String = match timeout(opt_ref(timeout_e)) {
        Ok(v) => v,
        Err(m) => {
            return Err(m);
        },
    };
    let pod_running_timeout: Option<i32> = match secs_i32(
        opt_ref(pod_running),
        "pod_running_timeout",
    ) {
        Ok(v) => v,
        Err(m) => {
            return Err(m);
        },
    };
    let active_deadline_if_root: Option<i64> = match secs_i64(
        opt_ref(active_deadline),
        "active_deadline_if_root",
    ) {
        Ok(v) => v,
        Err(m) => {
            return Err(m);
        },
    };
    let ttl_if_root: Option<TtlStrategy> = match lower_ttl(ttl) {
        Ok(v) => v,
        Err(m) => {
            return Err(m);
        },
    };
    match lower_pod_gc(pod_gc) {
        Ok(pod_gc_if_root) => Ok(
            Limits {
                retry,
                timeout,
                pod_running_timeout,
                active_deadline_if_root,
                ttl_if_root,
                pod_gc_if_root,
            },
        ),
        Err(m) => Err(m),
    }
}

// ---- declaration ---------------------------------------------------------------------
/// The attribute values of a container: over its own inputs at template scope, over
/// the run's parameters at root scope.
pub open spec fn texts_of(a: ContainerArgs, own: InjectView, root: InjectView) -> Result<
    ContainerTextsView,
    Seq<char>,
> {
    match opt_inject_in(a.image, own) {
        Err(m) => Err(m),
        Ok(image) => match opt_inject_in(a.service_account, own) {
            Err(m) => Err(m),
            Ok(service_account) => match map_res(a.node_selector@, pair_fn(own)) {
                Err(m) => Err(m),
                Ok(node_selector) => match map_res(a.env@, pair_fn(own)) {
                    Err(m) => Err(m),
                    Ok(env) => match map_res(a.annotations@, pair_fn(own)) {
                        Err(m) => Err(m),
                        Ok(annotations) => texts_from(
                            a,
                            own,
                            root,
                            ContainerTextsView {
                                image,
                                service_account,
                                node_selector,
                                env,
                                annotations,
                                mutexes: Seq::empty(),
                                mutexes_if_root: Seq::empty(),
                                tolerations: Seq::empty(),
                                tolerations_if_root: Seq::empty(),
                                affinity: None,
                                affinity_if_root: None,
                                pod_spec_patch: None,
                                pod_spec_patch_if_root: None,
                            },
                        ),
                    },
                },
            },
        },
    }
}

/// `t` with the mutexes, tolerations, affinities and patches filled in.
#[verifier::opaque]
pub open spec fn texts_from(
    a: ContainerArgs,
    own: InjectView,
    root: InjectView,
    t: ContainerTextsView,
) -> Result<ContainerTextsView, Seq<char>> {
    match map_res(a.mutexes@, mutex_fn(own)) {
        Err(m) => Err(m),
        Ok(mutexes) => match map_res(a.mutexes_if_root@, mutex_fn(root)) {
            Err(m) => Err(m),
            Ok(mutexes_if_root) => match map_res(a.tolerations@, toleration_fn(own)) {
                Err(m) => Err(m),
                Ok(tolerations) => match map_res(a.tolerations_if_root@, toleration_fn(root)) {
                    Err(m) => Err(m),
                    Ok(tolerations_if_root) => match opt_inject_in(a.affinity, own) {
                        Err(m) => Err(m),
                        Ok(affinity) => match opt_inject_in(a.affinity_if_root, root) {
                            Err(m) => Err(m),
                            Ok(affinity_if_root) => match opt_inject_in(a.pod_spec_patch, own) {
                                Err(m) => Err(m),
                                Ok(pod_spec_patch) => match opt_inject_in(
                                    a.pod_spec_patch_if_root,
                                    root,
                                ) {
                                    Err(m) => Err(m),
                                    Ok(pod_spec_patch_if_root) => Ok(
                                        ContainerTextsView {
                                            mutexes,
                                            mutexes_if_root,
                                            tolerations,
                                            tolerations_if_root,
                                            affinity,
                                            affinity_if_root,
                                            pod_spec_patch,
                                            pod_spec_patch_if_root,
                                            ..t
                                        },
                                    ),
                                },
                            },
                        },
                    },
                },
            },
        },
    }
}

fn lower_more_texts(
    a: &ContainerArgs,
    own: &InjectCtx,
    root: &InjectCtx,
    image: Option<String>,
    service_account: Option<String>,
    node_selector: Vec<(String, String)>,
    env: Vec<(String, String)>,
    annotations: Vec<(String, String)>,
) -> (r: Result<ContainerTexts, String>)
    ensures
        agrees(
            r,
            texts_from(
                *a,
                own.deep_view(),
                root.deep_view(),
                (ContainerTextsView {
                    image: image.deep_view(),
                    service_account: service_account.deep_view(),
                    node_selector: node_selector.deep_view(),
                    env: env.deep_view(),
                    annotations: annotations.deep_view(),
                    mutexes: Seq::empty(),
                    mutexes_if_root: Seq::empty(),
                    tolerations: Seq::empty(),
                    tolerations_if_root: Seq::empty(),
                    affinity: None,
                    affinity_if_root: None,
                    pod_spec_patch: None,
                    pod_spec_patch_if_root: None,
                }),
            ),
        ),
{
    proof {
        reveal(texts_from);
    }
    let mutexes: Vec<(String, String)> = match lower_mutex_pairs(&a.mutexes, own) {
        Ok(v) => v,
        Err(m) => {
            return Err(m);
        },
    };
    let mutexes_if_root: Vec<(String, String)> = match lower_mutex_pairs(
        &a.mutexes_if_root,
        root,
    ) {
        Ok(v) => v,
        Err(m) => {
            return Err(m);
        },
    };
    let tolerations: Vec<TolerationTuple> = match lower_toleration_args(&a.tolerations, own) {
        Ok(v) => v,
        Err(m) => {
            return Err(m);
        },
    };
    let tolerations_if_root: Vec<TolerationTuple> = match lower_toleration_args(
        &a.tolerations_if_root,
        root,
    ) {
        Ok(v) => v,
        Err(m) => {
            return Err(m);
        },
    };
    let affinity: Option<String> = match inject_opt(&a.affinity, own) {
        Ok(v) => v,
        Err(m) => {
            return Err(m);
        },
    };
    let affinity_if_root: Option<String> = match inject_opt(&a.affinity_if_root, root) {
        Ok(v) => v,
        Err(m) => {
            return Err(m);
        },
    };
    let pod_spec_patch: Option<String> = match inject_opt(&a.pod_spec_patch, own) {
        Ok(v) => v,
        Err(m) => {
            return Err(m);
        },
    };
    match inject_opt(&a.pod_spec_patch_if_root, root) {
        Ok(pod_spec_patch_if_root) => Ok(
            ContainerTexts {
                image,
                service_account,
                node_selector,
                env,
                annotations,
                mutexes,
                mutexes_if_root,
                tolerations,
                tolerations_if_root,
                affinity,
                affinity_if_root,
                pod_spec_patch,
                pod_spec_patch_if_root,
            },
        ),
        Err(m) => Err(m),
    }
}

fn lower_texts(a: &ContainerArgs, own: &InjectCtx, root: &InjectCtx) -> (r: Result<
    ContainerTexts,
    String,
>)
    ensures
        agrees(r, texts_of(*a, own.deep_view(), root.deep_view())),
{
    let image: Option<String> = match inject_opt(&a.image, own) {
        Ok(v) => v,
        Err(m) => {
            return Err(m);
        },
    };
    let service_account: Option<String> = match inject_opt(&a.service_account, own) {
        Ok(v) => v,
        Err(m) => {
            return Err(m);
        },
    };
    let node_selector: Vec<(String, String)> = match inject_pairs(&a.node_selector, own) {
        Ok(v) => v,
        Err(m) => {
            return Err(m);
        },
    };
    let env: Vec<(String, String)> = match inject_pairs(&a.env, own) {
        Ok(v) => v,
        Err(m) => {
            return Err(m);
        },
    };
    let annotations: Vec<(String, String)> = match inject_pairs(&a.annotations, own) {
        Ok(v) => v,
        Err(m) => {
            return Err(m);
        },
    };
    lower_more_texts(a, own, root, image, service_account, node_selector, env, annotations)
}

/// Why a function with this name override cannot be a template.
pub open spec fn template_problem(f: FnDecl, over: Option<Seq<char>>, kind: Seq<char>) -> Option<
    Seq<char>,
> {
    match shape_problem(f, kind) {
        Some(m) => Some(m),
        None => match yaml_name_problem(args_of(f.params@), over) {
            Some(m) => Some(m),
            None => match over {
                Some(n) => name_problem(n),
                None => None,
            },
        },
    }
}

/// Checks the shape and the names of a template's function.
pub fn check_template(f: &FnDecl, args: &Vec<FnArg>, over: &Option<String>, kind: &str) -> (r:
    Result<(), String>)
    requires
        args.deep_view() == args_of(f.params@),
    ensures
        match r {
            Ok(_) => template_problem(*f, over.deep_view(), kind@) is None,
            Err(m) => template_problem(*f, over.deep_view(), kind@) == Some(m@),
        },
{
    match check_fn_shape(f, kind) {
        Ok(_) => {},
        Err(m) => {
            return Err(m);
        },
    }
    match check_yaml_safe_names(args, over) {
        Ok(_) => {},
        Err(m) => {
            return Err(m);
        },
    }
    match over {
        Some(n) => check_dns1123_name(n.as_str()),
        None => Ok(()),
    }
}

pub open spec fn output_kind_of(f: FnDecl) -> IoKind {
    match f.output {
        Some(ty) => kind_for(is_artifact(ty)),
        None => IoKind::Parameter,
    }
}

/// Whether a function returns an artifact or a parameter.
pub fn output_kind(f: &FnDecl) -> (r: IoKind)
    ensures
        r == output_kind_of(*f),
{
    match &f.output {
        Some(ty) => if is_artifact_ty(ty) {
            IoKind::Artifact
        } else {
            IoKind::Parameter
        },
        None => IoKind::Parameter,
    }
}

/// What a `#[container]` function of the crate `krate` declares.
pub open spec fn container_decl_of(f: FnDecl, a: ContainerArgs, krate: Seq<char>) -> Result<
    ContainerDeclView,
    Seq<char>,
> {
    let args = args_of(f.params@);
    let sig = signature_of(args);
    let own = InjectView { args: sig.inputs, scope: "inputs.parameters"@, kind: "container"@ };
    let root = InjectView { args: sig.inputs, scope: "workflow.parameters"@, kind: "container"@ };
    match template_problem(f, a.name.deep_view(), "container"@) {
        Some(m) => Err(m),
        None => match texts_of(a, own, root) {
            Err(m) => Err(m),
            Ok(texts) => match limits_of(
                a.retry,
                a.timeout,
                a.pod_running_timeout,
                a.active_deadline_if_root,
                a.ttl_if_root,
                a.pod_gc_if_root,
            ) {
                Err(m) => Err(m),
                Ok(limits) => Ok(
                    ContainerDeclView {
                        argo_name: argo_name(a.name.deep_view(), krate, f.name@),
                        signature: sig,
                        output_kind: output_kind_of(f),
                        scan: scan_of(found_in_stmts(f.body@)),
                        texts,
                        limits,
                        host_mounts: a.host_mount.deep_view(),
                        image_pull_secrets_if_root: a.image_pull_secrets_if_root.deep_view(),
                        on_exit_if_root: a.on_exit_if_root.deep_view(),
                        privileged: a.privileged,
                        daemon: a.daemon,
                    },
                ),
            },
        },
    }
}

fn copy_mounts(v: &Vec<(String, String, bool)>) -> (r: Vec<(String, String, bool)>)
    ensures
        r.deep_view() == v.deep_view(),
{
    let mut out: Vec<(String, String, bool)> = Vec::new();
    let ghost all = v.deep_view();
    let mut i: usize = 0;
    proof {
        assert(out.deep_view() =~= all.take(0));
    }
    while i < v.len()
        invariant
            all == v.deep_view(),
            i <= v@.len(),
            out.deep_view() == all.take(i as int),
        decreases v@.len() - i,
    {
        let ghost before = out.deep_view();
        out.push((v[i].0.clone(), v[i].1.clone(), v[i].2));
        proof {
            assert(out.deep_view() =~= before.push(v@[i as int].deep_view()));
            assert(out.deep_view() =~= all.take(i + 1));
        }
        i = i + 1;
    }
    proof {
        assert(all.take(i as int) =~= all);
    }
    out
}

/// Reads a `#[container]` function: its name, its inputs, what its body declares,
/// and its attributes.
pub fn declare_container(f: &FnDecl, a: &ContainerArgs, krate: &str) -> (r: Result<
    ContainerDecl,
    String,
>)
    ensures
        agrees(r, container_decl_of(*f, *a, krate@)),
{
    let args: Vec<FnArg> = fn_args(f);
    match check_template(f, &args, &a.name, "container") {
        Ok(_) => {},
        Err(m) => {
            return Err(m);
        },
    }
    let sig: Signature = signature(&args);
    let texts: ContainerTexts;
    {
        let own: InjectCtx = InjectCtx {
            args: &sig.inputs,
            scope: "inputs.parameters",
            kind: "container",
        };
        let root: InjectCtx = InjectCtx {
            args: &sig.inputs,
            scope: "workflow.parameters",
            kind: "container",
        };
        texts = match lower_texts(a, &own, &root) {
            Ok(t) => t,
            Err(m) => {
                return Err(m);
            },
        };
    }
    let limits: Limits = match lower_limits(
        &a.retry,
        &a.timeout,
        &a.pod_running_timeout,
        &a.active_deadline_if_root,
        &a.ttl_if_root,
        &a.pod_gc_if_root,
    ) {
        Ok(l) => l,
        Err(m) => {
            return Err(m);
        },
    };
    Ok(
        ContainerDecl {
            argo_name: make_argo_name(&a.name, krate, f.name.as_str()),
            signature: sig,
            output_kind: output_kind(f),
            scan: scan_body(f),
            texts,
            limits,
            host_mounts: copy_mounts(&a.host_mount),
            image_pull_secrets_if_root: a.image_pull_secrets_if_root.dup(),
            on_exit_if_root: a.on_exit_if_root.dup(),
            privileged: a.privileged,
            daemon: a.daemon,
        },
    )
}

// ---- the template ----------------------------------------------------------------------
/// The map of a list of entries; of a key that occurs twice, the last counts.
pub open spec fn pairs_map(pairs: Seq<(Seq<char>, Seq<char>)>) -> Map<Seq<char>, Seq<char>>
    decreases pairs.len(),
{
    if pairs.len() == 0 {
        Map::empty()
    } else {
        pairs_map(pairs.drop_last()).insert(pairs.last().0, pairs.last().1)
    }
}

/// The map of a list of entries.
pub fn map_from_pairs(pairs: &Vec<(String, String)>) -> (r: TextMap<String>)
    ensures
        r.deep_view() == pairs_map(pairs.deep_view()),
{
    let ghost all = pairs.deep_view();
    let mut out: TextMap<String> = TextMap::new();
    let mut i: usize = 0;
    proof {
        assert(all.take(0) =~= Seq::<(Seq<char>, Seq<char>)>::empty());
    }
    while i < pairs.len()
        invariant
            all == pairs.deep_view(),
            i <= pairs@.len(),
            out.deep_view() == pairs_map(all.take(i as int)),
        decreases pairs@.len() - i,
    {
        proof {
            assert(all.take(i + 1).drop_last() =~= all.take(i as int));
            assert(all.take(i + 1).last() == pairs@[i as int].deep_view());
        }
        out.insert(pairs[i].0.clone(), pairs[i].1.clone());
        i = i + 1;
    }
    proof {
        assert(all.take(i as int) =~= all);
    }
    out
}

/// Annotations as metadata; none at all is no metadata.
pub open spec fn metadata_of(pairs: Seq<(Seq<char>, Seq<char>)>) -> Option<ObjectMetaView> {
    if pairs.len() == 0 {
        None
    } else {
        Some(ObjectMetaView { annotations: pairs_map(pairs), ..ObjectMetaView::empty() })
    }
}

/// Annotations as metadata.
pub fn metadata_from(pairs: &Vec<(String, String)>) -> (r: Option<ObjectMeta>)
    ensures
        r.deep_view() == metadata_of(pairs.deep_view()),
{
    if pairs.len() == 0 {
        None
    } else {
        Some(
            ObjectMeta {
                name: String::new(),
                generate_name: String::new(),
                namespace: String::new(),
                labels: TextMap::new(),
                annotations: map_from_pairs(pairs),
            },
        )
    }
}

pub open spec fn declared_param(name: Seq<char>) -> ParameterView {
    ParameterView { name, ..ParameterView::empty() }
}

pub open spec fn declared_params(names: Seq<Seq<char>>) -> Seq<ParameterView> {
    Seq::new(names.len(), |i: int| declared_param(names[i]))
}

/// Declares input parameters.
pub fn declare_params(names: &Vec<String>) -> (r: Vec<Parameter>)
    ensures
        r.deep_view() == declared_params(names.deep_view()),
{
    let ghost want = declared_params(names.deep_view());
    let mut out: Vec<Parameter> = Vec::new();
    let mut i: usize = 0;
    proof {
        assert(out.deep_view() =~= want.take(0));
    }
    while i < names.len()
        invariant
            want == declared_params(names.deep_view()),
            i <= names@.len(),
            out.deep_view() == want.take(i as int),
        decreases names@.len() - i,
    {
        let p: Parameter = Parameter {
            name: names[i].clone(),
            value: None,
            default_value: None,
            value_from: None,
        };
        let ghost pv = p.deep_view();
        let ghost before = out.deep_view();
        out.push(p);
        proof {
            assert(out.deep_view() =~= before.push(pv));
            assert(out.deep_view() =~= want.take(i + 1));
        }
        i = i + 1;
    }
    proof {
        assert(want.take(i as int) =~= want);
    }
    out
}

pub open spec fn arg_artifact(name: Seq<char>) -> ArtifactView {
    ArtifactView {
        name,
        path: ATHENA_INPUT_ARTIFACT_DIR@ + "/"@ + name,
        ..ArtifactView::empty()
    }
}

pub open spec fn arg_artifacts(names: Seq<Seq<char>>) -> Seq<ArtifactView> {
    Seq::new(names.len(), |i: int| arg_artifact(names[i]))
}

fn make_arg_artifacts(names: &Vec<String>) -> (r: Vec<Artifact>)
    ensures
        r.deep_view() == arg_artifacts(names.deep_view()),
{
    let ghost want = arg_artifacts(names.deep_view());
    let mut out: Vec<Artifact> = Vec::new();
    let mut i: usize = 0;
    proof {
        assert(out.deep_view() =~= want.take(0));
    }
    while i < names.len()
        invariant
            want == arg_artifacts(names.deep_view()),
            i <= names@.len(),
            out.deep_view() == want.take(i as int),
        decreases names@.len() - i,
    {
        let a: Artifact = Artifact {
            name: names[i].clone(),
            path: cat3(ATHENA_INPUT_ARTIFACT_DIR, "/", names[i].as_str()),
            s3: None,
            archive: None,
            mode: None,
            from: String::new(),
        };
        let ghost av = a.deep_view();
        let ghost before = out.deep_view();
        out.push(a);
        proof {
            assert(out.deep_view() =~= before.push(av));
            assert(out.deep_view() =~= want.take(i + 1));
        }
        i = i + 1;
    }
    proof {
        assert(want.take(i as int) =~= want);
    }
    out
}

/// The output of a container that returns a parameter.
pub open spec fn return_param() -> ParameterView {
    ParameterView {
        name: "return"@,
        value_from: Some(ValueFromView { path: ATHENA_RESULT_FILE@, ..ValueFromView::empty() }),
        ..ParameterView::empty()
    }
}

/// The output of a container that returns an artifact: unique for each pod.
pub open spec fn return_artifact(ctx: BuildCtxView) -> ArtifactView {
    ArtifactView {
        name: "return"@,
        path: ATHENA_RESULT_ARTIFACT_FILE@,
        s3: Some(s3_at(ctx.config.artifact_repository.s3, "{{pod.name}}/return"@)),
        ..ArtifactView::empty()
    }
}

pub open spec fn container_outputs(
    ctx: BuildCtxView,
    out_names: Seq<Seq<char>>,
    kind: IoKind,
) -> OutputsView {
    let saved = outputs_at(ctx.config.artifact_repository.s3, out_names);
    match kind {
        IoKind::Parameter => OutputsView { parameters: seq![return_param()], artifacts: saved },
        IoKind::Artifact => OutputsView {
            parameters: Seq::empty(),
            artifacts: saved.push(return_artifact(ctx)),
        },
    }
}

fn build_outputs(ctx: &BuildCtx, out_names: &Vec<String>, kind: IoKind) -> (r: Outputs)
    ensures
        r.deep_view() == container_outputs(ctx.deep_view(), out_names.deep_view(), kind),
{
    let mut artifacts: Vec<Artifact> = artifact_outputs(ctx, out_names);
    let mut parameters: Vec<Parameter> = Vec::new();
    match kind {
        IoKind::Parameter => {
            let p: Parameter = Parameter {
                name: "return".to_owned(),
                value: None,
                default_value: None,
                value_from: Some(
                    ValueFrom {
                        path: ATHENA_RESULT_FILE.to_owned(),
                        parameter: String::new(),
                        expression: String::new(),
                    },
                ),
            };
            let ghost pv = p.deep_view();
            parameters.push(p);
            proof {
                assert(parameters.deep_view() =~= seq![pv]);
                assert(pv =~= return_param());
            }
        },
        IoKind::Artifact => {
            let s3 = &ctx.config().artifact_repository.s3;
            let a: Artifact = Artifact {
                name: "return".to_owned(),
                path: ATHENA_RESULT_ARTIFACT_FILE.to_owned(),
                s3: Some(s3_loc(s3, "{{pod.name}}/return")),
                archive: None,
                mode: None,
                from: String::new(),
            };
            let ghost av = a.deep_view();
            let ghost before = artifacts.deep_view();
            artifacts.push(a);
            proof {
                assert(parameters.deep_view() =~= Seq::<ParameterView>::empty());
                assert(artifacts.deep_view() =~= before.push(av));
                assert(av =~= return_artifact(ctx.deep_view()));
            }
        },
    }
    Outputs { parameters, artifacts }
}

pub open spec fn plain_env(name: Seq<char>, value: Seq<char>) -> EnvVarView {
    EnvVarView { name, value, value_from: None }
}

pub open spec fn secret_var(s: SecretText) -> EnvVarView {
    EnvVarView {
        name: secret_env(s.0, s.1),
        value: Seq::empty(),
        value_from: Some(
            EnvVarSourceView {
                secret_key_ref: Some(
                    SecretKeySelectorView { name: s.0, key: s.1, optional: s.2 },
                ),
            },
        ),
    }
}

/// The environment of a container: the selector of its body, its own variables,
/// and its secrets.
pub open spec fn env_of(
    name: Seq<char>,
    pairs: Seq<(Seq<char>, Seq<char>)>,
    secrets: Seq<SecretText>,
) -> Seq<EnvVarView> {
    seq![plain_env(CARGO_ATHENA_TEMPLATE_ENV@, name)] + Seq::new(
        pairs.len(),
        |i: int| plain_env(pairs[i].0, pairs[i].1),
    ) + Seq::new(secrets.len(), |i: int| secret_var(secrets[i]))
}

fn push_env(v: &mut Vec<EnvVar>, e: EnvVar)
    ensures
        final(v).deep_view() == old(v).deep_view().push(e.deep_view()),
{
    let ghost before = v.deep_view();
    let ghost ev = e.deep_view();
    v.push(e);
    proof {
        assert(v.deep_view() =~= before.push(ev));
    }
}

fn build_env(
    name: &str,
    pairs: &Vec<(String, String)>,
    secrets: &Vec<(String, String, bool)>,
) -> (r: Vec<EnvVar>)
    ensures
        r.deep_view() == env_of(name@, pairs.deep_view(), secrets.deep_view()),
{
    let ghost pv = pairs.deep_view();
    let ghost sv = secrets.deep_view();
    let ghost head = seq![plain_env(CARGO_ATHENA_TEMPLATE_ENV@, name@)];
    let ghost mid = Seq::new(pv.len(), |i: int| plain_env(pv[i].0, pv[i].1));
    let ghost end = Seq::new(sv.len(), |i: int| secret_var(sv[i]));
    let mut out: Vec<EnvVar> = Vec::new();
    proof {
        assert(out.deep_view() =~= Seq::<EnvVarView>::empty());
    }
    push_env(
        &mut out,
        EnvVar {
            name: CARGO_ATHENA_TEMPLATE_ENV.to_owned(),
            value: name.to_owned(),
            value_from: None,
        },
    );
    let mut i: usize = 0;
    proof {
        assert(out.deep_view() =~= head + mid.take(0));
    }
    while i < pairs.len()
        invariant
            pv == pairs.deep_view(),
            mid == Seq::new(pv.len(), |i: int| plain_env(pv[i].0, pv[i].1)),
            i <= pairs@.len(),
            out.deep_view() == head + mid.take(i as int),
        decreases pairs@.len() - i,
    {
        proof {
            assert(pv[i as int] == pairs@[i as int].deep_view());
        }
        push_env(
            &mut out,
            EnvVar { name: pairs[i].0.clone(), value: pairs[i].1.clone(), value_from: None },
        );
        proof {
            assert(out.deep_view() =~= head + mid.take(i + 1));
        }
        i = i + 1;
    }
    let mut k: usize = 0;
    proof {
        assert(mid.take(i as int) =~= mid);
        assert(out.deep_view() =~= head + mid + end.take(0));
    }
    while k < secrets.len()
        invariant
            sv == secrets.deep_view(),
            end == Seq::new(sv.len(), |i: int| secret_var(sv[i])),
            k <= secrets@.len(),
            out.deep_view() == head + mid + end.take(k as int),
        decreases secrets@.len() - k,
    {
        proof {
            assert(sv[k as int] == secrets@[k as int].deep_view());
        }
        let s: &(String, String, bool) = &secrets[k];
        push_env(
            &mut out,
            EnvVar {
                name: secret_env_name(s.0.as_str(), s.1.as_str()),
                value: String::new(),
                value_from: Some(
                    EnvVarSource {
                        secret_key_ref: Some(
                            SecretKeySelector {
                                name: s.0.clone(),
                                key: s.1.clone(),
                                optional: s.2,
                            },
                        ),
                    },
                ),
            },
        );
        proof {
            assert(out.deep_view() =~= head + mid + end.take(k + 1));
        }
        k = k + 1;
    }
    proof {
        assert(end.take(k as int) =~= end);
    }
    out
}

/// An affinity text: it has to be a YAML value.
pub open spec fn affinity_of(a: Option<Seq<char>>, attr: Seq<char>) -> Result<
    Option<Seq<char>>,
    Seq<char>,
> {
    affinity_if(
        match a {
            Some(s) => yaml_problem(s),
            None => None,
        },
        a,
        attr,
    )
}

/// An affinity text whose problem as a YAML value is `problem`.
pub open spec fn affinity_if(
    problem: Option<Seq<char>>,
    a: Option<Seq<char>>,
    attr: Seq<char>,
) -> Result<Option<Seq<char>>, Seq<char>> {
    match problem {
        Some(e) => Err(attr + ": invalid YAML/JSON: "@ + e),
        None => Ok(a),
    }
}

/// An affinity text, judged by `problem`: what its reader says against it.
pub fn judge_affinity(problem: Option<String>, a: &Option<String>, attr: &str) -> (r: Result<
    Option<String>,
    String,
>)
    ensures
        agrees(r, affinity_if(problem.deep_view(), a.deep_view(), attr@)),
{
    match problem {
        Some(e) => Err(cat3(attr, ": invalid YAML/JSON: ", e.as_str())),
        None => Ok(a.dup()),
    }
}

/// Checks that an affinity text is a YAML value.
pub fn check_affinity(a: &Option<String>, attr: &str) -> (r: Result<Option<String>, String>)
    ensures
        agrees(r, affinity_of(a.deep_view(), attr@)),
{
    let problem: Option<String> = match a {
        Some(s) => yaml_error(s.as_str()),
        None => None,
    };
    judge_affinity(problem, a, attr)
}

pub open spec fn container_inputs(ctx: BuildCtxView, d: ContainerDeclView) -> InputsView {
    InputsView {
        parameters: declared_params(d.signature.params),
        artifacts: seq![crate::delivery::dist_artifact(ctx)] + inputs_at(
            ctx.config.artifact_repository.s3,
            resolved_of(
                ctx.fragments,
                d.scan.in_artifacts,
                d.scan.callees,
                Declares::InArtifacts,
            ),
        ) + arg_artifacts(d.signature.artifacts),
    }
}

/// The template of a declared container whose affinity is `affinity` and which
/// mounts `claims`.
pub open spec fn container_with(
    ctx: BuildCtxView,
    d: ContainerDeclView,
    affinity: Option<Seq<char>>,
    claims: Seq<PvcRegView>,
) -> TemplateView {
    let paths = resolved_of(
        ctx.fragments,
        d.scan.host_paths,
        d.scan.callees,
        Declares::HostPaths,
    );
    let delivery = delivery_of(ctx, d.signature.argv, d.texts.image, d.output_kind);
    TemplateView {
        name: d.argo_name,
        metadata: metadata_of(d.texts.annotations),
        inputs: Some(container_inputs(ctx, d)),
        outputs: Some(
            container_outputs(
                ctx,
                resolved_of(
                    ctx.fragments,
                    d.scan.out_artifacts,
                    d.scan.callees,
                    Declares::OutArtifacts,
                ),
                d.output_kind,
            ),
        ),
        container: Some(
            ContainerView {
                image: delivery.image,
                command: delivery.command,
                args: delivery.args,
                env: env_of(
                    d.argo_name,
                    d.texts.env,
                    secrets_of(ctx.fragments, d.scan.secrets, d.scan.callees),
                ),
                volume_mounts: mounts_of(paths, d.host_mounts) + claim_mounts(claims),
                working_dir: Seq::empty(),
                security_context: if d.privileged {
                    Some(SecurityContextView { privileged: true })
                } else {
                    None
                },
            },
        ),
        volumes: volumes_of(paths, d.host_mounts) + claim_volumes(claims),
        service_account_name: match d.texts.service_account {
            Some(s) => s,
            None => ctx.config.defaults.service_account,
        },
        node_selector: pairs_map(d.texts.node_selector),
        retry_strategy: d.limits.retry,
        timeout: d.limits.timeout,
        active_deadline_seconds: d.limits.pod_running_timeout,
        synchronization: synchronization_of(d.texts.mutexes),
        tolerations: toleration_views(d.texts.tolerations),
        affinity,
        pod_spec_patch: d.texts.pod_spec_patch,
        daemon: d.daemon,
        ..TemplateView::empty()
    }
}

/// The template of a declared container.
pub open spec fn container_template_of(ctx: BuildCtxView, d: ContainerDeclView) -> Result<
    TemplateView,
    Seq<char>,
> {
    match affinity_of(d.texts.affinity, "affinity"@) {
        Err(m) => Err(m),
        Ok(affinity) => match claims_of(ctx, d.scan.pvc_types, d.scan.callees) {
            Err(m) => Err(m),
            Ok(claims) => Ok(container_with(ctx, d, affinity, claims)),
        },
    }
}

fn as_str_opt(o: &Option<String>) -> (r: Option<&str>)
    ensures
        opt_str(r) == o.deep_view(),
{
    match o {
        Some(s) => Some(s.as_str()),
        None => None,
    }
}

fn build_inputs(ctx: &BuildCtx, d: &ContainerDecl, dist: Artifact) -> (r: Inputs)
    requires
        dist.deep_view() == crate::delivery::dist_artifact(ctx.deep_view()),
    ensures
        r.deep_view() == container_inputs(ctx.deep_view(), d.deep_view()),
{
    let in_names: Vec<String> = ctx.resolved_in_artifacts(
        &d.scan.in_artifacts,
        &d.scan.callees,
    );
    let mut loaded: Vec<Artifact> = artifact_inputs(ctx, &in_names);
    let mut typed: Vec<Artifact> = make_arg_artifacts(&d.signature.artifacts);
    let ghost lv = loaded.deep_view();
    let ghost tv = typed.deep_view();
    let ghost dv = dist.deep_view();
    let mut artifacts: Vec<Artifact> = Vec::new();
    artifacts.push(dist);
    artifacts.append(&mut loaded);
    artifacts.append(&mut typed);
    proof {
        assert(artifacts.deep_view() =~= seq![dv] + lv + tv);
    }
    Inputs { parameters: declare_params(&d.signature.params), artifacts }
}

/// Builds the template of a declared container whose affinity is `affinity` and
/// which mounts `claims`.
pub fn build_container_with(
    ctx: &BuildCtx,
    d: &ContainerDecl,
    affinity: Option<String>,
    claims: &Vec<&PvcReg>,
) -> (r: Template)
    ensures
        r.deep_view() == container_with(
            ctx.deep_view(),
            d.deep_view(),
            affinity.deep_view(),
            claims.deep_view(),
        ),
{
    let paths: Vec<String> = ctx.resolved_host_paths(&d.scan.host_paths, &d.scan.callees);
    let (mut volumes, mut mounts) = container_volumes(&paths, &d.host_mounts);
    let (mut more_volumes, mut more_mounts) = mount_claims(claims);
    let ghost v0 = volumes.deep_view();
    let ghost m0 = mounts.deep_view();
    let ghost v1 = more_volumes.deep_view();
    let ghost m1 = more_mounts.deep_view();
    volumes.append(&mut more_volumes);
    mounts.append(&mut more_mounts);
    proof {
        assert(volumes.deep_view() =~= v0 + v1);
        assert(mounts.deep_view() =~= m0 + m1);
    }
    let delivery: ContainerDelivery = delivery_with_argv(
        ctx,
        &d.signature.argv,
        as_str_opt(&d.texts.image),
        d.output_kind,
    );
    let inputs: Inputs = build_inputs(ctx, d, delivery.artifact);
    let out_names: Vec<String> = ctx.resolved_out_artifacts(
        &d.scan.out_artifacts,
        &d.scan.callees,
    );
    let outputs: Outputs = build_outputs(ctx, &out_names, d.output_kind);
    let secrets: Vec<(String, String, bool)> = ctx.resolved_secrets(
        &d.scan.secrets,
        &d.scan.callees,
    );
    let env: Vec<EnvVar> = build_env(d.argo_name.as_str(), &d.texts.env, &secrets);
    let security_context: Option<SecurityContext> = if d.privileged {
        Some(SecurityContext { privileged: true })
    } else {
        None
    };
    let mut t: Template = Template::default();
    t.name = d.argo_name.clone();
    t.metadata = metadata_from(&d.texts.annotations);
    t.inputs = Some(inputs);
    t.outputs = Some(outputs);
    t.container = Some(
        Container {
            image: delivery.image,
            command: delivery.command,
            args: delivery.args,
            env,
            volume_mounts: mounts,
            working_dir: String::new(),
            security_context,
        },
    );
    t.volumes = volumes;
    t.service_account_name = service_account(ctx, as_str_opt(&d.texts.service_account));
    t.node_selector = map_from_pairs(&d.texts.node_selector);
    t.retry_strategy = d.limits.retry.dup();
    t.timeout = d.limits.timeout.clone();
    t.active_deadline_seconds = d.limits.pod_running_timeout;
    t.synchronization = template_synchronization(&d.texts.mutexes);
    t.tolerations = template_tolerations(&d.texts.tolerations);
    t.affinity = affinity;
    t.pod_spec_patch = d.texts.pod_spec_patch.dup();
    t.daemon = d.daemon;
    t
}

/// Builds the template of a declared container.
pub fn build_container(ctx: &BuildCtx, d: &ContainerDecl) -> (r: Result<Template, String>)
    ensures
        agrees(r, container_template_of(ctx.deep_view(), d.deep_view())),
{
    match check_affinity(&d.texts.affinity, "affinity") {
        Err(m) => Err(m),
        Ok(affinity) => match ctx.mounted_claims(&d.scan.pvc_types, &d.scan.callees) {
            Err(m) => Err(m),
            Ok(claims) => Ok(build_container_with(ctx, d, affinity, &claims)),
        },
    }
}

/// Whether a container declares something: its body does, or a fragment that its
/// body reaches.
pub open spec fn declares(ctx: BuildCtxView, d: ContainerDeclView, x: FoundView) -> bool {
    match x {
        FoundView::Host(s) => resolved_of(
            ctx.fragments,
            d.scan.host_paths,
            d.scan.callees,
            Declares::HostPaths,
        ).contains(s),
        FoundView::InArtifact(s) => resolved_of(
            ctx.fragments,
            d.scan.in_artifacts,
            d.scan.callees,
            Declares::InArtifacts,
        ).contains(s),
        FoundView::OutArtifact(s) => resolved_of(
            ctx.fragments,
            d.scan.out_artifacts,
            d.scan.callees,
            Declares::OutArtifacts,
        ).contains(s),
        FoundView::Secret(n, k, _) => has_secret(
            secrets_of(ctx.fragments, d.scan.secrets, d.scan.callees),
            n,
            k,
        ),
        FoundView::Pvc(p) => claim_at(ctx.spellings, p.text) matches Ok(n) && mounted_names(
            ctx,
            d,
        ).contains(n),
        FoundView::Callee(_) => false,
    }
}

/// The names of the claims that a container mounts.
pub open spec fn mounted_names(ctx: BuildCtxView, d: ContainerDeclView) -> Seq<Seq<char>> {
    match map_res(d.scan.pvc_types, claim_fn(ctx.spellings)) {
        Err(_) => Seq::empty(),
        Ok(own) => resolved_of(ctx.fragments, own, d.scan.callees, Declares::Claims),
    }
}

/// Whether a pod of a template has what `x` asks for where the body looks for it.
/// A host path with a chosen mount is mounted there instead. A call asks for nothing
/// of its own.
pub open spec fn provides(
    ctx: BuildCtxView,
    t: TemplateView,
    mounts: Seq<MountText>,
    x: FoundView,
) -> bool {
    match x {
        FoundView::Host(s) => mounts_path(mounts, s) || exists|i: int|
            0 <= i < t.container->0.volume_mounts.len() && (
            #[trigger] t.container->0.volume_mounts[i]).mount_path == host_mount(s),
        FoundView::InArtifact(s) => exists|i: int|
            0 <= i < t.inputs->0.artifacts.len() && (#[trigger] t.inputs->0.artifacts[i]).path
                == in_artifact(s),
        FoundView::OutArtifact(s) => exists|i: int|
            0 <= i < t.outputs->0.artifacts.len() && (#[trigger] t.outputs->0.artifacts[i]).path
                == out_artifact(s),
        FoundView::Secret(n, k, _) => exists|i: int|
            0 <= i < t.container->0.env.len() && (#[trigger] t.container->0.env[i]).name
                == secret_env(n, k),
        FoundView::Pvc(p) => claim_at(ctx.spellings, p.text) matches Ok(n) && exists|i: int|
            0 <= i < t.container->0.volume_mounts.len() && (
            #[trigger] t.container->0.volume_mounts[i]).mount_path == pvc_mount(n),
        FoundView::Callee(_) => true,
    }
}

/// What is declared is delivered: whatever a container's body or a fragment that it
/// reaches declares, the template of the container brings, where the body looks for
/// it.
pub proof fn law_declared_is_delivered(ctx: BuildCtxView, d: ContainerDeclView, x: FoundView)
    requires
        declares(ctx, d, x),
        container_template_of(ctx, d) is Ok,
    ensures
        container_template_of(ctx, d)->Ok_0.container is Some,
        container_template_of(ctx, d)->Ok_0.inputs is Some,
        container_template_of(ctx, d)->Ok_0.outputs is Some,
        provides(ctx, container_template_of(ctx, d)->Ok_0, d.host_mounts, x),
{
    let affinity = affinity_of(d.texts.affinity, "affinity"@)->Ok_0;
    let claims = claims_of(ctx, d.scan.pvc_types, d.scan.callees)->Ok_0;
    let t = container_with(ctx, d, affinity, claims);
    assert(container_template_of(ctx, d) == Ok::<TemplateView, Seq<char>>(t));
    match x {
        FoundView::Host(s) => {
            let paths = resolved_of(
                ctx.fragments,
                d.scan.host_paths,
                d.scan.callees,
                Declares::HostPaths,
            );
            if !mounts_path(d.host_mounts, s) {
                let f = not_mounted(d.host_mounts);
                let kept = paths.filter(f);
                paths.lemma_filter_contains(f, paths.index_of(s));
                let i = choose|i: int| 0 <= i < kept.len() && kept[i] == s;
                assert(t.container->0.volume_mounts[i + 1].mount_path == host_mount(s));
            }
        },
        FoundView::InArtifact(s) => {
            let names = resolved_of(
                ctx.fragments,
                d.scan.in_artifacts,
                d.scan.callees,
                Declares::InArtifacts,
            );
            let i = choose|i: int| 0 <= i < names.len() && names[i] == s;
            assert(t.inputs->0.artifacts[i + 1].path == in_artifact(s));
        },
        FoundView::OutArtifact(s) => {
            let names = resolved_of(
                ctx.fragments,
                d.scan.out_artifacts,
                d.scan.callees,
                Declares::OutArtifacts,
            );
            let i = choose|i: int| 0 <= i < names.len() && names[i] == s;
            assert(t.outputs->0.artifacts[i].path == out_artifact(s));
        },
        FoundView::Secret(n, k, _) => {
            let all = secrets_of(ctx.fragments, d.scan.secrets, d.scan.callees);
            let i = choose|i: int| 0 <= i < all.len() && (#[trigger] all[i]).0 == n && all[i].1
                == k;
            assert(t.container->0.env[1 + d.texts.env.len() + i] == secret_var(all[i]));
        },
        FoundView::Pvc(p) => {
            let n = claim_at(ctx.spellings, p.text)->Ok_0;
            let names = mounted_names(ctx, d);
            lemma_map_res_len(names, reg_fn(ctx.claims));
            let i = choose|i: int| 0 <= i < names.len() && names[i] == n;
            assert(reg_fn(ctx.claims)(names[i]) == Ok::<PvcRegView, Seq<char>>(claims[i]));
            law_found_claim(ctx.claims, n);
            let before = mounts_of(
                resolved_of(
                    ctx.fragments,
                    d.scan.host_paths,
                    d.scan.callees,
                    Declares::HostPaths,
                ),
                d.host_mounts,
            );
            assert(t.container->0.volume_mounts[before.len() + i] == claim_mount(claims[i]));
        },
        FoundView::Callee(_) => {},
    }
}

/// No claim is mounted that is not there: the volume of each mount of a claim is a
/// claim that every run of the program makes for itself, or a volume of the pod for
/// a claim that is there before.
pub proof fn law_mounted_claims_exist(ctx: BuildCtxView, d: ContainerDeclView, n: Seq<char>)
    requires
        container_template_of(ctx, d) is Ok,
        mounted_names(ctx, d).contains(n),
    ensures
        reg_at(ctx.claims, n) matches Ok(c) && c.argo_name == n && {
            let t = container_template_of(ctx, d)->Ok_0;
            &&& t.container->0.volume_mounts.contains(claim_mount(c))
            &&& c.lifecycle == PvcLifecycle::Ephemeral ==> claim_templates(ctx.claims).contains(
                claim_template(c),
            ) && claim_template(c).metadata->0.name == claim_mount(c).name
            &&& c.lifecycle == PvcLifecycle::External ==> t.volumes.contains(claim_volume(c))
                && claim_volume(c).name == claim_mount(c).name
        },
{
    let affinity = affinity_of(d.texts.affinity, "affinity"@)->Ok_0;
    let claims = claims_of(ctx, d.scan.pvc_types, d.scan.callees)->Ok_0;
    let t = container_with(ctx, d, affinity, claims);
    assert(container_template_of(ctx, d) == Ok::<TemplateView, Seq<char>>(t));
    let names = mounted_names(ctx, d);
    lemma_map_res_len(names, reg_fn(ctx.claims));
    let i = choose|i: int| 0 <= i < names.len() && names[i] == n;
    assert(reg_fn(ctx.claims)(names[i]) == Ok::<PvcRegView, Seq<char>>(claims[i]));
    law_found_claim(ctx.claims, n);
    let c = claims[i];
    assert(claims.contains(c));
    law_mounts_have_volumes(ctx.claims, claims, c);
    let paths = resolved_of(
        ctx.fragments,
        d.scan.host_paths,
        d.scan.callees,
        Declares::HostPaths,
    );
    let ms = mounts_of(paths, d.host_mounts);
    assert(t.container->0.volume_mounts[ms.len() + i] == claim_mount(c));
    if c.lifecycle == PvcLifecycle::External {
        let vs = volumes_of(paths, d.host_mounts);
        let cv = claim_volumes(claims);
        let k = choose|k: int| 0 <= k < cv.len() && cv[k] == claim_volume(c);
        assert(t.volumes[vs.len() + k] == claim_volume(c));
    }
}

} // verus!
