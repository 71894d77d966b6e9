//! What is emitted for a program: its templates as resources, what its root asks
//! for, the claims of its pods, and what its bodies declare.

use crate::api::{TemplateView, WorkflowSpecView, WorkflowTemplateView};
use crate::ast::{Expr, FnDecl, MacroCall, Stmt};
use crate::claims::{claim_mount, claim_template, claim_templates, claim_volume};
use crate::collector::{
    build_fn, by_name, emitted_of, found_named, name_key, resources_of, run_problem, stamp_fn,
    stamped, with_pairs, wrapped, wrapped_all, CollectorView, IdentityView, RootAttrsView, Template,
};
use crate::context::{labels_of, BuildCtxView};
use crate::folds::{lemma_map_res_len, map_res};
use crate::modes::{mode_of, ModeEnvView, ModeView};
use crate::program::{BodyView, UnitView};
use crate::pvc::{
    claim_at, ephemeral_of, external_of, fragment_of, EphemeralArgs, ExternalArgs, PvcLifecycle,
    PvcRegView, StructDecl,
};
use crate::scan::{
    declared, expanded, found_in, found_in_all, found_in_stmt, found_in_stmts, law_scan_complete,
    scan_of, FoundView,
};
use crate::sorted::law_arranged;
use vstd::prelude::*;

verus! {

// ---- resources ---------------------------------------------------------------------------
/// Every template that was added is emitted: some resource holds exactly that
/// template, enters at it, and has its name.
pub proof fn law_every_template_is_emitted<T: Template>(
    c: CollectorView<T>,
    ctx: BuildCtxView,
    i: int,
)
    requires
        resources_of(c, ctx) is Ok,
        0 <= i < c.builders.len(),
    ensures
        c.builders[i].built(ctx) matches Ok(t) && exists|k: int|
            {
                &&& 0 <= k < resources_of(c, ctx)->Ok_0.len()
                &&& holds_only(#[trigger] resources_of(c, ctx)->Ok_0[k], t)
            },
{
    let f = build_fn::<T>(ctx);
    let ts = map_res(c.builders, f)->Ok_0;
    lemma_map_res_len(c.builders, f);
    assert(f(c.builders[i]) == Ok::<TemplateView, Seq<char>>(ts[i]));
    let w = wrapped_all(ts);
    law_arranged(w, name_key());
    let s = by_name(w);
    let g = stamp_fn(c, ctx);
    lemma_map_res_len(s, g);
    let r = map_res(s, g)->Ok_0;
    broadcast use vstd::seq_lib::group_to_multiset_ensures;

    let x = wrapped(ts[i].name, ts[i]);
    assert(w[i] == x);
    assert(w.contains(x));
    assert(w.to_multiset().count(x) > 0);
    assert(s.contains(x));
    let k = choose|k: int| 0 <= k < s.len() && s[k] == x;
    assert(g(s[k]) == Ok::<WorkflowTemplateView, Seq<char>>(r[k]));
    assert(holds_only(r[k], ts[i]));
}

/// Whether a resource holds this template and no other, enters at it, and has its
/// name.
pub open spec fn holds_only(r: WorkflowTemplateView, t: TemplateView) -> bool {
    &&& r.kind == "WorkflowTemplate"@
    &&& r.api_version == "argoproj.io/v1alpha1"@
    &&& r.metadata matches Some(m) && m.name == t.name
    &&& r.spec matches Some(s) && s.entrypoint == t.name && s.templates.len() == 1
        && s.templates[0] == t
}

/// A workflow is emitted beside the resources only where it is asked for; it runs
/// the root, under the configured account.
pub proof fn law_the_root_is_run<T: Template>(
    c: CollectorView<T>,
    root: Seq<char>,
    ctx: BuildCtxView,
    with_workflow: bool,
)
    ensures
        emitted_of(c, root, ctx, with_workflow) matches Ok((rs, w)) ==> {
            &&& resources_of(c, ctx) == Ok::<Seq<WorkflowTemplateView>, Seq<char>>(rs)
            &&& w is Some <==> with_workflow
            &&& w matches Some(x) ==> {
                &&& x.kind == "Workflow"@
                &&& x.metadata matches Some(m) && m.generate_name == root + "-"@
                &&& x.spec matches Some(s) && (s.workflow_template_ref matches Some(r) && r.name
                    == root && !r.cluster_scope) && s.service_account_name
                    == ctx.config.defaults.service_account
            }
        },
{
}

// ---- what a root asks for -------------------------------------------------------------
/// What a root asks for is on what runs it: its exit handler, its limits, where its
/// pods may run, what they hold, and what they are patched with. What it does not
/// ask for stays as it was.
pub proof fn law_roots_get_what_they_ask_for(r: RootAttrsView, spec: WorkflowSpecView, i: int)
    ensures
        stamped(r, spec) matches Ok(s) ==> {
            &&& match r.on_exit {
                Some(h) => s.hooks.dom().contains("exit"@) && (
                s.hooks["exit"@].template_ref matches Some(t) && t.name == h && t.template == h)
                    && s.hooks["exit"@].expression.len() == 0,
                None => s.hooks == spec.hooks,
            }
            &&& match r.ttl {
                Some(t) => s.ttl_strategy == Some(t),
                None => s.ttl_strategy == spec.ttl_strategy,
            }
            &&& match r.pod_gc {
                Some(g) => s.pod_gc matches Some(p) && p.strategy == g,
                None => s.pod_gc == spec.pod_gc,
            }
            &&& match r.active_deadline {
                Some(n) => s.active_deadline_seconds == Some(n),
                None => s.active_deadline_seconds == spec.active_deadline_seconds,
            }
            &&& match r.parallelism {
                Some(n) => s.parallelism == Some(n),
                None => s.parallelism == spec.parallelism,
            }
            &&& match r.pod_spec_patch {
                Some(p) => s.pod_spec_patch == Some(p),
                None => s.pod_spec_patch == spec.pod_spec_patch,
            }
            &&& match r.affinity {
                Some(p) => s.affinity == Some(p),
                None => s.affinity == spec.affinity,
            }
            &&& s.tolerations.len() == spec.tolerations.len() + r.tolerations.len()
            &&& 0 <= i < r.tolerations.len() ==> {
                let t = s.tolerations[spec.tolerations.len() + i];
                t.key == r.tolerations[i].0 && t.operator == r.tolerations[i].1 && t.value
                    == r.tolerations[i].2 && t.effect == r.tolerations[i].3
            }
            &&& s.image_pull_secrets.len() == spec.image_pull_secrets.len()
                + r.image_pull_secrets.len()
            &&& 0 <= i < r.image_pull_secrets.len()
                ==> s.image_pull_secrets[spec.image_pull_secrets.len() + i].name
                == r.image_pull_secrets[i]
            &&& r.mutexes.len() == 0 ==> s.synchronization == spec.synchronization
            &&& 0 <= i < r.mutexes.len() && spec.synchronization is None ==> (
            s.synchronization matches Some(x) && x.mutexes.len() == r.mutexes.len()
                && x.mutexes[i].name == r.mutexes[i].0 && x.mutexes[i].namespace == r.mutexes[i].1)
            &&& 0 <= i < r.node_selector.len() && (forall|j: int|
                i < j < r.node_selector.len() ==> (#[trigger] r.node_selector[j]).0
                    != r.node_selector[i].0) ==> s.node_selector.dom().contains(
                r.node_selector[i].0,
            ) && s.node_selector[r.node_selector[i].0] == r.node_selector[i].1
            &&& s.templates == spec.templates && s.entrypoint == spec.entrypoint
        },
{
    if 0 <= i < r.node_selector.len() && (forall|j: int|
        i < j < r.node_selector.len() ==> (#[trigger] r.node_selector[j]).0
            != r.node_selector[i].0) {
        lemma_with_pairs(spec.node_selector, r.node_selector, i);
    }
}

proof fn lemma_with_pairs(
    m: Map<Seq<char>, Seq<char>>,
    pairs: Seq<(Seq<char>, Seq<char>)>,
    i: int,
)
    requires
        0 <= i < pairs.len(),
        forall|j: int| i < j < pairs.len() ==> (#[trigger] pairs[j]).0 != pairs[i].0,
    ensures
        with_pairs(m, pairs).dom().contains(pairs[i].0),
        with_pairs(m, pairs)[pairs[i].0] == pairs[i].1,
    decreases pairs.len(),
{
    let f = pairs.drop_last();
    if i < f.len() {
        assert(f[i] == pairs[i]);
        assert forall|j: int| i < j < f.len() implies (#[trigger] f[j]).0 != f[i].0 by {
            assert(f[j] == pairs[j]);
        }
        lemma_with_pairs(m, f, i);
        assert(pairs[pairs.len() - 1].0 != pairs[i].0);
    }
}

/// What an attribute with `if_root` in its name says is what a template asks for as
/// a root: a container and a workflow alike.
pub proof fn law_root_attributes(
    d: crate::container::ContainerDeclView,
    w: crate::workflow::WorkflowDeclView,
    scope: crate::workflow::Known,
)
    ensures
        ({
            let r = crate::program::container_root(d, scope);
            &&& r.ttl == d.limits.ttl_if_root
            &&& r.pod_gc == d.limits.pod_gc_if_root
            &&& r.active_deadline == d.limits.active_deadline_if_root
            &&& r.mutexes == d.texts.mutexes_if_root
            &&& r.tolerations == d.texts.tolerations_if_root
            &&& r.affinity == d.texts.affinity_if_root
            &&& r.pod_spec_patch == d.texts.pod_spec_patch_if_root
            &&& r.image_pull_secrets == d.image_pull_secrets_if_root
            &&& d.on_exit_if_root matches Some(p) ==> (crate::workflow::known_as(
                scope,
                p.text,
            ) matches Some(k) ==> r.on_exit == Some(k.argo_name))
        }),
        ({
            let r = crate::program::workflow_root(w, scope);
            &&& r.ttl == w.limits.ttl_if_root
            &&& r.pod_gc == w.limits.pod_gc_if_root
            &&& r.active_deadline == w.limits.active_deadline_if_root
            &&& r.node_selector == w.texts.node_selector_if_root
            &&& r.mutexes == w.texts.mutexes_if_root
            &&& r.tolerations == w.texts.tolerations_if_root
            &&& r.affinity == w.texts.affinity_if_root
            &&& r.pod_spec_patch == w.texts.pod_spec_patch_if_root
            &&& r.image_pull_secrets == w.image_pull_secrets_if_root
            &&& r.parallelism == w.parallelism_if_root
            &&& w.on_exit_if_root matches Some(p) ==> (crate::workflow::known_as(
                scope,
                p.text,
            ) matches Some(k) ==> r.on_exit == Some(k.argo_name))
        }),
{
}

/// The labels of a resource say where it comes from: package, binary, tag and
/// channel always, and version, toolchain, commit and changes where they are known.
pub proof fn law_labels(ctx: BuildCtxView)
    ensures
        ({
            let m = labels_of(ctx);
            &&& m.dom().contains("cargo.athena/pkg"@) && m["cargo.athena/pkg"@] == ctx.package
            &&& m.dom().contains("cargo.athena/bin"@) && m["cargo.athena/bin"@] == ctx.bin
            &&& m.dom().contains("cargo.athena/tag"@) && m["cargo.athena/tag"@] == ctx.tag
            &&& ctx.provenance.version matches Some(v) ==> m.dom().contains(
                "cargo.athena/version"@,
            ) && m["cargo.athena/version"@] == v
            &&& ctx.provenance.commit matches Some(v) ==> m.dom().contains("cargo.athena/commit"@)
                && m["cargo.athena/commit"@] == v
            &&& ctx.provenance.toolchain matches Some(v) ==> m.dom().contains(
                "cargo.athena/toolchain"@,
            ) && m["cargo.athena/toolchain"@] == v
            &&& ctx.provenance.dirty == Some(true) ==> m.dom().contains("cargo.athena/dirty"@)
                && m["cargo.athena/dirty"@] == "true"@
            &&& ctx.provenance.dirty == Some(false) ==> m.dom().contains("cargo.athena/dirty"@)
                && m["cargo.athena/dirty"@] == "false"@
        }),
{
    reveal_strlit("cargo.athena/pkg");
    reveal_strlit("cargo.athena/version");
    reveal_strlit("cargo.athena/bin");
    reveal_strlit("cargo.athena/toolchain");
    reveal_strlit("cargo.athena/tag");
    reveal_strlit("cargo.athena/channel");
    reveal_strlit("cargo.athena/commit");
    reveal_strlit("cargo.athena/dirty");
    assert("cargo.athena/pkg"@[13] == 'p' && "cargo.athena/tag"@[13] == 't' && "cargo.athena/bin"@[
        13] == 'b');
    assert("cargo.athena/channel"@.len() == 20 && "cargo.athena/toolchain"@.len() == 22
        && "cargo.athena/version"@.len() == 20 && "cargo.athena/commit"@.len() == 19
        && "cargo.athena/dirty"@.len() == 18 && "cargo.athena/pkg"@.len() == 16);
    assert("cargo.athena/channel"@[13] == 'c' && "cargo.athena/version"@[13] == 'v');
}

/// A body is run exactly where the binary has a container of that name and is given
/// as many arguments as it takes.
pub proof fn law_what_can_be_run<T>(c: CollectorView<T>, name: Seq<char>, n: nat)
    ensures
        run_problem(c, name, n) is None <==> c.runners.dom().contains(name) && c.runners[name] == n,
{
}

/// What a binary is asked to do: to run a template where one is named, whatever
/// else is set; else to list, to describe the template that is named, or to give
/// its resources; else to print them, with a workflow where that is set to `1`.
pub proof fn law_what_is_asked(env: ModeEnvView)
    ensures
        match mode_of(env) {
            ModeView::Run { template, output } => env.template == Some(template) && output
                == env.output,
            ModeView::List => env.template is None && env.list,
            ModeView::Describe { name } => env.template is None && !env.list && env.describe
                == Some(name),
            ModeView::Templates => env.template is None && !env.list && env.describe is None
                && env.emit_json,
            ModeView::Emit { with_workflow } => env.template is None && !env.list && env.describe
                is None && !env.emit_json && (with_workflow <==> env.with_workflow == Some("1"@)),
        },
{
}

// ---- claims ------------------------------------------------------------------------------
/// Whether a name is that of a claim: the one that is given, or that of the crate
/// and of the structure in kebab form.
pub open spec fn names_claim(
    n: Seq<char>,
    over: Option<Seq<char>>,
    krate: Seq<char>,
    rust: Seq<char>,
) -> bool {
    match over {
        Some(o) => n == o,
        None => n == crate::munge::kebab_of(krate) + "-"@ + crate::munge::kebab_of(rust),
    }
}

/// A claim that a run makes for itself is as it is asked for: its size, its access
/// modes, its class and its name. It needs a size and a mode, and every mode is one
/// that Kubernetes knows.
pub proof fn law_ephemeral_claims(s: StructDecl, a: EphemeralArgs, krate: Seq<char>, i: int)
    ensures
        ephemeral_of(s, a, krate) matches Ok(c) ==> {
            &&& !s.generic && s.unit
            &&& a.size matches Some(z) && c.size == z@ && z@.len() > 0
            &&& c.access_modes == a.access_modes.deep_view() && c.access_modes.len() > 0
            &&& 0 <= i < c.access_modes.len() ==> c.access_modes[i] == "ReadWriteOnce"@
                || c.access_modes[i] == "ReadWriteMany"@ || c.access_modes[i] == "ReadOnlyMany"@
                || c.access_modes[i] == "ReadWriteOncePod"@
            &&& match a.storage_class {
                Some(x) => c.storage_class_name == x@,
                None => c.storage_class_name.len() == 0,
            }
            &&& c.lifecycle == PvcLifecycle::Ephemeral && !c.read_only
            &&& names_claim(c.argo_name, a.name.deep_view(), krate, s.name@)
            &&& c.mount_path == crate::munge::pvc_mount(c.argo_name)
        },
        s.generic || !s.unit || a.size is None || a.access_modes@.len() == 0 ==> ephemeral_of(
            s,
            a,
            krate,
        ) is Err,
{
    let f = crate::pvc::access_mode_fn();
    let v = a.access_modes.deep_view();
    lemma_map_res_len(v, f);
    if ephemeral_of(s, a, krate) is Ok {
        let c = ephemeral_of(s, a, krate)->Ok_0;
        assert forall|k: int| 0 <= k < v.len() implies #[trigger] c.access_modes[k] == v[k]
            && crate::pvc::is_access_mode(v[k]) by {
            assert(f(v[k]) == Ok::<Seq<char>, Seq<char>>(c.access_modes[k]));
        }
        assert(c.access_modes =~= v);
    }
}

/// A claim that is there before is the one that is named, mounted for reading only
/// where that is asked for.
pub proof fn law_external_claims(s: StructDecl, a: ExternalArgs, krate: Seq<char>)
    ensures
        external_of(s, a, krate) matches Ok(c) ==> {
            &&& !s.generic && s.unit
            &&& a.claim_name matches Some(n) && c.claim_name == n@ && n@.len() > 0
            &&& c.read_only == a.read_only
            &&& c.lifecycle == PvcLifecycle::External
            &&& names_claim(c.argo_name, a.name.deep_view(), krate, s.name@)
            &&& c.mount_path == crate::munge::pvc_mount(c.argo_name)
        },
        s.generic || !s.unit || a.claim_name is None ==> external_of(s, a, krate) is Err,
{
}

/// The claim on the wire is the claim that is declared: a run asks for its size, its
/// modes and its class; a pod refers to the one that is there by its name.
pub proof fn law_claims_on_the_wire(c: PvcRegView)
    ensures
        claim_template(c).spec matches Some(s) && s.access_modes == c.access_modes
            && s.storage_class_name == c.storage_class_name && (s.resources matches Some(r)
            && r.requests.dom().contains("storage"@) && r.requests["storage"@] == c.size),
        claim_volume(c).persistent_volume_claim matches Some(v) && v.claim_name == c.claim_name
            && v.read_only == c.read_only,
        claim_mount(c).read_only == c.read_only,
        claim_mount(c).name == claim_volume(c).name,
        claim_template(c).metadata matches Some(m) && m.name == claim_mount(c).name,
{
}

/// Exactly the claims that a run makes for itself are asked for.
pub proof fn law_runs_make_their_claims(regs: Seq<PvcRegView>, i: int)
    requires
        0 <= i < regs.len(),
    ensures
        regs[i].lifecycle == PvcLifecycle::Ephemeral ==> claim_templates(regs).contains(
            claim_template(regs[i]),
        ),
        claim_templates(regs).len() <= regs.len(),
        (forall|j: int| 0 <= j < regs.len() ==> (#[trigger] regs[j]).lifecycle
            == PvcLifecycle::External) ==> claim_templates(regs).len() == 0,
    decreases regs.len(),
{
    let f = regs.drop_last();
    let r = claim_templates(regs);
    if f.len() > 0 {
        law_runs_make_their_claims(f, 0);
    } else {
        assert(claim_templates(f).len() == 0);
    }
    if i < f.len() {
        law_runs_make_their_claims(f, i);
        assert(f[i] == regs[i]);
        let x = claim_template(regs[i]);
        if claim_templates(f).contains(x) {
            let k = choose|k: int| 0 <= k < claim_templates(f).len() && claim_templates(f)[k] == x;
            assert(r[k] == x);
        }
    } else if regs[i].lifecycle == PvcLifecycle::Ephemeral {
        assert(r[r.len() - 1] == claim_template(regs[i]));
    }
    if forall|j: int| 0 <= j < regs.len() ==> (#[trigger] regs[j]).lifecycle
        == PvcLifecycle::External {
        assert forall|j: int| 0 <= j < f.len() implies (#[trigger] f[j]).lifecycle
            == PvcLifecycle::External by {
            assert(f[j] == regs[j]);
        }
        assert(regs[regs.len() - 1].lifecycle == PvcLifecycle::External);
    }
}

// ---- declarations ------------------------------------------------------------------------
/// Whether the invocation `m` stands somewhere in an expression.
pub open spec fn stands_in(m: MacroCall, e: Expr) -> bool
    decreases e,
{
    match e {
        Expr::Lit(_) => false,
        Expr::Path(_) => false,
        Expr::Field { base, member: _ } => stands_in(m, *base),
        Expr::Index { base, index } => stands_in(m, *base) || stands_in(m, *index),
        Expr::MethodCall { receiver, method: _, args } => stands_in(m, *receiver)
            || stands_in_one(m, args@),
        Expr::Call { func, args, text: _ } => stands_in(m, *func) || stands_in_one(m, args@),
        Expr::Closure { inputs: _, body } => stands_in(m, *body),
        Expr::Block { stmts } => stands_in_stmts(m, stmts@),
        Expr::If(i) => stands_in(m, *i.cond) || stands_in_stmts(m, i.then_branch@) || match i.else_branch {
            Some(x) => stands_in(m, *x),
            None => false,
        },
        Expr::Binary { op: _, left, right } => stands_in(m, *left) || stands_in(m, *right),
        Expr::Not { expr } => stands_in(m, *expr),
        Expr::Assign { left, right } => stands_in(m, *left) || stands_in(m, *right),
        Expr::Return { value } => match value {
            Some(x) => stands_in(m, *x),
            None => false,
        },
        Expr::Paren { expr } => stands_in(m, *expr),
        Expr::Group { expr } => stands_in(m, *expr),
        Expr::Reference { mutable: _, expr } => stands_in(m, *expr),
        Expr::Macro(x) => x == m,
        Expr::Other { kind: _, parts, stmts } => stands_in_one(m, parts@) || stands_in_stmts(
            m,
            stmts@,
        ),
    }
}

pub open spec fn stands_in_one(m: MacroCall, s: Seq<Expr>) -> bool
    decreases s,
{
    s.len() > 0 && (stands_in_one(m, s.drop_last()) || stands_in(m, s.last()))
}

pub open spec fn stands_in_stmt(m: MacroCall, s: Stmt) -> bool
    decreases s,
{
    match s {
        Stmt::Local { pat: _, init } => match init {
            Some(i) => stands_in(m, i.expr) || match i.diverge {
                Some(x) => stands_in(m, *x),
                None => false,
            },
            None => false,
        },
        Stmt::Expr { expr, semi: _ } => stands_in(m, expr),
        Stmt::Macro(x) => x == m,
        Stmt::Item => false,
    }
}

pub open spec fn stands_in_stmts(m: MacroCall, s: Seq<Stmt>) -> bool
    decreases s,
{
    s.len() > 0 && (stands_in_stmts(m, s.drop_last()) || stands_in_stmt(m, s.last()))
}

proof fn lemma_in_cat(a: Seq<FoundView>, b: Seq<FoundView>, x: FoundView)
    ensures
        (a + b).contains(x) <==> a.contains(x) || b.contains(x),
{
    let s = a + b;
    if a.contains(x) {
        let i = choose|i: int| 0 <= i < a.len() && a[i] == x;
        assert(s[i] == x);
    }
    if b.contains(x) {
        let i = choose|i: int| 0 <= i < b.len() && b[i] == x;
        assert(s[a.len() + i] == x);
    }
    if s.contains(x) {
        let i = choose|i: int| 0 <= i < s.len() && s[i] == x;
        if i < a.len() {
            assert(a[i] == x);
        } else {
            assert(b[i - a.len()] == x);
        }
    }
}

proof fn lemma_found(m: MacroCall, f: FoundView, e: Expr)
    requires
        declared(m) == Some(f),
        stands_in(m, e),
    ensures
        found_in(e).contains(f),
    decreases e,
{
    match e {
        Expr::Field { base, member: _ } => lemma_found(m, f, *base),
        Expr::Index { base, index } => {
            lemma_in_cat(found_in(*base), found_in(*index), f);
            if stands_in(m, *base) {
                lemma_found(m, f, *base);
            } else {
                lemma_found(m, f, *index);
            }
        },
        Expr::MethodCall { receiver, method: _, args } => {
            lemma_in_cat(found_in(*receiver), found_in_all(args@), f);
            if stands_in(m, *receiver) {
                lemma_found(m, f, *receiver);
            } else {
                lemma_found_one(m, f, args@);
            }
        },
        Expr::Call { func, args, text: _ } => {
            let head = match *func {
                Expr::Path(p) => match crate::scan::last_segment(p) {
                    Some(n) => seq![FoundView::Callee(n)],
                    None => Seq::empty(),
                },
                _ => Seq::empty(),
            };
            lemma_in_cat(head, found_in(*func), f);
            lemma_in_cat(head + found_in(*func), found_in_all(args@), f);
            if stands_in(m, *func) {
                lemma_found(m, f, *func);
            } else {
                lemma_found_one(m, f, args@);
            }
        },
        Expr::Closure { inputs: _, body } => lemma_found(m, f, *body),
        Expr::Block { stmts } => lemma_found_stmts(m, f, stmts@),
        Expr::If(i) => {
            let els = match i.else_branch {
                Some(x) => found_in(*x),
                None => Seq::empty(),
            };
            lemma_in_cat(found_in(*i.cond), found_in_stmts(i.then_branch@), f);
            lemma_in_cat(found_in(*i.cond) + found_in_stmts(i.then_branch@), els, f);
            if stands_in(m, *i.cond) {
                lemma_found(m, f, *i.cond);
            } else if stands_in_stmts(m, i.then_branch@) {
                lemma_found_stmts(m, f, i.then_branch@);
            } else {
                lemma_found(m, f, *i.else_branch->0);
            }
        },
        Expr::Binary { op: _, left, right } => {
            lemma_in_cat(found_in(*left), found_in(*right), f);
            if stands_in(m, *left) {
                lemma_found(m, f, *left);
            } else {
                lemma_found(m, f, *right);
            }
        },
        Expr::Not { expr } => lemma_found(m, f, *expr),
        Expr::Assign { left, right } => {
            lemma_in_cat(found_in(*left), found_in(*right), f);
            if stands_in(m, *left) {
                lemma_found(m, f, *left);
            } else {
                lemma_found(m, f, *right);
            }
        },
        Expr::Return { value } => lemma_found(m, f, *value->0),
        Expr::Paren { expr } => lemma_found(m, f, *expr),
        Expr::Group { expr } => lemma_found(m, f, *expr),
        Expr::Reference { mutable: _, expr } => lemma_found(m, f, *expr),
        Expr::Macro(x) => {
            assert(found_in(e)[0] == f);
        },
        Expr::Other { kind: _, parts, stmts } => {
            lemma_in_cat(found_in_all(parts@), found_in_stmts(stmts@), f);
            if stands_in_one(m, parts@) {
                lemma_found_one(m, f, parts@);
            } else {
                lemma_found_stmts(m, f, stmts@);
            }
        },
        _ => {},
    }
}

proof fn lemma_found_one(m: MacroCall, f: FoundView, s: Seq<Expr>)
    requires
        declared(m) == Some(f),
        stands_in_one(m, s),
    ensures
        found_in_all(s).contains(f),
    decreases s,
{
    lemma_in_cat(found_in_all(s.drop_last()), found_in(s.last()), f);
    if stands_in(m, s.last()) {
        lemma_found(m, f, s.last());
    } else {
        lemma_found_one(m, f, s.drop_last());
    }
}

proof fn lemma_found_stmt(m: MacroCall, f: FoundView, s: Stmt)
    requires
        declared(m) == Some(f),
        stands_in_stmt(m, s),
    ensures
        found_in_stmt(s).contains(f),
    decreases s,
{
    match s {
        Stmt::Local { pat: _, init } => {
            let i = init->0;
            let d = match i.diverge {
                Some(x) => found_in(*x),
                None => Seq::empty(),
            };
            lemma_in_cat(found_in(i.expr), d, f);
            if stands_in(m, i.expr) {
                lemma_found(m, f, i.expr);
            } else {
                lemma_found(m, f, *i.diverge->0);
            }
        },
        Stmt::Expr { expr, semi: _ } => lemma_found(m, f, expr),
        Stmt::Macro(x) => {
            assert(found_in_stmt(s)[0] == f);
        },
        Stmt::Item => {},
    }
}

proof fn lemma_found_stmts(m: MacroCall, f: FoundView, s: Seq<Stmt>)
    requires
        declared(m) == Some(f),
        stands_in_stmts(m, s),
    ensures
        found_in_stmts(s).contains(f),
    decreases s,
{
    lemma_in_cat(found_in_stmts(s.drop_last()), found_in_stmt(s.last()), f);
    if stands_in_stmt(m, s.last()) {
        lemma_found_stmt(m, f, s.last());
    } else {
        lemma_found_stmts(m, f, s.drop_last());
    }
}

/// What is declared anywhere in a body is found: on whatever branch, in whatever
/// closure or argument the declaration stands.
pub proof fn law_declarations_are_found(m: MacroCall, f: FoundView, body: Seq<Stmt>)
    requires
        declared(m) == Some(f),
        stands_in_stmts(m, body),
    ensures
        found_in_stmts(body).contains(f),
{
    lemma_found_stmts(m, f, body);
}

/// The text of an argument that is a string.
pub open spec fn text_arg(m: MacroCall, i: int) -> Option<Seq<char>> {
    match m.args {
        Some(args) => if 0 <= i < args@.len() {
            match args@[i] {
                Expr::Lit(crate::ast::Lit::Str(s)) => Some(s@),
                _ => None,
            }
        } else {
            None
        },
        None => None,
    }
}

/// What each declaration macro declares, by its name and its arguments.
pub proof fn law_what_macros_declare(m: MacroCall)
    requires
        m.path.segments@.len() > 0,
        m.args matches Some(args),
    ensures
        ({
            let n = m.path.segments@.last()@;
            let args = m.args->0@;
            let a = text_arg(m, 0);
            let b = text_arg(m, 1);
            &&& n == "host"@ && args.len() == 1 && a is Some ==> declared(m) == Some(
                FoundView::Host(a->0),
            )
            &&& (n == "load_artifact"@ || n == "load_artifact_str"@) && args.len() == 1 && a is Some
                ==> declared(m) == Some(FoundView::InArtifact(a->0))
            &&& (n == "save_artifact"@ || n == "save_artifact_str"@) && a is Some ==> declared(m)
                == Some(FoundView::OutArtifact(a->0))
            &&& n == "secret"@ && args.len() == 2 && a is Some && b is Some ==> declared(m) == Some(
                FoundView::Secret(a->0, b->0, false),
            )
            &&& n == "secret_opt"@ && args.len() == 2 && a is Some && b is Some ==> declared(m)
                == Some(FoundView::Secret(a->0, b->0, true))
        }),
        m.path.segments@.last()@ == "pvc"@ ==> (m.type_arg matches Some(p) ==> declared(m) == Some(
            FoundView::Pvc(p.deep_view()),
        )),
{
    reveal_strlit("host");
    reveal_strlit("load_artifact");
    reveal_strlit("load_artifact_str");
    reveal_strlit("save_artifact");
    reveal_strlit("save_artifact_str");
    reveal_strlit("secret");
    reveal_strlit("secret_opt");
    reveal_strlit("pvc");
    assert("load_artifact"@[0] == 'l' && "save_artifact"@[0] == 's' && "load_artifact_str"@[0]
        == 'l' && "save_artifact_str"@[0] == 's');
    assert("host"@.len() == 4 && "load_artifact"@.len() == 13 && "save_artifact"@.len() == 13
        && "load_artifact_str"@.len() == 17 && "save_artifact_str"@.len() == 17
        && "secret"@.len() == 6 && "secret_opt"@.len() == 10 && "pvc"@.len() == 3);
    let n = m.path.segments@.last()@;
    let k = crate::scan::kind_of(m);
    assert(k == crate::scan::kind_named(n));
    assert(n == "load_artifact"@ || n == "load_artifact_str"@ ==> n != "save_artifact"@ && n
        != "save_artifact_str"@);
    assert(text_arg(m, 0) == crate::scan::first_lit(m));
    let args = m.args->0@;
    assert(args.len() == 1 ==> text_arg(m, 0) == crate::scan::only_lit(m));
    assert(args.len() == 2 && text_arg(m, 0) is Some && text_arg(m, 1) is Some
        ==> crate::scan::two_lits(m) == Some((text_arg(m, 0)->0, text_arg(m, 1)->0)));
}

/// The claim that a path stands for is the first that is spelt so.
pub proof fn law_spelt_claims(claims: Seq<(Seq<char>, Seq<char>)>, text: Seq<char>, i: int)
    requires
        0 <= i < claims.len(),
        claims[i].0 == text,
        forall|j: int| 0 <= j < i ==> (#[trigger] claims[j]).0 != text,
    ensures
        claim_at(claims, text) == Ok::<Seq<char>, Seq<char>>(claims[i].1),
    decreases claims.len(),
{
    if i > 0 {
        let r = claims.drop_first();
        assert(claims[0].0 != text);
        assert(r[i - 1] == claims[i]);
        assert forall|j: int| 0 <= j < i - 1 implies (#[trigger] r[j]).0 != text by {
            assert(r[j] == claims[j + 1]);
        }
        law_spelt_claims(r, text, i - 1);
    }
}

/// What is described is the first template that goes by the name that is given, by
/// itself or behind the crate's.
pub proof fn law_the_named_template_is_described<T: Template>(
    builders: Seq<T>,
    ctx: BuildCtxView,
    krate: Seq<char>,
    name: Seq<char>,
)
    ensures
        found_named(builders, ctx, krate, name) matches Ok(t) ==> {
            &&& t.name == name || t.name == krate + "-"@ + name
            &&& exists|i: int|
                0 <= i < builders.len() && (#[trigger] builders[i]).built(ctx) == Ok::<
                    TemplateView,
                    Seq<char>,
                >(t)
        },
    decreases builders.len(),
{
    if builders.len() > 0 && found_named(builders, ctx, krate, name) is Ok {
        let t = found_named(builders, ctx, krate, name)->Ok_0;
        let first = builders[0].built(ctx)->Ok_0;
        if !(first.name == name || first.name == krate + "-"@ + name) {
            let r = builders.drop_first();
            law_the_named_template_is_described(r, ctx, krate, name);
            let i = choose|i: int|
                0 <= i < r.len() && (#[trigger] r[i]).built(ctx) == Ok::<TemplateView, Seq<char>>(
                    t,
                );
            assert(builders[i + 1] == r[i]);
        }
    }
}

/// What a caller goes by is what the template declares: its name, and its inputs in
/// order, each inline or through the artifact store. Of an `if` or an arm every
/// input is inline.
pub proof fn law_what_callers_go_by(u: UnitView)
    ensures
        u.info().argo_name == u.argo_name(),
        match u.body {
            BodyView::Container(d) => u.info().inputs == d.signature.inputs && u.info().input_kinds
                == d.signature.input_kinds && u.argo_name() == d.argo_name,
            BodyView::Workflow(d) => u.info().inputs == d.signature.inputs && u.info().input_kinds
                == d.signature.input_kinds && u.argo_name() == d.argo_name,
            BodyView::Synth(s) => u.info().inputs == s.inputs && u.info().input_kinds.len() == 0
                && u.argo_name() == s.argo_name,
        },
{
}

/// The channel is among the labels: that of development for a tag that begins as
/// such tags do, and otherwise that of a release.
pub proof fn law_the_channel_is_labelled(ctx: BuildCtxView)
    ensures
        labels_of(ctx).dom().contains("cargo.athena/channel"@),
        labels_of(ctx)["cargo.athena/channel"@] == if crate::text::has_prefix(ctx.tag, "dev-"@) {
            "dev"@
        } else {
            "release"@
        },
{
    reveal_strlit("cargo.athena/version");
    reveal_strlit("cargo.athena/toolchain");
    reveal_strlit("cargo.athena/channel");
    reveal_strlit("cargo.athena/commit");
    reveal_strlit("cargo.athena/dirty");
    assert("cargo.athena/channel"@.len() == 20 && "cargo.athena/toolchain"@.len() == 22
        && "cargo.athena/version"@.len() == 20 && "cargo.athena/commit"@.len() == 19
        && "cargo.athena/dirty"@.len() == 18);
    assert("cargo.athena/channel"@[13] == 'c' && "cargo.athena/version"@[13] == 'v');
}

/// A template that is added is among those that are built, and what it asks for as a
/// root is known under its name; nothing else that was known changes.
pub proof fn law_added_templates_are_known<T>(
    c: CollectorView<T>,
    t: T,
    id: IdentityView,
    other: Seq<char>,
)
    requires
        !c.roots.dom().contains(id.argo_name),
        other != id.argo_name,
    ensures
        ({
            let d = c.added(t, id);
            &&& d.builders.len() == c.builders.len() + 1 && d.builders.last() == t
            &&& d.builders.drop_last() == c.builders
            &&& d.root_of(id.argo_name) == id.root
            &&& d.root_of(other) == c.root_of(other)
            &&& id.input_types.len() > 0 ==> d.types_of(id.argo_name) == id.input_types
            &&& d.types_of(other) == c.types_of(other)
            &&& id.synthetic ==> d.synthetic.contains(id.argo_name)
            &&& !id.synthetic ==> d.synthetic == c.synthetic
        }),
{
    let d = c.added(t, id);
    assert(d.builders.drop_last() =~= c.builders);
    assert(d.root_of(id.argo_name) =~= id.root);
    if id.synthetic && !c.synthetic.contains(id.argo_name) {
        assert(d.synthetic[c.synthetic.len() as int] == id.argo_name);
    }
}

/// What is declared anywhere in a fragment is among what the fragment declares.
pub proof fn law_fragments_declare_what_they_hold(
    f: FnDecl,
    claims: Seq<(Seq<char>, Seq<char>)>,
    m: MacroCall,
    x: FoundView,
)
    requires
        declared(m) == Some(x),
        stands_in_stmts(m, f.body@),
    ensures
        fragment_of(f, claims) matches Ok(r) ==> {
            &&& r.rust_name == f.name@
            &&& match x {
                FoundView::Host(s) => r.host_paths.contains(s),
                FoundView::InArtifact(s) => r.in_artifacts.contains(s),
                FoundView::OutArtifact(s) => r.out_artifacts.contains(s),
                FoundView::Secret(n, k, o) => r.secrets.contains((n, k, o)),
                FoundView::Pvc(p) => claim_at(claims, p.text) matches Ok(n)
                    && r.pvc_argo_names.contains(n),
                FoundView::Callee(_) => true,
            }
        },
{
    law_declarations_are_found(m, x, f.body@);
    let all = found_in_stmts(f.body@);
    let i = choose|i: int| 0 <= i < all.len() && all[i] == x;
    law_scan_complete(all, i);
    if let FoundView::Pvc(p) = x {
        let ps = scan_of(all).pvc_types;
        let g = crate::pvc::claim_fn(claims);
        lemma_map_res_len(ps, g);
        if fragment_of(f, claims) is Ok {
            let r = fragment_of(f, claims)->Ok_0;
            let k = choose|k: int| 0 <= k < ps.len() && (#[trigger] ps[k]).text == p.text;
            assert(g(ps[k]) == Ok::<Seq<char>, Seq<char>>(r.pvc_argo_names[k]));
        }
    }
}

/// A declaration that is well-formed has code that stands for it: none is left out
/// of the body.
pub proof fn law_declarations_have_code(m: MacroCall)
    requires
        m.path.segments@.len() > 0,
        m.args matches Some(args),
    ensures
        ({
            let n = m.path.segments@.last()@;
            let args = m.args->0@;
            let a = text_arg(m, 0);
            let b = text_arg(m, 1);
            &&& (n == "host"@ || n == "load_artifact"@ || n == "load_artifact_str"@) && args.len()
                == 1 && a is Some ==> expanded(n, m) is Some
            &&& (n == "save_artifact"@ || n == "save_artifact_str"@) && args.len() == 2 && a is Some
                ==> expanded(n, m) is Some
            &&& (n == "secret"@ || n == "secret_opt"@) && args.len() == 2 && a is Some && b is Some
                ==> expanded(n, m) is Some
            &&& n == "pvc"@ && m.type_arg is Some ==> expanded(n, m) is Some
        }),
{
    reveal_strlit("host");
    reveal_strlit("load_artifact");
    reveal_strlit("load_artifact_str");
    reveal_strlit("save_artifact");
    reveal_strlit("save_artifact_str");
    reveal_strlit("secret");
    reveal_strlit("secret_opt");
    reveal_strlit("pvc");
    assert("host"@.len() == 4 && "load_artifact"@.len() == 13 && "save_artifact"@.len() == 13
        && "load_artifact_str"@.len() == 17 && "save_artifact_str"@.len() == 17
        && "secret"@.len() == 6 && "secret_opt"@.len() == 10 && "pvc"@.len() == 3);
    assert("load_artifact"@[0] == 'l' && "save_artifact"@[0] == 's' && "load_artifact_str"@[0]
        == 'l' && "save_artifact_str"@[0] == 's');
    let args = m.args->0@;
    assert(args.len() == 1 ==> text_arg(m, 0) == crate::scan::only_lit(m));
    assert(args.len() == 2 && text_arg(m, 0) is Some && text_arg(m, 1) is Some
        ==> crate::scan::two_lits(m) is Some);
    assert(args.len() == 2 && text_arg(m, 0) is Some ==> crate::scan::save_parts(m) is Some);
}

} // verus!
