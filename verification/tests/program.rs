//! Whole programs: what is declared, and what is emitted for it.

use cargo_athena::api::{DagTask, Template, WorkflowTemplate};
use cargo_athena::ast::{BinOp, Expr, FnDecl, FnParam, IfExpr, Init, Lit, MacroCall, Member, Pat, Path, Stmt, TypeRef};
use cargo_athena::collector::Collector;
use cargo_athena::config::{
    ArtifactRepository, AthenaConfig, Bootstrap, Defaults, S3Repo, SecretRef,
};
use cargo_athena::container::{declare_container, ContainerArgs, ContainerDecl};
use cargo_athena::context::{BuildCtx, FragmentReg, Provenance};
use cargo_athena::modes::{entrypoint_impl, ModeEnv, Reply};
use cargo_athena::munge::{pvc_mount_path, pvc_volume_name};
use cargo_athena::program::{Linked, Program};
use cargo_athena::pvc::{PvcLifecycle, PvcReg};
use cargo_athena::submit::prune_selector;
use cargo_athena::workflow::{declare_workflow, WorkflowArgs};

fn s(t: &str) -> String {
    t.to_string()
}

fn var(n: &str) -> Expr {
    Expr::Path(Path::of(n))
}

fn text(t: &str) -> Expr {
    Expr::Lit(Lit::Str(s(t)))
}

fn num(t: &str) -> Expr {
    Expr::Lit(Lit::Int(s(t)))
}

fn call(f: &str, args: Vec<Expr>) -> Expr {
    Expr::Call { func: Box::new(var(f)), args, text: format!("{f} (..)") }
}

fn method(receiver: Expr, m: &str, args: Vec<Expr>) -> Expr {
    Expr::MethodCall { receiver: Box::new(receiver), method: s(m), args }
}

fn run(expr: Expr) -> Stmt {
    Stmt::Expr { expr, semi: true }
}

fn tail(expr: Expr) -> Stmt {
    Stmt::Expr { expr, semi: false }
}

fn bind(name: &str, expr: Expr) -> Stmt {
    Stmt::Local {
        pat: Pat::Ident { name: s(name), simple: true },
        init: Some(Init { expr, diverge: None }),
    }
}

fn field(base: Expr, name: &str) -> Expr {
    Expr::Field { base: Box::new(base), member: Member::Named(s(name)) }
}

fn ty(t: &str) -> TypeRef {
    TypeRef { text: s(t), leaf: Some((s(t), false)) }
}

fn func(name: &str, params: &[(&str, &str)], output: Option<&str>, body: Vec<Stmt>) -> FnDecl {
    FnDecl {
        name: s(name),
        is_async: false,
        generic: false,
        params: params
            .iter()
            .map(|(n, t)| FnParam::Typed { name: Some(s(n)), ty: ty(t), inject: None })
            .collect(),
        output: output.map(ty),
        body,
    }
}

fn container_args(image: Option<&str>) -> ContainerArgs {
    ContainerArgs {
        image: image.map(text),
        name: None,
        service_account: None,
        node_selector: vec![],
        on_exit_if_root: None,
        retry: None,
        timeout: None,
        pod_running_timeout: None,
        ttl_if_root: None,
        pod_gc_if_root: None,
        active_deadline_if_root: None,
        env: vec![],
        host_mount: vec![],
        annotations: vec![],
        privileged: false,
        daemon: false,
        mutexes: vec![],
        mutexes_if_root: vec![],
        tolerations: vec![],
        tolerations_if_root: vec![],
        affinity: None,
        affinity_if_root: None,
        pod_spec_patch: None,
        pod_spec_patch_if_root: None,
        image_pull_secrets_if_root: vec![],
    }
}

fn workflow_args() -> WorkflowArgs {
    WorkflowArgs {
        name: None,
        steps: false,
        boundary_node_selector: vec![],
        boundary_tolerations: vec![],
        boundary_affinity: None,
        node_selector_if_root: vec![],
        on_exit_if_root: None,
        retry: None,
        ttl_if_root: None,
        pod_gc_if_root: None,
        active_deadline_if_root: None,
        annotations: vec![],
        mutexes: vec![],
        mutexes_if_root: vec![],
        tolerations_if_root: vec![],
        affinity_if_root: None,
        pod_spec_patch_if_root: None,
        image_pull_secrets_if_root: vec![],
        parallelism: None,
        parallelism_if_root: None,
    }
}

fn config() -> AthenaConfig {
    let secret = |key: &str| SecretRef { name: s("creds"), key: s(key) };
    AthenaConfig {
        artifact_repository: ArtifactRepository {
            s3: S3Repo {
                endpoint: s("minio:9000"),
                bucket: s("bucket"),
                region: s("us-east-1"),
                insecure: true,
                access_key_secret: secret("accessKey"),
                secret_key_secret: secret("secretKey"),
            },
        },
        bootstrap: Bootstrap::default(),
        defaults: Defaults::default(),
    }
}

fn ctx_with(fragments: Vec<FragmentReg>) -> BuildCtx {
    BuildCtx::collect(fragments, config(), "demo", "1-2-3", "app")
}

fn ctx() -> BuildCtx {
    ctx_with(vec![])
}

fn container(f: &FnDecl, a: &ContainerArgs) -> ContainerDecl {
    declare_container(f, a, "demo").unwrap()
}

fn with_container(p: &mut Program, name: &str, params: &[(&str, &str)], output: Option<&str>) {
    let d = container(&func(name, params, output, vec![]), &container_args(Some("alpine:3.20")));
    p.declare_container(s(name), d);
}

fn with_workflow(p: &mut Program, name: &str, params: &[(&str, &str)], output: Option<&str>, body: Vec<Stmt>) {
    let d = declare_workflow(&func(name, params, output, body), &workflow_args(), "demo").unwrap();
    p.declare_workflow(s(name), d);
}

fn emitted(p: &Program, root: &str) -> Vec<WorkflowTemplate> {
    p.collect(root).unwrap().build_templates(&ctx()).unwrap()
}

fn name_of(t: &WorkflowTemplate) -> &str {
    t.metadata.as_ref().unwrap().name.as_str()
}

fn template<'a>(ts: &'a [WorkflowTemplate], name: &str) -> &'a Template {
    let t = ts.iter().find(|t| name_of(t) == name).unwrap();
    &t.spec.as_ref().unwrap().templates[0]
}

fn tasks<'a>(ts: &'a [WorkflowTemplate], name: &str) -> &'a Vec<DagTask> {
    &template(ts, name).dag.as_ref().unwrap().tasks
}

fn params(t: &DagTask) -> Vec<(String, String)> {
    t.arguments
        .as_ref()
        .unwrap()
        .parameters
        .iter()
        .map(|p| (p.name.clone(), p.value.clone().unwrap()))
        .collect()
}

/// let a = some_other("asdf".to_string()); run_a_container(a);
fn small_program() -> Program {
    let mut p = Program::new();
    with_container(&mut p, "some_other", &[("x", "String")], Some("String"));
    with_container(&mut p, "run_a_container", &[("a", "String")], None);
    with_workflow(
        &mut p,
        "run_foo",
        &[],
        None,
        vec![
            bind("a", call("some_other", vec![method(text("asdf"), "to_string", vec![])])),
            run(call("run_a_container", vec![var("a")])),
        ],
    );
    p
}

#[test]
fn a_workflow_becomes_a_graph() {
    let ts = emitted(&small_program(), "run_foo");
    let names: Vec<&str> = ts.iter().map(name_of).collect();
    assert_eq!(names, ["demo-run-a-container", "demo-run-foo", "demo-some-other"]);
    let tasks = tasks(&ts, "demo-run-foo");
    assert_eq!(tasks.len(), 2);
    assert_eq!(tasks[0].name, "a");
    assert_eq!(tasks[0].template_ref.as_ref().unwrap().name, "demo-some-other");
    assert_eq!(params(&tasks[0]), vec![(s("x"), s("\"asdf\""))]);
    assert!(tasks[0].dependencies.is_empty());
    assert_eq!(tasks[1].name, "run-a-container");
    assert_eq!(params(&tasks[1]), vec![(s("a"), s("{{tasks.a.outputs.parameters.return}}"))]);
    assert_eq!(tasks[1].dependencies, vec![s("a")]);
}

#[test]
fn a_resource_is_its_own_entrypoint() {
    for t in emitted(&small_program(), "run_foo") {
        let spec = t.spec.as_ref().unwrap();
        assert_eq!(spec.entrypoint, name_of(&t));
        assert_eq!(spec.templates.len(), 1);
        assert_eq!(spec.templates[0].name, spec.entrypoint);
        assert_eq!(t.kind, "WorkflowTemplate");
        assert_eq!(t.api_version, "argoproj.io/v1alpha1");
    }
}

#[test]
fn only_what_the_root_names_is_emitted() {
    let ts = emitted(&small_program(), "some_other");
    let names: Vec<&str> = ts.iter().map(name_of).collect();
    assert_eq!(names, ["demo-some-other"]);
}

#[test]
fn an_unknown_root_is_refused() {
    assert!(small_program().collect("nothing").is_err());
}

#[test]
fn an_unknown_callee_is_refused() {
    let mut p = Program::new();
    with_workflow(&mut p, "w", &[], None, vec![run(call("missing", vec![]))]);
    assert!(p.collect("w").is_err());
}

#[test]
fn an_alias_stands_for_the_same_template() {
    let mut p = small_program();
    assert!(p.alias(s("crate::run_foo"), "run_foo"));
    assert!(!p.alias(s("x"), "nothing"));
    let a = emitted(&p, "run_foo");
    let b = emitted(&p, "crate::run_foo");
    assert!(a == b);
}

#[test]
fn one_template_called_twice_has_two_tasks() {
    let mut p = Program::new();
    with_container(&mut p, "step", &[], None);
    with_workflow(
        &mut p,
        "twice",
        &[],
        None,
        vec![run(call("step", vec![])), run(call("step", vec![]))],
    );
    let ts = emitted(&p, "twice");
    let names: Vec<&str> = tasks(&ts, "demo-twice").iter().map(|t| t.name.as_str()).collect();
    assert_eq!(names, ["step", "step-2"]);
    assert_eq!(ts.len(), 2);
}

#[test]
fn a_call_in_an_argument_is_a_task_before() {
    let mut p = Program::new();
    with_container(&mut p, "make", &[], Some("String"));
    with_container(&mut p, "take", &[("v", "String")], None);
    with_workflow(&mut p, "w", &[], None, vec![run(call("take", vec![call("make", vec![])]))]);
    let ts = emitted(&p, "w");
    let ts = tasks(&ts, "demo-w");
    assert_eq!(ts.len(), 2);
    assert_eq!(ts[0].template_ref.as_ref().unwrap().name, "demo-make");
    assert_eq!(ts[1].dependencies, vec![ts[0].name.clone()]);
}

#[test]
fn a_field_is_read_from_json() {
    let mut p = Program::new();
    with_container(&mut p, "make", &[], Some("Meta"));
    with_container(&mut p, "take", &[("v", "String"), ("w", "i64")], None);
    with_workflow(
        &mut p,
        "w",
        &[("count", "i64")],
        None,
        vec![
            bind("m", call("make", vec![])),
            run(call("take", vec![field(field(var("m"), "a"), "b"), var("count")])),
        ],
    );
    let ts = emitted(&p, "w");
    let ts = tasks(&ts, "demo-w");
    assert_eq!(
        params(&ts[1]),
        vec![
            (
                s("v"),
                s("{{=toJSON(fromJSON(tasks['m'].outputs.parameters['return'])['a']['b'])}}")
            ),
            (s("w"), s("{{inputs.parameters.count}}")),
        ]
    );
}

#[test]
fn the_last_expression_is_returned() {
    let mut p = Program::new();
    with_container(&mut p, "make", &[], Some("String"));
    with_workflow(&mut p, "w", &[], Some("String"), vec![tail(call("make", vec![]))]);
    let ts = emitted(&p, "w");
    let out = template(&ts, "demo-w").outputs.as_ref().unwrap();
    assert_eq!(out.parameters[0].name, "return");
    assert_eq!(
        out.parameters[0].value_from.as_ref().unwrap().parameter,
        "{{tasks.make.outputs.parameters.return}}"
    );
}

/// if count > 3 { big(count); } else { small(); }
fn branching() -> Program {
    let mut p = Program::new();
    with_container(&mut p, "big", &[("count", "i64")], None);
    with_container(&mut p, "small", &[], None);
    let cond = Expr::Binary {
        op: BinOp::Gt,
        left: Box::new(var("count")),
        right: Box::new(num("3")),
    };
    with_workflow(
        &mut p,
        "pick",
        &[("count", "i64")],
        None,
        vec![tail(Expr::If(IfExpr {
            cond: Box::new(cond),
            then_branch: vec![run(call("big", vec![var("count")]))],
            else_branch: Some(Box::new(Expr::Block { stmts: vec![run(call("small", vec![]))] })),
        }))],
    );
    p
}

#[test]
fn an_if_becomes_workflows_of_its_own() {
    let ts = emitted(&branching(), "pick");
    let names: Vec<&str> = ts.iter().map(name_of).collect();
    assert_eq!(
        names,
        [
            "demo-big",
            "demo-pick",
            "demo-pick-if0",
            "demo-pick-if0-arm0",
            "demo-pick-if0-arm1",
            "demo-small",
        ]
    );
    let outer = tasks(&ts, "demo-pick");
    assert_eq!(outer.len(), 1);
    assert_eq!(outer[0].name, "if");
    assert_eq!(params(&outer[0]), vec![(s("count"), s("{{inputs.parameters.count}}"))]);
    let arms = tasks(&ts, "demo-pick-if0");
    assert_eq!(arms[0].when, "({{inputs.parameters.count}} > 3)");
    assert_eq!(arms[1].when, "!(({{inputs.parameters.count}} > 3))");
    assert_eq!(arms[0].template_ref.as_ref().unwrap().name, "demo-pick-if0-arm0");
}

#[test]
fn the_list_hides_nothing_and_marks_what_is_synthetic() {
    let p = branching();
    let c = p.collect("pick").unwrap();
    let metas = c.list(&ctx(), "demo").unwrap();
    let marked: Vec<(&str, bool)> =
        metas.iter().map(|m| (m.name.as_str(), m.synthetic)).collect();
    assert_eq!(marked.len(), 6);
    for (name, synthetic) in marked {
        assert_eq!(synthetic, name.contains("-if0"), "{name}");
    }
}

#[test]
fn a_fan_out_walks_a_list() {
    let mut p = Program::new();
    with_container(&mut p, "list", &[], Some("Vec<String>"));
    with_container(&mut p, "cap", &[("w", "String")], Some("String"));
    with_container(&mut p, "join", &[("ws", "Vec<String>")], None);
    let closure = Expr::Closure {
        inputs: vec![Pat::Ident { name: s("w"), simple: true }],
        body: Box::new(call("cap", vec![var("w")])),
    };
    with_workflow(
        &mut p,
        "w",
        &[],
        None,
        vec![
            bind("l", call("list", vec![])),
            bind("caps", method(var("l"), "fan_out", vec![closure])),
            run(call("join", vec![var("caps")])),
        ],
    );
    let ts = emitted(&p, "w");
    let ts = tasks(&ts, "demo-w");
    assert_eq!(ts[1].with_param, "{{tasks.l.outputs.parameters.return}}");
    assert_eq!(params(&ts[1]), vec![(s("w"), s("{{item}}"))]);
    assert_eq!(ts[1].dependencies, vec![s("l")]);
    assert_eq!(ts[2].dependencies, vec![s("caps")]);
    assert!(params(&ts[2])[0].1.starts_with("{{=let s = tasks['caps'].outputs?."));
}

#[test]
fn the_outcome_of_a_task_that_may_fail_is_passed_on() {
    let may_fail = |e: Expr| method(e, "continue_on", vec![var("failed")]);
    let closure = Expr::Closure {
        inputs: vec![Pat::Ident { name: s("x"), simple: true }],
        body: Box::new(call("each", vec![var("x")])),
    };
    let mut p = Program::new();
    with_container(&mut p, "make", &[], Some("String"));
    with_container(&mut p, "each", &[("x", "String")], Some("String"));
    with_container(&mut p, "take", &[("v", "Result < String , ArgoError >")], None);
    with_workflow(
        &mut p,
        "w",
        &[("xs", "Vec < String >")],
        None,
        vec![
            bind("a", may_fail(call("make", vec![]))),
            run(call("take", vec![var("a")])),
            bind("b", may_fail(method(var("xs"), "fan_out", vec![closure]))),
            run(method(call("make", vec![]), "on_exit", vec![call("take", vec![var("b")])])),
        ],
    );
    let ts = emitted(&p, "w");
    let all = tasks(&ts, "demo-w");
    assert!(all[0].continue_on.as_ref().unwrap().failed);
    assert_eq!(
        params(&all[1]),
        vec![(
            s("v"),
            s("{{=tasks['a'].status == \"Succeeded\" ? toJSON({\"Ok\": fromJSON(tasks['a'].outputs.parameters['return'])}) : toJSON({\"Err\": {\"task\": \"a\"} })}}")
        )]
    );
    assert_eq!(all[1].dependencies, vec![s("a")]);
    let hook = all[3].hooks.get("exit").unwrap().arguments.as_ref().unwrap();
    let value = hook.parameters[0].value.as_ref().unwrap();
    assert!(value.contains("let l = inputs.parameters['xs'] ?? "), "{value}");
}

#[test]
fn a_hook_names_a_template() {
    let mut p = Program::new();
    with_container(&mut p, "work", &[], None);
    with_container(&mut p, "clean", &[], None);
    with_container(&mut p, "alarm", &[("why", "String")], None);
    let e = method(
        method(call("work", vec![]), "on_exit", vec![var("clean")]),
        "on_failure",
        vec![call("alarm", vec![text("down")])],
    );
    with_workflow(&mut p, "w", &[], None, vec![run(e)]);
    let ts = emitted(&p, "w");
    let t = &tasks(&ts, "demo-w")[0];
    let exit = t.hooks.get("exit").unwrap();
    assert_eq!(exit.template_ref.as_ref().unwrap().name, "demo-clean");
    assert!(exit.arguments.is_none());
    assert_eq!(exit.expression, "");
    let hook = t.hooks.get("hook1").unwrap();
    assert_eq!(hook.template_ref.as_ref().unwrap().name, "demo-alarm");
    assert_eq!(hook.expression, "tasks['work'].status == \"Failed\"");
    let p = &hook.arguments.as_ref().unwrap().parameters[0];
    assert_eq!((p.name.as_str(), p.value.as_deref()), ("why", Some("\"down\"")));
}

#[test]
fn steps_run_one_after_the_other() {
    let mut p = Program::new();
    with_container(&mut p, "make", &[], Some("String"));
    with_container(&mut p, "take", &[("v", "String")], None);
    let mut a = workflow_args();
    a.steps = true;
    let body = vec![bind("x", call("make", vec![])), run(call("take", vec![var("x")]))];
    let d = declare_workflow(&func("w", &[], None, body), &a, "demo").unwrap();
    p.declare_workflow(s("w"), d);
    let ts = emitted(&p, "w");
    let t = template(&ts, "demo-w");
    assert!(t.dag.is_none());
    assert_eq!(t.steps.len(), 2);
    assert_eq!(t.steps[1].len(), 1);
    assert!(t.steps[1][0].dependencies.is_empty());
    assert_eq!(
        params(&t.steps[1][0]),
        vec![(s("v"), s("{{steps.x.outputs.parameters.return}}"))]
    );
}

#[test]
fn a_workflow_cannot_be_async() {
    let mut f = func("w", &[], None, vec![]);
    f.is_async = true;
    let r = declare_workflow(&f, &workflow_args(), "demo");
    match r {
        Err(m) => assert!(m.contains("cannot be `async fn`"), "{m}"),
        Ok(_) => panic!("accepted"),
    }
}

#[test]
fn a_loop_in_a_workflow_is_refused() {
    let body = vec![run(Expr::Other {
        kind: cargo_athena::ast::OtherKind::ForLoop,
        parts: vec![],
        stmts: vec![],
    })];
    assert!(declare_workflow(&func("w", &[], None, body), &workflow_args(), "demo").is_err());
}

#[test]
fn a_container_is_a_pod() {
    let mut a = container_args(Some("alpine:3.20"));
    a.env = vec![(s("LEVEL"), text("debug"))];
    a.privileged = true;
    let d = container(&func("hello", &[("name", "String")], Some("String"), vec![]), &a);
    let mut p = Program::new();
    p.declare_container(s("hello"), d);
    let ts = emitted(&p, "hello");
    let t = template(&ts, "demo-hello");
    let c = t.container.as_ref().unwrap();
    assert_eq!(c.image, "alpine:3.20");
    assert_eq!(c.env[0].name, "CARGO_ATHENA_TEMPLATE");
    assert_eq!(c.env[0].value, "demo-hello");
    assert_eq!((c.env[1].name.as_str(), c.env[1].value.as_str()), ("LEVEL", "debug"));
    assert!(c.security_context.as_ref().unwrap().privileged);
    assert!(c.args.iter().any(|a| a == "{{inputs.parameters.name}}"));
    let inputs = t.inputs.as_ref().unwrap();
    assert_eq!(inputs.parameters[0].name, "name");
    assert_eq!(inputs.artifacts[0].name, "athena-dist");
    assert_eq!(
        inputs.artifacts[0].s3.as_ref().unwrap().key,
        "demo/1-2-3/app.tar.gz"
    );
    assert_eq!(t.service_account_name, "default");
    let out = t.outputs.as_ref().unwrap();
    assert_eq!(out.parameters[0].name, "return");
}

#[test]
fn a_container_without_an_image_has_the_default() {
    let d = container(&func("hello", &[], None, vec![]), &container_args(None));
    let mut p = Program::new();
    p.declare_container(s("hello"), d);
    let ts = emitted(&p, "hello");
    assert_eq!(
        template(&ts, "demo-hello").container.as_ref().unwrap().image,
        "busybox:1.36-musl"
    );
}

#[test]
fn an_argument_goes_into_an_attribute() {
    let mut a = container_args(None);
    a.image = Some(Expr::Binary {
        op: BinOp::Add,
        left: Box::new(text("repo:")),
        right: Box::new(field(var("meta"), "tag")),
    });
    let d = container(&func("hello", &[("meta", "Meta")], None, vec![]), &a);
    let mut p = Program::new();
    p.declare_container(s("hello"), d);
    let ts = emitted(&p, "hello");
    assert_eq!(
        template(&ts, "demo-hello").container.as_ref().unwrap().image,
        "repo:{{=fromJSON(inputs.parameters['meta'])['tag']}}"
    );
    a.image = Some(var("other"));
    assert!(declare_container(&func("hello", &[], None, vec![]), &a, "demo").is_err());
}

#[test]
fn a_resource_says_where_it_comes_from() {
    let p = small_program();
    let all = p.collect("run_foo").unwrap();
    let labels_in = |c: &BuildCtx| -> Vec<(String, String)> {
        let ts = all.build_templates(c).unwrap();
        let l = &ts[0].metadata.as_ref().unwrap().labels;
        for t in &ts {
            assert_eq!(&t.metadata.as_ref().unwrap().labels, l);
        }
        l.keys().into_iter().map(|k| (k.clone(), l.get(&k).unwrap().clone())).collect()
    };
    let pair = |k: &str, v: &str| (format!("cargo.athena/{k}"), s(v));
    let bare = labels_in(&ctx());
    let want = [("bin", "app"), ("channel", "release"), ("pkg", "demo"), ("tag", "1-2-3")];
    assert_eq!(bare, want.map(|(k, v)| pair(k, v)).to_vec());
    for part in prune_selector("demo", "1-2-3").split(',') {
        let (k, v) = part.split_once('=').unwrap();
        assert!(bare.contains(&(s(k), s(v))), "{part}");
    }
    let known = Provenance {
        version: Some(s("1.2.3")),
        toolchain: Some(s("1.90.0")),
        commit: Some(s("a1b2c3d")),
        dirty: Some(true),
    };
    let full = labels_in(&ctx().with_provenance(known));
    for (k, v) in [
        ("version", "1.2.3"),
        ("toolchain", "1.90.0"),
        ("commit", "a1b2c3d"),
        ("dirty", "true"),
    ] {
        assert!(full.contains(&pair(k, v)), "{k}");
    }
    assert_eq!(full.len(), 8);
}

fn claim(name: &str, lifecycle: PvcLifecycle) -> PvcReg {
    let ephemeral = lifecycle == PvcLifecycle::Ephemeral;
    PvcReg {
        argo_name: s(name),
        mount_path: pvc_mount_path(name),
        lifecycle,
        size: if ephemeral { s("10Gi") } else { s("") },
        access_modes: if ephemeral { vec![s("ReadWriteMany")] } else { vec![] },
        storage_class_name: if ephemeral { s("fast") } else { s("") },
        claim_name: if ephemeral { s("") } else { s("shared-data") },
        read_only: !ephemeral,
    }
}

fn mounting(claim: &str) -> Stmt {
    Stmt::Macro(MacroCall {
        path: Path::of("pvc"),
        args: None,
        type_arg: Some(Path::of(claim)),
    })
}

#[test]
fn claims_are_made_and_mounted() {
    let fragments = vec![FragmentReg {
        rust_name: s("helper"),
        host_paths: vec![],
        in_artifacts: vec![],
        out_artifacts: vec![],
        secrets: vec![],
        pvc_argo_names: vec![s("demo-data")],
        callees: vec![],
    }];
    let spellings = vec![(s("Cache"), s("demo-cache")), (s("Data"), s("demo-data"))];
    let claims = vec![
        claim("demo-unused", PvcLifecycle::Ephemeral),
        claim("demo-data", PvcLifecycle::External),
        claim("demo-cache", PvcLifecycle::Ephemeral),
        claim("demo-cache", PvcLifecycle::Ephemeral),
    ];
    let ctx = ctx_with(fragments).with_claims(spellings, &claims);
    let body = vec![mounting("Cache"), run(call("helper", vec![]))];
    let mut p = Program::new();
    p.declare_container(s("c"), container(&func("c", &[], None, body), &container_args(None)));
    let ts = p.collect("c").unwrap().build_templates(&ctx).unwrap();
    let made = &ts[0].spec.as_ref().unwrap().volume_claim_templates;
    let names: Vec<String> = made.iter().map(|c| c.metadata.as_ref().unwrap().name.clone()).collect();
    assert_eq!(names, vec![pvc_volume_name("demo-cache"), pvc_volume_name("demo-unused")]);
    let spec = made[0].spec.as_ref().unwrap();
    assert_eq!(spec.access_modes, vec![s("ReadWriteMany")]);
    assert_eq!(spec.storage_class_name, "fast");
    assert_eq!(spec.resources.as_ref().unwrap().requests.get("storage"), Some(&s("10Gi")));
    let t = template(&ts, "demo-c");
    let mounts = &t.container.as_ref().unwrap().volume_mounts;
    for (name, read_only) in [("demo-cache", false), ("demo-data", true)] {
        let m = mounts.iter().find(|m| m.name == pvc_volume_name(name)).unwrap();
        assert_eq!((m.mount_path.clone(), m.read_only), (pvc_mount_path(name), read_only));
    }
    let held: Vec<_> = t.volumes.iter().filter(|v| v.persistent_volume_claim.is_some()).collect();
    assert_eq!(held.len(), 1);
    assert_eq!(held[0].name, pvc_volume_name("demo-data"));
    let source = held[0].persistent_volume_claim.as_ref().unwrap();
    assert_eq!((source.claim_name.as_str(), source.read_only), ("shared-data", true));
}

#[test]
fn an_unknown_claim_is_refused() {
    let body = vec![mounting("Nowhere")];
    let mut p = Program::new();
    p.declare_container(s("c"), container(&func("c", &[], None, body), &container_args(None)));
    let all = p.collect("c").unwrap();
    assert_eq!(
        all.build_templates(&ctx()).unwrap_err(),
        "cannot find the claim `Nowhere`"
    );
    let spelt = ctx().with_claims(vec![(s("Nowhere"), s("demo-nowhere"))], &vec![]);
    assert_eq!(
        all.build_templates(&spelt).unwrap_err(),
        "no claim is called `demo-nowhere`"
    );
}

#[test]
fn a_secret_is_given_once() {
    let fragments = vec![FragmentReg {
        rust_name: s("helper"),
        host_paths: vec![],
        in_artifacts: vec![],
        out_artifacts: vec![],
        secrets: vec![(s("db"), s("user"), false), (s("db"), s("pass"), false)],
        pvc_argo_names: vec![],
        callees: vec![],
    }];
    let own = vec![(s("db"), s("user"), true), (s("db"), s("user"), false)];
    assert_eq!(
        ctx_with(fragments).resolved_secrets(&own, &vec![s("helper")]),
        vec![(s("db"), s("user"), true), (s("db"), s("pass"), false)]
    );
}

#[test]
fn what_a_fragment_needs_reaches_the_container() {
    let fragments = vec![
        FragmentReg {
            rust_name: s("outer"),
            host_paths: vec![],
            in_artifacts: vec![s("model")],
            out_artifacts: vec![],
            secrets: vec![],
            pvc_argo_names: vec![],
            callees: vec![s("inner")],
        },
        FragmentReg {
            rust_name: s("inner"),
            host_paths: vec![s("/etc/app")],
            in_artifacts: vec![],
            out_artifacts: vec![s("log")],
            secrets: vec![(s("db"), s("password"), false)],
            pvc_argo_names: vec![],
            callees: vec![s("outer")],
        },
    ];
    let ctx = ctx_with(fragments);
    let own: Vec<String> = vec![s("/etc/app"), s("/var/run")];
    let callees = vec![s("outer")];
    assert_eq!(
        ctx.resolved_host_paths(&own, &callees),
        vec![s("/etc/app"), s("/var/run")]
    );
    assert_eq!(ctx.resolved_in_artifacts(&vec![], &callees), vec![s("model")]);
    assert_eq!(ctx.resolved_out_artifacts(&vec![], &callees), vec![s("log")]);
    assert_eq!(
        ctx.resolved_secrets(&vec![], &callees),
        vec![(s("db"), s("password"), false)]
    );
    let d = container(
        &func("c", &[], None, vec![run(call("outer", vec![]))]),
        &container_args(None),
    );
    let mut p = Program::new();
    p.declare_container(s("c"), d);
    let ts = p.collect("c").unwrap().build_templates(&ctx).unwrap();
    let t = template(&ts, "demo-c");
    let c = t.container.as_ref().unwrap();
    let secret = c.env.iter().find(|e| e.name == "ATHENA_SEC_DB__PASSWORD").unwrap();
    let key = secret.value_from.as_ref().unwrap().secret_key_ref.as_ref().unwrap();
    assert_eq!((key.name.as_str(), key.key.as_str(), key.optional), ("db", "password", false));
    assert!(t
        .volumes
        .iter()
        .any(|v| v.host_path.as_ref().is_some_and(|h| h.path == "/etc/app")));
    let names: Vec<&str> =
        t.inputs.as_ref().unwrap().artifacts.iter().map(|a| a.name.as_str()).collect();
    assert_eq!(names, ["athena-dist", "model"]);
}

#[test]
fn an_affinity_must_be_yaml() {
    let mut a = container_args(None);
    a.affinity = Some(text("{nodeAffinity: {}}"));
    let mut p = Program::new();
    p.declare_container(s("good"), container(&func("good", &[], None, vec![]), &a));
    assert!(p.collect("good").unwrap().build_templates(&ctx()).is_ok());
    a.affinity = Some(text("{unclosed"));
    p.declare_container(s("bad"), container(&func("bad", &[], None, vec![]), &a));
    match p.collect("bad").unwrap().build_templates(&ctx()) {
        Err(m) => assert!(m.starts_with("affinity: invalid YAML/JSON: "), "{m}"),
        Ok(_) => panic!("accepted"),
    }
}

// ---- what a binary is asked to do ------------------------------------------------------
fn no_env() -> ModeEnv {
    ModeEnv {
        template: None,
        output: None,
        list: false,
        describe: None,
        emit_json: false,
        with_workflow: None,
    }
}

fn ask(c: &Collector<Linked>, env: &ModeEnv, argc: usize) -> Result<Reply, String> {
    let ctx = ctx();
    entrypoint_impl(c, env, "demo-run-foo", "demo", Some(&ctx), argc)
}

#[test]
fn a_binary_emits_its_templates() {
    let p = small_program();
    let c = p.collect("run_foo").unwrap();
    match ask(&c, &no_env(), 0) {
        Ok(Reply::Emitted(ts, None)) => assert_eq!(ts.len(), 3),
        _ => panic!("not emitted"),
    }
    let mut env = no_env();
    env.with_workflow = Some(s("1"));
    match ask(&c, &env, 0) {
        Ok(Reply::Emitted(ts, Some(w))) => {
            assert_eq!(ts.len(), 3);
            assert_eq!(w.kind, "Workflow");
            assert_eq!(w.metadata.as_ref().unwrap().generate_name, "demo-run-foo-");
            let spec = w.spec.as_ref().unwrap();
            assert_eq!(spec.workflow_template_ref.as_ref().unwrap().name, "demo-run-foo");
            assert_eq!(spec.service_account_name, "default");
        }
        _ => panic!("not emitted"),
    }
    env.with_workflow = Some(s("yes"));
    assert!(matches!(ask(&c, &env, 0), Ok(Reply::Emitted(_, None))));
    env.emit_json = true;
    match ask(&c, &env, 0) {
        Ok(Reply::Templates(ts)) => assert_eq!(ts.len(), 3),
        _ => panic!("no templates"),
    }
}

#[test]
fn a_binary_describes_a_template_by_either_name() {
    let p = small_program();
    let c = p.collect("run_foo").unwrap();
    for name in ["demo-some-other", "some-other"] {
        let mut env = no_env();
        env.describe = Some(s(name));
        match ask(&c, &env, 0) {
            Ok(Reply::Described(m)) => {
                assert_eq!(m.name, "demo-some-other");
                assert_eq!(m.package, "demo");
                assert_eq!(m.kind, "container");
                assert_eq!(m.params[0].name, "x");
                assert_eq!(m.params[0].ty, "String");
                assert_eq!(m.binary_artifact.as_ref().unwrap().s3.key, "demo/1-2-3/app.tar.gz");
            }
            _ => panic!("not described"),
        }
    }
    let mut env = no_env();
    env.describe = Some(s("nope"));
    match ask(&c, &env, 0) {
        Err(m) => assert_eq!(m, "no template named \"nope\" (or \"demo-nope\")"),
        Ok(_) => panic!("described"),
    }
    env.list = true;
    match ask(&c, &env, 0) {
        Ok(Reply::Listed(ms)) => assert_eq!(ms.len(), 3),
        _ => panic!("not listed"),
    }
}

#[test]
fn a_pod_runs_one_template() {
    let p = small_program();
    let c = p.collect("run_foo").unwrap();
    let mut env = no_env();
    env.template = Some(s("demo-some-other"));
    env.output = Some(s("/athena/out"));
    env.list = true;
    assert!(env.is_container_run());
    match entrypoint_impl(&c, &env, "demo-run-foo", "demo", None, 1) {
        Ok(Reply::Run { template, output }) => {
            assert_eq!(template, "demo-some-other");
            assert_eq!(output, Some(s("/athena/out")));
        }
        _ => panic!("not run"),
    }
    assert!(entrypoint_impl(&c, &env, "demo-run-foo", "demo", None, 0).is_err());
    env.template = Some(s("demo-run-foo"));
    match entrypoint_impl(&c, &env, "demo-run-foo", "demo", None, 0) {
        Err(m) => assert_eq!(m, "no runnable container template named \"demo-run-foo\""),
        Ok(_) => panic!("run"),
    }
}

#[test]
fn every_reference_leads_to_an_emitted_template() {
    let ts = emitted(&branching(), "pick");
    let names: Vec<&str> = ts.iter().map(name_of).collect();
    let mut seen: usize = 0;
    for t in &ts {
        let inner = &t.spec.as_ref().unwrap().templates[0];
        for task in inner.dag.iter().flat_map(|d| d.tasks.iter()) {
            let r = task.template_ref.as_ref().unwrap();
            assert!(names.contains(&r.name.as_str()), "{}", r.name);
            assert_eq!(r.name, r.template);
            seen += 1;
        }
    }
    assert!(seen > 2);
}

#[test]
fn a_pod_passes_what_the_binary_expects() {
    let p = small_program();
    let c = p.collect("run_foo").unwrap();
    let ts = c.build_templates(&ctx()).unwrap();
    let pod = template(&ts, "demo-some-other").container.as_ref().unwrap();
    assert_eq!(pod.env[0].name, "CARGO_ATHENA_TEMPLATE");
    assert_eq!(pod.env[0].value, "demo-some-other");
    assert_eq!(pod.args[2..], ["{{inputs.parameters.x}}"]);
    assert!(c.check_run("demo-some-other", pod.args.len() - 2).is_ok());
    assert!(c.check_run("demo-some-other", pod.args.len()).is_err());
    assert!(c.check_run("demo-run-foo", 0).is_err());
}
