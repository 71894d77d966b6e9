//! What attributes say: durations, retries, tolerations, claims, builders.

use cargo_athena::analyze::peel_builders;
use cargo_athena::ast::{BinOp, Expr, FnDecl, FnParam, Lit, MacroCall, Member, Path, Stmt, TypeRef};
use cargo_athena::attrs::{
    check_toleration_effect, check_toleration_operator, inject_lower, parallelism,
    parse_duration_secs, parse_pod_gc_fields, parse_retry_fields, parse_ttl_fields,
    pod_gc_strategy, retry_strategy, secs_i32, secs_i64, timeout, ttl_strategy,
};
use cargo_athena::conditional::{render_when, RelOp, WhenExpr, WhenOp};
use cargo_athena::ghost::ghost_parts;
use cargo_athena::names::{check_dns1123_name, make_argo_name, yaml_ambiguous};
use cargo_athena::node::HookWhen;
use cargo_athena::pvc::{
    declare_ephemeral, declare_external, declare_fragment, EphemeralArgs, ExternalArgs,
    PvcLifecycle, StructDecl,
};
use cargo_athena::scan::scan_body;
use cargo_athena::signature::{
    arg_slots, check_argv, check_fn_shape, fn_args, is_artifact_ty, signature, Slot,
};

fn s(t: &str) -> String {
    t.to_string()
}

fn var(n: &str) -> Expr {
    Expr::Path(Path::of(n))
}

fn text(t: &str) -> Expr {
    Expr::Lit(Lit::Str(s(t)))
}

fn num(t: &str) -> Expr {
    Expr::Lit(Lit::Int(s(t)))
}

fn add(a: Expr, b: Expr) -> Expr {
    Expr::Binary { op: BinOp::Add, left: Box::new(a), right: Box::new(b) }
}

fn call(f: &str, args: Vec<Expr>) -> Expr {
    Expr::Call { func: Box::new(var(f)), args, text: format!("{f} (..)") }
}

fn method(receiver: Expr, m: &str, args: Vec<Expr>) -> Expr {
    Expr::MethodCall { receiver: Box::new(receiver), method: s(m), args }
}

fn ty(t: &str) -> TypeRef {
    TypeRef { text: s(t), leaf: Some((s(t), false)) }
}

fn param(n: &str, t: TypeRef, inject: Option<&str>) -> FnParam {
    FnParam::Typed { name: Some(s(n)), ty: t, inject: inject.map(s) }
}

fn func(params: Vec<FnParam>, body: Vec<Stmt>) -> FnDecl {
    FnDecl { name: s("f"), is_async: false, generic: false, params, output: None, body }
}

fn mac(name: &str, args: Vec<Expr>) -> Stmt {
    Stmt::Macro(MacroCall { path: Path::of(name), args: Some(args), type_arg: None })
}

#[test]
fn durations_are_whole_seconds() {
    assert_eq!(parse_duration_secs(&num("90"), "timeout"), Ok(90));
    assert_eq!(parse_duration_secs(&text("1h30m"), "timeout"), Ok(5400));
    assert_eq!(parse_duration_secs(&text("2d"), "timeout"), Ok(172_800));
    for bad in [num("0"), text("0s"), text("soon"), text("-1s"), text("")] {
        let m = parse_duration_secs(&bad, "timeout").unwrap_err();
        assert!(m.starts_with("`timeout`: expected a positive integer"), "{m}");
    }
    let m = parse_duration_secs(&text("1500ms"), "timeout").unwrap_err();
    assert!(m.contains("sub-second") && m.contains("\"1500ms\""), "{m}");
    let m = parse_duration_secs(&var("x"), "timeout").unwrap_err();
    assert_eq!(m, "`timeout`: expected an integer or a duration string");
}

#[test]
fn durations_have_limits() {
    assert_eq!(secs_i32(None, "a"), Ok(None));
    assert_eq!(secs_i32(Some(&num("2147483647")), "a"), Ok(Some(i32::MAX)));
    assert!(secs_i32(Some(&num("2147483648")), "a").is_err());
    assert_eq!(secs_i64(Some(&num("2147483648")), "a"), Ok(Some(2_147_483_648)));
    assert!(secs_i64(Some(&num("9223372036854775808")), "a").is_err());
    assert_eq!(timeout(None), Ok(s("")));
    assert_eq!(timeout(Some(&text("2m"))), Ok(s("120s")));
    assert_eq!(parse_duration_secs(&text("100000000000ms"), "timeout"), Ok(100_000_000));
    assert_eq!(
        parse_duration_secs(&text("18446744073709551614s 1000ms"), "timeout"),
        Ok(u64::MAX)
    );
    assert_eq!(parse_duration_secs(&text("123456789012s 1000ms"), "timeout"), Ok(123_456_789_013));
    for past in [
        "18446744073709551615s 1000ms",
        "18446744073709551615s 1 000 ms",
        "18446744073709551615s 0.5s 500ms",
        "18446744073709551615s1000000us",
        "18446744073709551615s 2s",
    ] {
        assert!(parse_duration_secs(&text(past), "timeout").is_err(), "{past}");
    }
}

#[test]
fn parallelism_is_positive() {
    assert_eq!(parallelism(None, "parallelism"), Ok(None));
    assert_eq!(parallelism(Some(1), "parallelism"), Ok(Some(1)));
    assert!(parallelism(Some(0), "parallelism").unwrap_err().contains("must be > 0"));
}

#[test]
fn retries_have_a_limit() {
    let fields = vec![
        (s("limit"), num("3")),
        (s("policy"), text("OnFailure")),
        (s("backoff"), text("10s")),
    ];
    let r = retry_strategy(&Some(parse_retry_fields(&fields).unwrap())).unwrap().unwrap();
    assert_eq!(r.limit, Some(3));
    assert_eq!(r.retry_policy, "OnFailure");
    assert_eq!(r.backoff.unwrap().duration, "10s");
    let fields = vec![(s("limit"), var("unlimited"))];
    let r = retry_strategy(&Some(parse_retry_fields(&fields).unwrap())).unwrap().unwrap();
    assert_eq!(r.limit, None);
    assert!(retry_strategy(&Some(parse_retry_fields(&vec![]).unwrap())).is_err());
    let fields = vec![(s("limit"), num("1")), (s("policy"), text("Never"))];
    let m = retry_strategy(&Some(parse_retry_fields(&fields).unwrap())).unwrap_err();
    assert!(m.starts_with("unknown retry policy `Never`"), "{m}");
    let fields = vec![(s("times"), num("1"))];
    match parse_retry_fields(&fields) {
        Err(m) => assert!(m.starts_with("unknown `retry(...)` field `times`"), "{m}"),
        Ok(_) => panic!("accepted"),
    }
    assert_eq!(retry_strategy(&None), Ok(None));
}

#[test]
fn finished_runs_are_deleted_in_time() {
    let fields = vec![(s("after_success"), text("1h"))];
    let t = ttl_strategy(&Some(parse_ttl_fields(&fields).unwrap())).unwrap().unwrap();
    assert_eq!(t.seconds_after_success, Some(3600));
    assert_eq!(t.seconds_after_completion, None);
    assert!(ttl_strategy(&Some(parse_ttl_fields(&vec![]).unwrap())).is_err());
    let fields = vec![(s("strategy"), text("OnPodSuccess"))];
    assert_eq!(
        pod_gc_strategy(&Some(parse_pod_gc_fields(&fields).unwrap())),
        Ok(Some(s("OnPodSuccess")))
    );
    assert!(pod_gc_strategy(&Some(None)).is_err());
    assert!(pod_gc_strategy(&Some(Some(s("Later")))).is_err());
}

#[test]
fn tolerations_are_checked() {
    assert!(check_toleration_operator("Equal").is_ok());
    assert!(check_toleration_operator("Exists").is_ok());
    assert!(check_toleration_operator("In").is_err());
    for ok in ["", "NoSchedule", "PreferNoSchedule", "NoExecute", "{{x}}"] {
        assert!(check_toleration_effect(ok).is_ok());
    }
    assert!(check_toleration_effect("Sometimes").is_err());
}

#[test]
fn arguments_are_injected() {
    let args = vec![s("tag"), s("meta")];
    let field = |base: Expr, n: &str| Expr::Field {
        base: Box::new(base),
        member: Member::Named(s(n)),
    };
    let lower = |e: &Expr| inject_lower(e, &args, "inputs.parameters", "container");
    assert_eq!(lower(&text("repo")), Ok(s("repo")));
    assert_eq!(
        lower(&add(text("repo:"), var("tag"))),
        Ok(s("repo:{{=fromJSON(inputs.parameters['tag'])}}"))
    );
    assert_eq!(
        lower(&field(field(var("meta"), "a"), "b")),
        Ok(s("{{=fromJSON(inputs.parameters['meta'])['a']['b']}}"))
    );
    assert!(lower(&var("other")).unwrap_err().contains("is not a parameter of this #[container]"));
    assert!(lower(&call("f", vec![])).is_err());
    let tuple = Expr::Field { base: Box::new(var("meta")), member: Member::Unnamed };
    assert!(lower(&tuple).unwrap_err().starts_with("tuple-field access"));
}

#[test]
fn conditions_are_rendered_in_parentheses() {
    let rel = |n: &str| WhenExpr::Rel {
        lhs: WhenOp::Input(s(n)),
        op: RelOp::Eq,
        rhs: WhenOp::Str(s("a\"b")),
    };
    assert_eq!(render_when(&rel("x")), "({{inputs.parameters.x}} == \"a\\\"b\")");
    let both = WhenExpr::And(
        Box::new(WhenExpr::Not(Box::new(rel("x")))),
        Box::new(WhenExpr::Or(
            Box::new(WhenExpr::Truthy(WhenOp::Bool(true))),
            Box::new(WhenExpr::Truthy(WhenOp::Json { input: s("m"), path: vec![s("k")] })),
        )),
    );
    assert_eq!(
        render_when(&both),
        "(!(({{inputs.parameters.x}} == \"a\\\"b\")) && ((true) || ({{=toJSON(fromJSON(inputs.parameters['m'])['k'])}})))"
    );
}

#[test]
fn a_body_is_scanned() {
    let f = func(
        vec![],
        vec![
            mac("host", vec![text("/etc/app")]),
            mac("secret", vec![text("db"), text("password")]),
            mac("secret_opt", vec![text("db"), text("user")]),
            mac("load_artifact_str", vec![text("model")]),
            mac("save_artifact", vec![text("log"), var("x")]),
            Stmt::Expr {
                expr: Expr::Other {
                    kind: cargo_athena::ast::OtherKind::Match,
                    parts: vec![call("inner", vec![])],
                    stmts: vec![],
                },
                semi: true,
            },
            mac("host", vec![text("/etc/app")]),
        ],
    );
    let b = scan_body(&f);
    assert_eq!(b.host_paths, vec![s("/etc/app")]);
    assert_eq!(
        b.secrets,
        vec![(s("db"), s("password"), false), (s("db"), s("user"), true)]
    );
    assert_eq!(b.in_artifacts, vec![s("model")]);
    assert_eq!(b.out_artifacts, vec![s("log")]);
    assert_eq!(b.callees, vec![s("inner")]);
}

#[test]
fn arguments_have_their_places() {
    let artifact = TypeRef { text: s("Artifact < Model >"), leaf: Some((s("Artifact"), true)) };
    assert!(is_artifact_ty(&artifact));
    assert!(!is_artifact_ty(&ty("String")));
    let f = func(
        vec![
            param("a", ty("String"), None),
            param("m", artifact, None),
            param("node", ty("String"), Some("pod.name")),
        ],
        vec![],
    );
    let sig = signature(&fn_args(&f));
    assert_eq!(sig.inputs, vec![s("a"), s("m"), s("node")]);
    assert_eq!(sig.params, vec![s("a")]);
    assert_eq!(sig.artifacts, vec![s("m")]);
    assert_eq!(sig.argv, vec![s("{{inputs.parameters.a}}"), s("pod.name")]);
    let slots = arg_slots(&fn_args(&f));
    assert!(slots == vec![Slot::Argv(0), Slot::File, Slot::Argv(1)]);
}

#[test]
fn a_command_line_has_a_length() {
    assert!(check_argv("demo-x", 2, 2).is_ok());
    assert!(check_argv("demo-x", 1, 2).is_err());
}

#[test]
fn generic_templates_are_refused() {
    let mut f = func(vec![], vec![]);
    assert!(check_fn_shape(&f, "container").is_ok());
    f.generic = true;
    assert!(check_fn_shape(&f, "container").is_err());
    let f = func(vec![FnParam::Receiver], vec![]);
    assert!(check_fn_shape(&f, "container").is_err());
}

#[test]
fn names_are_made_and_checked() {
    assert_eq!(make_argo_name(&None, "my_app", "run_it"), "my-app-run-it");
    assert_eq!(make_argo_name(&Some(s("given")), "my_app", "run_it"), "given");
    assert!(check_dns1123_name("a-b").is_ok());
    assert!(check_dns1123_name("A").is_err());
    assert!(yaml_ambiguous("no").is_some());
    assert!(yaml_ambiguous("name").is_none());
}

#[test]
fn claims_are_declared() {
    let unit = StructDecl { name: s("Cache"), generic: false, unit: true };
    let mut a = EphemeralArgs {
        name: None,
        size: Some(s("10Gi")),
        access_modes: vec![s("ReadWriteMany")],
        storage_class: None,
    };
    let r = declare_ephemeral(&unit, &a, "my_app").unwrap();
    assert_eq!(r.argo_name, "my-app-cache");
    assert!(r.lifecycle == PvcLifecycle::Ephemeral);
    assert_eq!(r.size, "10Gi");
    assert_eq!(r.access_modes, vec![s("ReadWriteMany")]);
    a.access_modes = vec![s("ReadSometimes")];
    assert!(declare_ephemeral(&unit, &a, "my_app").is_err());
    a.access_modes = vec![];
    assert!(declare_ephemeral(&unit, &a, "my_app").is_err());
    a.size = None;
    assert!(declare_ephemeral(&unit, &a, "my_app").is_err());
    let mut e = ExternalArgs { name: Some(s("data")), claim_name: Some(s("shared")), read_only: true };
    let r = declare_external(&unit, &e, "my_app").unwrap();
    assert_eq!((r.argo_name.as_str(), r.claim_name.as_str(), r.read_only), ("data", "shared", true));
    assert!(r.lifecycle == PvcLifecycle::External);
    e.name = Some(s("a..b"));
    assert!(declare_external(&unit, &e, "my_app").is_err());
    e.name = None;
    e.claim_name = None;
    assert!(declare_external(&unit, &e, "my_app").is_err());
    let tuple = StructDecl { name: s("Cache"), generic: false, unit: false };
    e.claim_name = Some(s("shared"));
    assert!(declare_external(&tuple, &e, "my_app").is_err());
}

#[test]
fn a_fragment_is_known_by_its_name() {
    let mut f = func(vec![], vec![mac("host", vec![text("/etc/app")])]);
    f.name = s("helper");
    let r = declare_fragment(&f, &vec![]).unwrap();
    assert_eq!(r.rust_name, "helper");
    assert_eq!(r.host_paths, vec![s("/etc/app")]);
}

#[test]
fn builders_are_taken_off() {
    let e = method(
        method(call("work", vec![]), "on_exit", vec![call("clean", vec![])]),
        "continue_on",
        vec![var("failed")],
    );
    let p = ghost_parts(&e);
    assert!(p.fallible);
    assert_eq!(p.builders.len(), 2);
    assert_eq!(p.hooks().len(), 1);
    assert!(matches!(p.base, Expr::Call { .. }));
}

#[test]
fn hooks_are_checked_as_they_are_written() {
    let entry = |key: &str, target: Expr| Expr::Assign {
        left: Box::new(text(key)),
        right: Box::new(target),
    };
    let e = method(
        method(
            call("work", vec![]),
            "hook_if",
            vec![entry("a", call("one", vec![])), entry("b", text("no")), entry("c", var("two"))],
        ),
        "on_failure",
        vec![call("three", vec![])],
    );
    let p = ghost_parts(&e);
    assert!(!p.fallible);
    assert!(p.builders[0].entries && !p.builders[1].entries);
    let given: Vec<bool> = p.builders[0].targets.iter().map(|t| t.is_some()).collect();
    assert_eq!(given, vec![true, false, true]);
    let names: Vec<String> = p
        .hooks()
        .iter()
        .map(|h| match h {
            Expr::Call { func, .. } => match &**func {
                Expr::Path(p) => p.text.clone(),
                _ => s("?"),
            },
            Expr::Path(p) => p.text.clone(),
            _ => s("?"),
        })
        .collect();
    assert_eq!(names, vec![s("one"), s("two"), s("three")]);
    let e = method(
        call("work", vec![]),
        "hook_if",
        vec![entry("a", call("one", vec![])), entry("c", call("two", vec![]))],
    );
    let (_, opts) = peel_builders(&e).unwrap();
    let conditions: Vec<String> = opts
        .hooks
        .iter()
        .map(|h| match &h.when {
            HookWhen::Raw(c) => c.to_string(),
            _ => s("?"),
        })
        .collect();
    assert_eq!(conditions, vec![s("a"), s("c")]);
}

#[test]
fn what_is_under_the_builders_keeps_its_brackets() {
    let inner = Expr::Paren { expr: Box::new(call("work", vec![])) };
    let e = Expr::Paren {
        expr: Box::new(method(inner, "continue_on", vec![var("error")])),
    };
    let (base, opts) = peel_builders(&e).unwrap();
    assert!(matches!(base, Expr::Paren { expr } if matches!(&**expr, Expr::Call { .. })));
    assert_eq!(opts.continue_on, Some((true, false)));
    let plain = Expr::Paren { expr: Box::new(call("work", vec![])) };
    let (base, opts) = peel_builders(&plain).unwrap();
    assert!(matches!(base, Expr::Paren { .. }));
    assert!(opts.continue_on.is_none() && opts.hooks.is_empty());
    let other = Expr::Paren { expr: Box::new(method(call("work", vec![]), "await_it", vec![])) };
    let (base, _) = peel_builders(&other).unwrap();
    assert!(matches!(base, Expr::Paren { .. }));
}
