//! The commands of `cargo athena`.

use cargo_athena::answers::{accepts, answer_or};
use cargo_athena::api::{ObjectMeta, WorkflowSpec, WorkflowTemplate};
use cargo_athena::binsrc::{BinSel, BinarySource, ProbeInfo, ProbeRun};
use cargo_athena::config::{
    ArtifactRepository, AthenaConfig, Bootstrap, Candidate, Defaults, S3Repo, SecretRef,
};
use cargo_athena::doctor::{
    doctor, first_line, render_check, summary, target_list, DoctorArgs, Findings, Found, Outcome,
    Reached,
};
use cargo_athena::feedback::step;
use cargo_athena::gitinfo::{git_state, resolve, BuildTag, GitState, Resolved};
use cargo_athena::init::{
    closing, default_name, render_athena_toml, render_cargo_toml, sanitize_pkg_name, scaffold,
    InitArgs,
};
use cargo_athena::json::Json;
use cargo_athena::ls::{head_cells, kind_accent, ls, row_cells, widths, Accent, KindFilter, LsArgs};
use cargo_athena::maps::TextMap;
use cargo_athena::munge::seal_tag;
use cargo_athena::pkg::PkgSel;
use cargo_athena::publish::{
    artifact_s3, build_env, package_meta, plan_build, preflight_zig, refuse_guess, Package,
};
use cargo_athena::run_meta::{ArtifactRef, ContainerRunMeta, ParamRef, S3Ref};
use cargo_athena::runner::{cargo_run, opt, parse_request, Request};
use cargo_athena::submit::{
    advance, apply_prompt, base_url, binary_to_check, cluster_line, compare, dev_note, find_root,
    missing_binary, namespace_for, node_selector_for, plan_apply, plan_line, plan_prune,
    prune_object, prune_selector, prune_tag, pruned_text, root_resource, run_params, run_prompt,
    server_for, service_account_for, submission, template_path, Action, Event, PrunePlan, Stage,
    SubmitArgs, Why,
};
use cargo_athena::tarball::{pack, unpack, Member, Unpacked};

fn s(t: &str) -> String {
    t.to_string()
}

fn some(t: &str) -> Option<String> {
    Some(s(t))
}

fn list(ts: &[&str]) -> Vec<String> {
    ts.iter().map(|t| s(t)).collect()
}

fn config() -> AthenaConfig {
    let secret = |key: &str| SecretRef { name: s("creds"), key: s(key) };
    AthenaConfig {
        artifact_repository: ArtifactRepository {
            s3: S3Repo {
                endpoint: s("minio:9000"),
                bucket: s("bucket"),
                region: s("us-east-1"),
                insecure: true,
                access_key_secret: secret("accessKey"),
                secret_key_secret: secret("secretKey"),
            },
        },
        bootstrap: Bootstrap::default(),
        defaults: Defaults::default(),
    }
}

fn sel(binary: Option<&str>) -> BinSel {
    BinSel {
        binary: binary.map(s),
        manifest_path: None,
        package: None,
        bin: None,
    }
}

fn meta(package: &str, name: &str, kind: &str) -> ContainerRunMeta {
    ContainerRunMeta {
        name: s(name),
        package: s(package),
        kind: s(kind),
        synthetic: false,
        image: s("alpine"),
        command: vec![],
        args: vec![],
        work_dir: s("/athena"),
        params: vec![],
        binary_artifact: None,
        input_artifacts: vec![],
        output_artifacts: vec![],
        host_paths: vec![],
        result_path: None,
    }
}

// ---- versions ----------------------------------------------------------------------------
fn state(branch: &str, commit: &str, dirty: bool) -> Option<GitState> {
    Some(GitState { branch: s(branch), commit: s(commit), dirty })
}

fn built(r: Resolved) -> BuildTag {
    match r {
        Resolved::Tag(t) => t,
        Resolved::Ask(_, t) => t,
        Resolved::Refused(m) => panic!("{m}"),
    }
}

#[test]
fn a_clean_release_branch_releases() {
    let t = built(resolve("1.2.3", &None, false, false, true, &state("main", "a1b2c3d", false), &None));
    assert_eq!((t.tag.as_str(), t.channel), ("1-2-3", "release"));
    assert_eq!(t.commit, some("a1b2c3d"));
    let t = built(resolve("1.2.3", &None, false, false, true, &None, &None));
    assert_eq!((t.tag.as_str(), t.channel), ("1-2-3", "release"));
    assert_eq!(t.commit, None);
}

#[test]
fn everything_else_is_a_development_build() {
    let main = state("main", "a1b2c3d", false);
    let t = built(resolve("1.2.3", &Some(None), false, false, true, &main, &None));
    assert_eq!((t.tag.as_str(), t.channel), ("dev-a1b2c3d", "dev"));
    let t = built(resolve("1.2.3", &Some(some("My Slot")), false, false, true, &main, &None));
    assert_eq!(t.tag, "dev-my-slot");
    let t = built(resolve("1.2.3", &Some(some("+++")), false, false, true, &None, &None));
    assert_eq!(t.tag, "dev-local");
    let dirty = state("main", "a1b2c3d", true);
    let t = built(resolve("1.2.3", &None, true, false, true, &dirty, &None));
    assert_eq!((t.tag.as_str(), t.dirty), ("dev-a1b2c3d", true));
    assert!(matches!(
        resolve("1.2.3", &None, false, false, true, &dirty, &None),
        Resolved::Refused(_)
    ));
    assert!(matches!(resolve("1.2.3", &None, false, false, false, &dirty, &None), Resolved::Tag(_)));
}

#[test]
fn another_branch_is_asked_about() {
    let st = state("topic", "a1b2c3d", false);
    match resolve("1.2.3", &None, false, false, true, &st, &None) {
        Resolved::Ask(p, t) => {
            assert!(p.contains("(on \"topic\")"), "{p}");
            assert_eq!(t.tag, "dev-a1b2c3d");
        }
        _ => panic!("not asked"),
    }
    assert!(matches!(resolve("1.2.3", &None, false, true, true, &st, &None), Resolved::Tag(_)));
    assert!(matches!(resolve("1.2.3", &None, false, false, false, &st, &None), Resolved::Tag(_)));
}

#[test]
fn a_forced_tag_wins() {
    let dirty = state("topic", "a1b2c3d", true);
    let t = built(resolve("1.2.3", &None, false, false, true, &dirty, &some("2.0.0")));
    assert_eq!((t.tag.as_str(), t.channel, t.dirty), ("2-0-0", "release", true));
    let t = built(resolve("1.2.3", &None, false, false, true, &dirty, &some("dev-x")));
    assert_eq!(t.channel, "dev");
    assert!(matches!(
        resolve("1.2.3", &None, false, false, true, &dirty, &some("")),
        Resolved::Refused(_)
    ));
    for raw in ["+++", "---", "  "] {
        match resolve("1.2.3", &None, false, false, true, &dirty, &some(raw)) {
            Resolved::Refused(m) => {
                assert_eq!(m, format!("invalid tag {raw:?} (normalizes to empty)"))
            }
            _ => panic!("{raw} is no tag"),
        }
    }
}

#[test]
fn a_resolved_tag_is_read_back() {
    for st in [None, state("topic", "a1b2c3d", false)] {
        let t = built(resolve("1.2.3", &None, true, true, true, &st, &None));
        assert_eq!(seal_tag(Some(&t.tag), "9.9.9"), t.tag);
    }
}

#[test]
fn the_state_of_the_tree_is_read() {
    let st = git_state(&some("true\n"), &some("main\n"), &some("a1b2\n"), &some("")).unwrap();
    assert_eq!((st.branch.as_str(), st.commit.as_str(), st.dirty), ("main", "a1b2", false));
    let st = git_state(&some("true"), &None, &None, &some(" M x\n")).unwrap();
    assert_eq!((st.branch.as_str(), st.commit.as_str(), st.dirty), ("", "", true));
    assert!(git_state(&None, &None, &None, &None).is_none());
    assert!(git_state(&some("false"), &None, &None, &None).is_none());
}

// ---- programs ----------------------------------------------------------------------------
#[test]
fn a_binary_is_run_as_it_is() {
    let mut d = Defaults::default();
    d.package = some("p");
    let src = sel(Some("./app")).resolve(&d);
    let l = src.command(false);
    assert_eq!(l.program, "./app");
    assert!(l.args.is_empty());
    assert_eq!(src.label(), "./app");
    assert!(src.cargo_pkg_bin().is_none());
}

#[test]
fn a_crate_is_run_by_cargo() {
    let mut d = Defaults::default();
    d.package = some("p");
    let mut b = sel(None);
    b.manifest_path = some("crates/x");
    b.bin = some("tool");
    let src = b.resolve(&d);
    let l = src.command(true);
    assert_eq!(l.program, "cargo");
    assert_eq!(
        l.args,
        list(&["run", "--manifest-path", "crates/x/Cargo.toml", "--package", "p", "--bin", "tool"])
    );
    assert_eq!(src.command(false).args[2], "crates/x");
    assert_eq!(src.cargo_pkg_bin(), Some((some("p"), some("tool"))));
    let p = PkgSel { package: some("q"), bin: None };
    assert_eq!(p.resolve(&d), (some("q"), None));
}

#[test]
fn a_probe_is_judged() {
    let src = BinarySource::Exe(s("app"));
    let check = |reply: &str| src.check_probe(&ProbeRun::Replied(some(reply)), "cargo-athena", 3);
    assert_eq!(check("{\"kind\": \"cargo-athena\", \"athena_protocol\": 3}"), Ok(()));
    assert_eq!(
        check("{\"kind\": \"other\", \"athena_protocol\": 3}"),
        Err(s("app is not a cargo-athena binary."))
    );
    assert_eq!(check("[1]"), Err(s("app is not a cargo-athena binary.")));
    assert!(check("hello").unwrap_err().contains("unrecognized probe response"));
    assert!(check("{\"kind\": \"cargo-athena\", \"athena_protocol\": 4}")
        .unwrap_err()
        .contains("protocol 4, this CLI speaks 3 (upgrade the CLI"));
    assert!(check("{\"kind\": \"cargo-athena\"}").unwrap_err().contains("protocol 0"));
    assert!(src
        .check_probe(&ProbeRun::Exited(Some(-1)), "k", 1)
        .unwrap_err()
        .contains("(exit Some(-1))"));
    assert!(src.check_probe(&ProbeRun::Replied(None), "k", 1).is_err());
    assert_eq!(
        src.check_probe(&ProbeRun::Failed(s("gone")), "k", 1),
        Err(s("failed to run app: gone"))
    );
    assert!(src.check_output(true, true, "list").is_ok());
    assert_eq!(
        src.check_output(true, false, "template list"),
        Err(s("could not get template list from app"))
    );
}

#[test]
fn the_configuration_is_looked_for() {
    let c = |p: &str, f: bool| Candidate { path: s(p), is_file: f };
    let above = vec![c("/a/b/athena.toml", false), c("/a/athena.toml", true), c("/athena.toml", true)];
    let own = Some(c("/home/athena.toml", true));
    let find = |flag: Option<String>, env: Option<String>, above: &Vec<Candidate>| {
        AthenaConfig::resolve_config_path(&flag, &env, above, &own)
    };
    assert_eq!(find(some("x"), some("y"), &above), some("x"));
    assert_eq!(find(None, some("y"), &above), some("y"));
    assert_eq!(find(None, None, &above), some("/a/athena.toml"));
    assert_eq!(find(None, None, &vec![]), some("/home/athena.toml"));
    assert_eq!(AthenaConfig::resolve_config_path(&None, &None, &vec![], &None), None);
}

// ---- ls ----------------------------------------------------------------------------------
#[test]
fn templates_are_listed_in_order() {
    let mut all = vec![
        meta("demo", "demo-zeta", "workflow"),
        meta("demo", "other", "container"),
        meta("demo", "demo-alpha", "container"),
    ];
    all[2].params = vec![
        ParamRef { name: s("n"), ty: s("i64") },
        ParamRef { name: s("x"), ty: s("") },
    ];
    let mut hidden = meta("demo", "demo-zeta-if0", "workflow");
    hidden.synthetic = true;
    all.push(hidden);
    let args = |kind, include_synthetic| LsArgs { bin: sel(None), kind, include_synthetic };
    let rows = ls(&args(None, false), &all);
    let names: Vec<&str> = rows.iter().map(|r| r.name.as_str()).collect();
    assert_eq!(names, ["alpha", "zeta", "other"]);
    assert_eq!(rows[0].signature, "(n: i64, x)");
    assert_eq!(rows[1].signature, "()");
    assert_eq!(ls(&args(None, true), &all).len(), 4);
    assert_eq!(ls(&args(Some(KindFilter::Workflow), false), &all).len(), 1);
    assert_eq!(ls(&args(Some(KindFilter::Container), true), &all).len(), 2);
    let (pw, nw) = widths(&rows);
    assert_eq!((pw, nw), (7, 5));
    let head = head_cells(pw, nw);
    assert_eq!(
        (head.0.as_str(), head.1.as_str(), head.2.as_str(), head.3.as_str()),
        ("PACKAGE", "NAME ", "KIND     ", "SIGNATURE")
    );
    let cells = row_cells(&rows[1], pw, nw);
    assert_eq!(
        (cells.0.as_str(), cells.1.as_str(), cells.2.as_str()),
        ("demo   ", "zeta ", "workflow ")
    );
    assert!(kind_accent("container") == Accent::Cyan);
    assert!(kind_accent("workflow") == Accent::Magenta);
    assert!(kind_accent("") == Accent::Plain);
}

// ---- submit ------------------------------------------------------------------------------
fn submit_args() -> SubmitArgs {
    SubmitArgs {
        bin: sel(None),
        workflow: None,
        args: vec![],
        input_file: None,
        namespace: None,
        service_account: None,
        node_selector: vec![],
        priority: None,
        argo_server: None,
        insecure: false,
        update: false,
        skip_binary_check: false,
        yes: false,
    }
}

fn info(channel: &str) -> ProbeInfo {
    ProbeInfo {
        package: s("demo"),
        bin: s("app"),
        version_tag: s("dev-x"),
        channel: s(channel),
        default_template: s("demo-root"),
    }
}

fn resource(name: &str, entrypoint: &str) -> WorkflowTemplate {
    let mut m = ObjectMeta::default();
    m.name = s(name);
    let mut spec = WorkflowSpec::default();
    spec.entrypoint = s(entrypoint);
    let mut t = WorkflowTemplate::default();
    t.metadata = Some(m);
    t.spec = Some(spec);
    t
}

fn spec(entrypoint: &str) -> WorkflowSpec {
    let mut spec = WorkflowSpec::default();
    spec.entrypoint = s(entrypoint);
    spec
}

#[test]
fn the_root_is_found_by_either_name() {
    let all = vec![meta("demo", "demo-root", "workflow"), meta("demo", "demo-x", "container")];
    assert_eq!(find_root(&all, &None, &info("dev")).unwrap().name, "demo-root");
    assert_eq!(find_root(&all, &some("x"), &info("dev")).unwrap().name, "demo-x");
    assert_eq!(find_root(&all, &some("demo-x"), &info("dev")).unwrap().name, "demo-x");
    assert_eq!(
        find_root(&all, &some("y"), &info("dev")).unwrap_err(),
        "no template named \"y\" (see `cargo athena ls`)"
    );
    assert!(dev_note(&info("dev")).unwrap().contains("(tag `dev-x`)"));
    assert!(dev_note(&info("release")).is_none());
}

#[test]
fn the_tarball_must_be_there() {
    let mut all = vec![meta("demo", "demo-root", "workflow"), meta("demo", "demo-x", "container")];
    assert!(binary_to_check(&all, false).is_none());
    let s3 = S3Ref {
        endpoint: s("e"),
        bucket: s("b"),
        region: s("r"),
        insecure: false,
        key: s("demo/1/app.tar.gz"),
    };
    all[1].binary_artifact = Some(ArtifactRef { s3, path: s("/athena/bin") });
    assert_eq!(binary_to_check(&all, false).unwrap().s3.key, "demo/1/app.tar.gz");
    assert!(binary_to_check(&all, true).is_none());
    assert!(missing_binary(&binary_to_check(&all, false).unwrap().s3)
        .starts_with("binary tarball not found at s3://b/demo/1/app.tar.gz"));
}

#[test]
fn where_things_go_is_decided() {
    assert_eq!(namespace_for(&some("a"), &some("b"), &some("c")), "a");
    assert_eq!(namespace_for(&None, &some("b"), &some("c")), "b");
    assert_eq!(namespace_for(&None, &some(""), &some("c")), "c");
    assert_eq!(namespace_for(&None, &None, &None), "default");
    assert_eq!(service_account_for(&some("sa"), "default"), "sa");
    assert_eq!(service_account_for(&None, "default"), "default");
    assert_eq!(server_for(&some("x"), &some("y")), some("x"));
    assert_eq!(server_for(&None, &some("y")), some("y"));
    assert_eq!(server_for(&some("  "), &some("y")), None);
    assert_eq!(base_url("argo.example.com/"), "https://argo.example.com");
    assert_eq!(base_url("http://argo:2746//"), "http://argo:2746");
    assert_eq!(template_path("ns", "t"), "/api/v1/workflow-templates/ns/t");
    assert_eq!(
        cluster_line(&some("argo"), "ns"),
        "cluster: Argo Server https://argo (namespace ns)"
    );
    assert_eq!(
        cluster_line(&None, "ns"),
        "cluster: kube API (kubeconfig/in-cluster) (namespace ns)"
    );
}

#[test]
fn only_what_differs_is_applied() {
    let ts = vec![resource("a-1", "a"), resource("b-1", "b"), resource("c-1", "c")];
    let live = vec![None, Some(spec("b")), Some(spec("other"))];
    let plan = plan_apply(&ts, &live, false);
    assert_eq!(plan, vec![(0, Why::Create), (2, Why::Drift)]);
    assert_eq!(plan_line(&ts[0], Why::Create), "  create a-1");
    assert_eq!(plan_line(&ts[2], Why::Drift), "  drift  c-1");
    assert_eq!(plan_apply(&ts, &live, true).len(), 3);
    assert!(compare(&ts[1], &Some(spec("b")), false).is_none());
    assert_eq!(apply_prompt(2, "ns"), "\napply 2 WorkflowTemplate(s) to `ns`?");
}

#[test]
fn a_run_refers_to_the_versioned_resource() {
    let ts = vec![resource("demo-root-1-2-3", "demo-root")];
    let mut vals: TextMap<Json> = TextMap::new();
    vals.insert(s("n"), Json::of_i64(-3));
    vals.insert(s("a"), Json::of_string("x\"y"));
    let mut a = submit_args();
    a.node_selector = list(&["disk=ssd", "zone=a=b"]);
    a.priority = Some(7);
    let w = submission(&a, &ts, "demo-root", &vals, "ns", "sa").unwrap();
    let m = w.metadata.as_ref().unwrap();
    assert_eq!((m.generate_name.as_str(), m.namespace.as_str()), ("demo-root-1-2-3-", "ns"));
    let sp = w.spec.as_ref().unwrap();
    assert_eq!(sp.workflow_template_ref.as_ref().unwrap().name, "demo-root-1-2-3");
    assert_eq!(sp.service_account_name, "sa");
    assert_eq!(sp.priority, Some(7));
    assert_eq!(sp.node_selector.get("disk"), Some(&s("ssd")));
    assert_eq!(sp.node_selector.get("zone"), Some(&s("a=b")));
    let ps = &sp.arguments.as_ref().unwrap().parameters;
    assert_eq!((ps[0].name.as_str(), ps[0].value.as_deref()), ("a", Some("\"x\\\"y\"")));
    assert_eq!((ps[1].name.as_str(), ps[1].value.as_deref()), ("n", Some("-3")));
    let none: TextMap<Json> = TextMap::new();
    assert!(run_params(&none).is_empty());
    let w = submission(&submit_args(), &ts, "demo-root", &none, "ns", "sa").unwrap();
    assert!(w.spec.unwrap().arguments.is_none());
    assert_eq!(
        root_resource(&ts, "demo-other").unwrap_err(),
        "emitted WorkflowTemplate set has no root entrypoint \"demo-other\""
    );
    assert_eq!(
        node_selector_for(&list(&["a=b", "oops"])).unwrap_err(),
        "--node-selector expects k=v, got \"oops\""
    );
    assert!(run_prompt("r", "ns", "sa").contains("as serviceAccount `sa`?"));
}

#[test]
fn nothing_happens_without_a_yes() {
    let (st, a) = advance(Stage::Compared, Event::Plan { applies: true }, false);
    assert!(st == Stage::AskedToApply && a == Action::AskToApply);
    let (end, a) = advance(st, Event::Answer { yes: false }, false);
    assert!(end == Stage::Ended && a == Action::NotApplied);
    let (st, a) = advance(st, Event::Answer { yes: true }, false);
    assert!(st == Stage::Applying && a == Action::Apply);
    let (st, a) = advance(st, Event::Applied, false);
    assert!(st == Stage::AskedToRun && a == Action::AskToRun);
    assert!(advance(st, Event::Answer { yes: false }, false).1 == Action::NotSubmitted);
    let (st, a) = advance(st, Event::Answer { yes: true }, false);
    assert!(st == Stage::Creating && a == Action::Create);
    assert!(advance(st, Event::Created { named: true }, false).1 == Action::Finish);
    assert!(advance(st, Event::Created { named: false }, false).1 == Action::NoName);
    let (_, a) = advance(Stage::Compared, Event::Plan { applies: false }, false);
    assert!(a == Action::AskToRun);
    let (_, a) = advance(Stage::Compared, Event::Plan { applies: true }, true);
    assert!(a == Action::Apply);
    let (_, a) = advance(Stage::Applying, Event::Applied, true);
    assert!(a == Action::Create);
}

#[test]
fn answers_are_read() {
    for yes in ["y", "Y\n", " yes ", "Yes"] {
        assert!(accepts(yes));
    }
    for no in ["", "n", "YES", "yeah"] {
        assert!(!accepts(no));
    }
    assert_eq!(answer_or(" \n", "d"), "d");
    assert_eq!(answer_or(" x\n", "d"), "x");
}

#[test]
fn one_version_is_pruned() {
    assert_eq!(prune_tag("0.6.0"), Ok(s("0-6-0")));
    assert_eq!(prune_tag("0-6-0"), Ok(s("0-6-0")));
    assert_eq!(prune_tag("+"), Err(s("invalid tag \"+\" (normalizes to empty)")));
    assert_eq!(
        prune_selector("demo", "dev-x"),
        "cargo.athena/pkg=demo,cargo.athena/tag=dev-x"
    );
    let s3 = prune_object(&config().artifact_repository.s3, "demo", "dev-x", "app");
    assert_eq!(s3.key, "demo/dev-x/app.tar.gz");
    match plan_prune("demo", "dev-x", "ns", &vec![], true, &s3) {
        PrunePlan::Nothing(m) => assert_eq!(
            m,
            "nothing to prune: no WorkflowTemplates match cargo.athena/pkg=demo,cargo.athena/tag=dev-x."
        ),
        PrunePlan::Ask(_) => panic!("asked"),
    }
    match plan_prune("demo", "dev-x", "ns", &list(&["a", "b"]), false, &s3) {
        PrunePlan::Ask(t) => assert_eq!(
            t,
            "\nprune `demo` @ tag `dev-x` from `ns`:\n  WorkflowTemplate  a\n  WorkflowTemplate  b\n  s3 binary         s3://bucket/demo/dev-x/app.tar.gz\n"
        ),
        PrunePlan::Nothing(_) => panic!("nothing"),
    }
    match plan_prune("demo", "dev-x", "ns", &vec![], false, &s3) {
        PrunePlan::Ask(t) => assert!(t.contains("(no matching WorkflowTemplates)")),
        PrunePlan::Nothing(_) => panic!("nothing"),
    }
    assert_eq!(
        pruned_text(2, false, "demo", "dev-x"),
        "pruned 2 WorkflowTemplate(s) + the S3 binary for `demo` @ `dev-x`."
    );
    assert_eq!(
        pruned_text(0, true, "demo", "dev-x"),
        "pruned 0 WorkflowTemplate(s) for `demo` @ `dev-x`."
    );
}

// ---- build -------------------------------------------------------------------------------
#[test]
fn a_build_is_planned() {
    let tag = BuildTag { tag: s("1-2-3"), channel: "release", commit: some("a1b2"), dirty: true };
    assert_eq!(
        build_env(&tag),
        vec![
            (s("ATHENA_VERSION_TAG"), s("1-2-3")),
            (s("ATHENA_GIT_COMMIT"), s("a1b2")),
            (s("ATHENA_GIT_DIRTY"), s("true")),
        ]
    );
    let p = Package { name: s("demo"), version: s("1.2.3") };
    let plan = plan_build(&config(), p, &None, &vec![], tag);
    assert_eq!(plan.bin, "demo");
    assert_eq!(plan.targets.len(), 2);
    assert_eq!(plan.s3.key, "demo/1-2-3/demo.tar.gz");
    assert_eq!(plan.tarball, "target/athena/demo.tar.gz");
    assert_eq!(
        plan.dest,
        "s3://bucket/demo/1-2-3/demo.tar.gz (endpoint minio:9000)"
    );
    assert_eq!(
        plan.announce(),
        "crate=demo version=1.2.3 bin=demo\ntag=1-2-3 channel=release\ntargets: x86_64-unknown-linux-musl, aarch64-unknown-linux-musl\ndestination: s3://bucket/demo/1-2-3/demo.tar.gz (endpoint minio:9000)"
    );
    assert!(plan.announce_upload().contains("\nupload key: demo/1-2-3/demo.tar.gz\n"));
    assert_eq!(
        plan.compile_args("t"),
        list(&["zigbuild", "--release", "--target", "t", "-p", "demo", "--bin", "demo"])
    );
    assert_eq!(plan.built_file("t"), "target/t/release/demo");
    assert_eq!(
        plan.entries("stage")[0],
        (s("stage/app-x86_64-unknown-linux-musl"), s("app-x86_64-unknown-linux-musl"))
    );
    let (s3, dest) = artifact_s3(&config(), "demo", "dev-x", "app");
    assert_eq!(s3.key, "demo/dev-x/app.tar.gz");
    assert!(dest.ends_with("(endpoint minio:9000)"));
}

#[test]
fn a_package_is_chosen() {
    let ps = || {
        vec![
            Package { name: s("a"), version: s("1") },
            Package { name: s("b"), version: s("2") },
        ]
    };
    assert_eq!(package_meta(&ps(), &some("b")).ok().unwrap().version, "2");
    match package_meta(&ps(), &some("c")) {
        Err(m) => assert_eq!(m, "package \"c\" not found"),
        Ok(_) => panic!("found"),
    }
    match package_meta(&ps(), &None) {
        Err(m) => assert_eq!(m, "multiple packages; pass --package"),
        Ok(_) => panic!("found"),
    }
    let one = vec![Package { name: s("a"), version: s("1") }];
    assert_eq!(package_meta(&one, &None).ok().unwrap().name, "a");
}

#[test]
fn a_guessed_tag_is_not_uploaded() {
    let dev = BuildTag { tag: s("dev-a1"), channel: "dev", commit: None, dirty: false };
    let release = BuildTag { tag: s("1-0-0"), channel: "release", commit: None, dirty: false };
    assert!(refuse_guess(&dev, false, &None).unwrap().contains("guess `dev-a1`"));
    assert!(refuse_guess(&dev, false, &some("")).is_some());
    assert!(refuse_guess(&dev, true, &None).is_none());
    assert!(refuse_guess(&dev, false, &some("dev-a1")).is_none());
    assert!(refuse_guess(&release, false, &None).is_none());
    assert!(preflight_zig(true, true).is_none());
    let m = preflight_zig(false, true).unwrap();
    assert!(m.contains("cargo install cargo-zigbuild") && !m.contains("pip install ziglang"));
    assert!(preflight_zig(true, false).unwrap().contains("pip install ziglang"));
}

#[test]
fn an_archive_has_one_directory_at_its_top() {
    let entries = vec![(s("/t/b"), s("app-b")), (s("/t/a"), s("app-a"))];
    let packed = pack(&entries);
    assert_eq!(packed.len(), 3);
    assert!(
        matches!(&packed[0], Member::Directory { name, mode } if name == "bin/" && *mode == 0o755)
    );
    assert!(matches!(&packed[1], Member::File { source, name }
        if source == "/t/a" && name == "bin/app-a"));
    assert!(matches!(&packed[2], Member::File { source, name }
        if source == "/t/b" && name == "bin/app-b"));
    assert_eq!(pack(&vec![]).len(), 1);
    assert!(matches!(unpack(&list(&["bin"])), Unpacked::Entry(e) if e == "bin"));
    assert!(matches!(unpack(&list(&["a", "b"])), Unpacked::Directory));
    assert!(matches!(unpack(&vec![]), Unpacked::Directory));
}

// ---- init --------------------------------------------------------------------------------
#[test]
fn a_directory_gives_a_package_its_name() {
    assert_eq!(sanitize_pkg_name("My App.v2"), "my-app-v2");
    assert_eq!(sanitize_pkg_name("1st"), "a1st");
    assert_eq!(sanitize_pkg_name("_x"), "a_x");
    assert_eq!(sanitize_pkg_name("é"), "a");
    assert_eq!(sanitize_pkg_name(""), "my-workflow");
    assert_eq!(default_name(&some("N"), &some("d")), "N");
    assert_eq!(default_name(&None, &some("D d")), "d-d");
    assert_eq!(default_name(&None, &None), "my-workflow");
}

#[test]
fn a_crate_is_scaffolded() {
    let mut a = InitArgs {
        path: None,
        name: None,
        bucket: some("b"),
        endpoint: None,
        region: None,
        yes: false,
    };
    assert!(!a.interactive(true));
    let f = scaffold(&a, "demo", &None, &some("minio:9000\n"), &None, "0.6.0");
    assert!(f.cargo_toml.contains("name = \"demo\""));
    assert!(f.cargo_toml.contains("cargo-athena = { version = \"0.6.0\", default-features = false }"));
    assert!(f.main_rs.contains("cargo_athena::entrypoint!(pipeline);"));
    assert!(f.athena_toml.contains("bucket = \"b\""));
    assert!(f.athena_toml.contains("endpoint = \"minio:9000\""));
    assert!(f.athena_toml.contains("\ninsecure = true"));
    a.bucket = None;
    assert!(a.interactive(true));
    assert!(!a.interactive(false));
    a.yes = true;
    assert!(!a.interactive(true));
    assert!(!render_athena_toml("b", "s3.amazonaws.com", "r").contains("insecure"));
    assert!(!render_athena_toml("b", "https://minio", "r").contains("insecure"));
    assert!(render_cargo_toml("x", "1").starts_with("[package]\nname = \"x\"\n"));
    let end = closing("demo", "/d", true);
    assert!(end.contains("✓ scaffolded `demo` in /d\n"));
    assert!(end.contains("  cd /d && cargo athena emit"));
    assert!(closing("demo", "/d", false).contains("\n  cargo athena emit"));
}

// ---- doctor ------------------------------------------------------------------------------
fn findings() -> Findings {
    Findings {
        config: Some(Found { path: s("athena.toml"), config: config() }),
        zigbuild: some("cargo-zigbuild 0.19"),
        zig: some("0.13.0"),
        targets: Some(list(&["x86_64-unknown-linux-musl", "aarch64-unknown-linux-musl"])),
        credentials: true,
        s3: None,
    }
}

#[test]
fn all_is_well() {
    let cs = doctor(&DoctorArgs { check_s3: false }, &findings());
    assert_eq!(cs.len(), 6);
    assert_eq!(summary(&cs), (s("All 6 checks passed."), 0));
    assert_eq!(
        render_check(&cs[0]),
        format!("  {:.<36} ✓ loaded athena.toml", "athena.toml")
    );
}

#[test]
fn what_is_missing_is_told() {
    let mut f = findings();
    f.zig = None;
    f.targets = Some(list(&["x86_64-unknown-linux-musl"]));
    f.credentials = false;
    f.s3 = Some(Reached::No(s("refused")));
    let cs = doctor(&DoctorArgs { check_s3: true }, &f);
    let failed: Vec<&str> = cs
        .iter()
        .filter(|c| c.outcome == Outcome::Failed)
        .map(|c| c.name.as_str())
        .collect();
    assert_eq!(failed, ["zig", "rustup target", "S3 reachable"]);
    assert!(cs.iter().all(|c| c.fix.is_some() == (c.outcome == Outcome::Failed)));
    assert_eq!(
        summary(&cs),
        (s("3 of 7 passed, 3 failed, 1 warning(s) - fix the above to publish."), 1)
    );
    let lines = render_check(&cs[4]);
    assert_eq!(
        lines,
        format!(
            "  {:.<36} ✗ aarch64-unknown-linux-musl not installed\n  {:>36}      fix: rustup target add aarch64-unknown-linux-musl",
            "rustup target", ""
        )
    );
}

#[test]
fn warnings_are_no_failures() {
    let mut f = findings();
    f.targets = None;
    f.config = None;
    let cs = doctor(&DoctorArgs { check_s3: true }, &f);
    assert_eq!(summary(&cs).1, 1);
    let mut f = findings();
    f.targets = None;
    f.s3 = Some(Reached::Yes);
    let cs = doctor(&DoctorArgs { check_s3: true }, &f);
    assert_eq!(
        summary(&cs),
        (s("5 of 6 passed, 1 warning(s) - okay, but read above."), 0)
    );
    assert_eq!(cs[5].detail, "bucket (minio:9000)");
}

#[test]
fn what_tools_print_is_read() {
    assert_eq!(first_line("\n 0.13.0 \r\nmore"), "0.13.0");
    assert_eq!(first_line(""), "");
    assert_eq!(target_list("a\r\n\n b \n"), list(&["a", "b"]));
}

// ---- feedback ----------------------------------------------------------------------------
#[test]
fn a_step_ends_once() {
    let mut st = step("Packing");
    assert_eq!(st.announce(), "→ Packing");
    assert_eq!(st.abandon("0.5"), some("✗ Packing (0.5s)"));
    assert_eq!(st.finish("1.2"), "✓ Packing (1.2s)");
    assert_eq!(st.abandon("1.3"), None);
}

// ---- the small driver ----------------------------------------------------------------------
#[test]
fn options_stand_before_their_values() {
    let args = list(&["--bin", "a", "--bin", "b", "--out"]);
    assert_eq!(opt(&args, "--bin"), some("a"));
    assert_eq!(opt(&args, "--out"), None);
    assert_eq!(opt(&args, "--package"), None);
    assert_eq!(cargo_run(&args), list(&["run", "--quiet", "--bin", "a"]));
}

#[test]
fn the_driver_knows_two_requests() {
    match parse_request(&list(&["athena", "build", "--package", "p", "--out", "f"])) {
        Ok(Request::Build { cargo, out }) => {
            assert_eq!(cargo, list(&["run", "--quiet", "--package", "p"]));
            assert_eq!(out, some("f"));
        }
        _ => panic!("no build"),
    }
    match parse_request(&list(&["run", "--template", "t", "--input", "{}"])) {
        Ok(Request::Run { template, input, .. }) => {
            assert_eq!((template.as_str(), input), ("t", some("{}")));
        }
        _ => panic!("no run"),
    }
    match parse_request(&list(&["run"])) {
        Err(m) => assert_eq!(m, "--template is required"),
        Ok(_) => panic!("accepted"),
    }
    assert!(matches!(parse_request(&vec![]), Ok(Request::Usage)));
    assert!(matches!(parse_request(&list(&["athena"])), Ok(Request::Usage)));
    assert!(matches!(parse_request(&list(&["fly"])), Ok(Request::Usage)));
}
