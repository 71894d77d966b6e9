//! What a template is given on the command line.

use cargo_athena::dyn_args::{
    build_command, classify, encode, extract, extract_pkg, kebab, scalar_for, unwrap1, DynArg,
    Given, Kind, Mode, RawValue, Scalar,
};
use cargo_athena::emulate::{
    check_container, check_params, choose_payload, endpoint_url, expected_kind, host_of, json_kind,
    parse_args, preview, previewable, reportable, run_args, EmulateArgs, FileText, Payload,
};
use cargo_athena::json::{parse_value, Json};
use cargo_athena::rt::{deref_offloaded_arg, in_path, out_path, save_artifact_str, secret_value};
use cargo_athena::run_meta::{
    normalize_ty, ArtifactRef, ContainerRunMeta, ParamRef, S3Ref,
};
use cargo_athena::values::Artifact;

fn s(t: &str) -> String {
    t.to_string()
}

fn list(ts: &[&str]) -> Vec<String> {
    ts.iter().map(|t| s(t)).collect()
}

fn raw(t: &str) -> RawValue {
    RawValue { text: s(t), as_float: Err(s("not a valid number: invalid float literal")) }
}

fn file(path: &str, text: Result<&str, &str>) -> FileText {
    FileText { path: s(path), text: text.map(s).map_err(s) }
}

#[test]
fn types_are_classified() {
    assert!(scalar_for(" String ") == Some(Scalar::Str));
    assert!(scalar_for("&'static str") == Some(Scalar::Str));
    assert!(scalar_for("i128") == Some(Scalar::Int));
    assert!(scalar_for("usize") == Some(Scalar::Uint));
    assert!(scalar_for("f64") == Some(Scalar::Float));
    assert!(scalar_for("bool") == Some(Scalar::Bool));
    assert!(scalar_for("Meta").is_none());
    assert_eq!(unwrap1("Option< i64 >", "Option"), Some(s("i64")));
    assert_eq!(unwrap1("Option<i64", "Option"), None);
    assert!(classify("u8") == Kind::Integer);
    assert!(classify("Option<bool>") == Kind::Bool);
    assert!(classify("Vec<String>") == Kind::VecOf(Scalar::Str));
    assert!(classify("Vec<Meta>") == Kind::Json);
    assert!(classify("Option<Vec<u8>>") == Kind::Json);
}

#[test]
fn parameters_have_options() {
    assert_eq!(kebab("top_n"), "top-n");
    assert_eq!(kebab("topN"), "top-n");
    assert_eq!(kebab("HTTPServer2Go"), "httpserver2-go");
    assert_eq!(kebab("straßeÉtat"), "straße-état");
    let c = build_command("demo-x", &vec![(s("top_n"), s("i64")), (s("meta"), s("Meta"))]);
    assert_eq!(c.name, "cargo athena submit demo-x");
    assert_eq!(c.args.len(), 3 + 13);
    assert_eq!(c.args[0].long, "top-n");
    assert_eq!(c.args[0].value_name, Some(s("INT")));
    assert_eq!(c.args[0].help, "template arg `top_n: i64`");
    assert_eq!(c.args[1].long, "meta");
    assert!(c.args[1].help.contains("use --meta-from-file instead."));
    assert_eq!(c.args[2].id, "__meta_from_file");
    assert_eq!(c.args[2].conflicts, Some(s("meta")));
    assert_eq!(c.args[3].id, "a_arg");
    assert!(c.args[3].mode == Mode::Many);
    assert!(c.args[15].mode == Mode::Flag && c.args[15].short == Some('y'));
    assert!(c.args.iter().filter(|a| a.integer).count() == 1);
    assert_eq!(c.idents[1].from_file, Some(s("__meta_from_file")));
}

#[test]
fn scalars_are_encoded() {
    let text = |k: Scalar, t: &str| encode(k, &raw(t)).map(|v| v.text);
    assert_eq!(text(Scalar::Str, "a\"b"), Ok(s("\"a\\\"b\"")));
    assert_eq!(text(Scalar::Int, "-5"), Ok(s("-5")));
    assert_eq!(text(Scalar::Int, "+5"), Ok(s("5")));
    assert_eq!(
        text(Scalar::Int, "five"),
        Err(s("not a valid integer: invalid digit found in string"))
    );
    assert_eq!(text(Scalar::Uint, "5"), Ok(s("5")));
    assert!(text(Scalar::Uint, "-5").unwrap_err().starts_with("not a valid unsigned integer: "));
    assert_eq!(text(Scalar::Bool, "true"), Ok(s("true")));
    assert!(text(Scalar::Bool, "yes")
        .unwrap_err()
        .starts_with("not a valid bool (use `true` or `false`): "));
    assert!(text(Scalar::Float, "x").unwrap_err().starts_with("not a valid number: "));
    let mut half = Json::of_i64(0);
    half.int64 = false;
    half.uint64 = false;
    half.float = true;
    half.text = s("0.5");
    let v = RawValue { text: s("0.5"), as_float: Ok(half) };
    assert_eq!(encode(Scalar::Float, &v).unwrap().text, "0.5");
}

fn arg(name: &str, ty: &str, from_file: bool) -> DynArg {
    DynArg {
        name: s(name),
        flag: kebab(name),
        from_file: if from_file { Some(format!("__{name}_from_file")) } else { None },
        rust_type: s(ty),
        kind: classify(ty),
    }
}

fn given(a: DynArg, values: &[&str], file: Option<FileText>) -> Given {
    Given { arg: a, values: values.iter().map(|v| raw(v)).collect(), file }
}

#[test]
fn options_win_over_pairs_and_pairs_over_the_file() {
    let f = Some(file("in.json", Ok("{\"a\": 1, \"b\": 2, \"c\": [true]}")));
    let gs = vec![
        given(arg("a", "i64", false), &["7"], None),
        given(arg("tags", "Vec<String>", false), &["x", "y"], None),
        given(arg("meta", "Meta", true), &[], Some(file("m.json", Ok(" {\"k\": 1} ")))),
        given(arg("none", "i64", false), &[], None),
    ];
    let m = extract(&f, &list(&["b=\"z\"", "d=plain text"]), &gs).unwrap();
    let text = |k: &str| m.get(k).map(|v| v.text.clone());
    assert_eq!(text("a"), Some(s("7")));
    assert_eq!(text("b"), Some(s("\"z\"")));
    assert_eq!(text("c"), Some(s("[true]")));
    assert_eq!(text("d"), Some(s("\"plain text\"")));
    assert_eq!(text("tags"), Some(s("[\"x\",\"y\"]")));
    assert_eq!(text("meta"), Some(s("{\"k\":1}")));
    assert_eq!(text("none"), None);
}

#[test]
fn a_parameter_is_set_once() {
    let gs = vec![given(arg("a", "i64", false), &["7"], None)];
    let m = extract(&None, &list(&["a=1"]), &gs).unwrap_err();
    assert_eq!(
        m,
        "argument `a` was set by both `--a` (or `--a-from-file`) and `-a a=…`. Pick one."
    );
}

#[test]
fn what_cannot_be_read_is_refused() {
    let bad = vec![given(arg("n", "i64", false), &["x"], None)];
    assert!(extract(&None, &vec![], &bad).unwrap_err().starts_with("--n (i64): not a valid integer"));
    let bad = vec![given(arg("m", "Meta", true), &["{"], None)];
    assert!(extract(&None, &vec![], &bad)
        .unwrap_err()
        .starts_with("--m (Meta): expected JSON, got \"{\": "));
    let bad = vec![given(arg("m", "Meta", true), &[], Some(file("f", Err("gone"))))];
    assert_eq!(extract(&None, &vec![], &bad).unwrap_err(), "--m-from-file f: gone");
    let bad = vec![given(arg("m", "Meta", true), &[], Some(file("f", Ok("nope"))))];
    assert!(extract(&None, &vec![], &bad)
        .unwrap_err()
        .starts_with("--m-from-file f: not valid JSON: "));
    assert_eq!(
        extract(&Some(file("f", Ok("[1]"))), &vec![], &vec![]).unwrap_err(),
        "--input-file must be a JSON object"
    );
    assert_eq!(
        extract(&Some(file("f", Err("gone"))), &vec![], &vec![]).unwrap_err(),
        "--input-file f: gone"
    );
}

#[test]
fn the_package_is_found_among_the_arguments() {
    let found = |ts: &[&str]| extract_pkg(&list(ts));
    assert_eq!(found(&["-w", "x", "-p", "a", "--bin", "b"]), (Some(s("a")), Some(s("b"))));
    assert_eq!(found(&["--package=a", "--bin=b"]), (Some(s("a")), Some(s("b"))));
    assert_eq!(found(&["-p=a", "--package"]), (None, None));
    assert_eq!(found(&["--bin", "--package", "x"]), (None, Some(s("--package"))));
}

// ---- emulate -----------------------------------------------------------------------------
fn meta(kind: &str) -> ContainerRunMeta {
    ContainerRunMeta {
        name: s("demo-x"),
        package: s("demo"),
        kind: s(kind),
        synthetic: false,
        image: s("alpine"),
        command: list(&["/bin/sh", "-c", "run"]),
        args: vec![],
        work_dir: s("/athena"),
        params: vec![
            ParamRef { name: s("name"), ty: s("String") },
            ParamRef { name: s("count"), ty: s("i64") },
            ParamRef { name: s("note"), ty: s("Option<String>") },
        ],
        binary_artifact: None,
        input_artifacts: vec![],
        output_artifacts: vec![],
        host_paths: list(&["/etc/app"]),
        result_path: None,
    }
}

#[test]
fn values_are_json_where_they_can_be() {
    let v = parse_value("{\"a\": [1, 2]}");
    assert!(v.object);
    assert_eq!(v.text, "{\"a\":[1,2]}");
    let v = parse_value("plain");
    assert!(v.string);
    assert_eq!(v.text, "\"plain\"");
    assert!(parse_value("null").null);
    assert!(parse_value("1.5").float);
    assert!(parse_value("18446744073709551615").uint64);
}

#[test]
fn what_is_given_is_checked() {
    let good = parse_args(&None, &list(&["name=x", "count=3"]), "-p").unwrap();
    assert!(reportable(&meta("container").params, &good));
    let r = check_params(&meta("container"), &good).unwrap();
    assert_eq!(r.len(), 2);
    let bad = parse_args(&None, &list(&["name=5", "cuont=3"]), "-p").unwrap();
    assert!(reportable(&meta("container").params, &bad));
    let m = check_params(&meta("container"), &bad).unwrap_err();
    assert!(m.contains("count"), "{m}");
    assert!(m.contains("cuont"), "{m}");
    assert!(parse_args(&None, &list(&["name"]), "-p").is_err());
}

#[test]
fn kinds_are_told_apart() {
    assert!(expected_kind("i32").is_some());
    assert!(expected_kind("Meta").is_none());
    assert_eq!(json_kind(&parse_value("[]")), "array");
    assert_eq!(json_kind(&parse_value("\"\"")), "string");
    assert!(previewable("short"));
    assert_eq!(preview("short"), "short");
    let long = "x".repeat(200);
    assert!(previewable(&long));
    assert!(preview(&long).ends_with('…'));
}

#[test]
fn only_a_container_is_run_here() {
    assert!(check_container(&meta("container")).is_ok());
    assert!(check_container(&meta("workflow")).unwrap_err().contains("is a #[workflow]"));
}

#[test]
fn the_binary_comes_from_somewhere() {
    let mut a = EmulateArgs {
        template: s("x"),
        package: None,
        bin: None,
        params: vec![],
        input_file: None,
        build: false,
        tarball: None,
        runtime: None,
        skip_artifacts: false,
    };
    let mut m = meta("container");
    assert!(choose_payload(&a, &m).is_err());
    m.binary_artifact = Some(ArtifactRef {
        s3: S3Ref {
            endpoint: s("minio:9000"),
            bucket: s("b"),
            region: s("r"),
            insecure: true,
            key: s("k"),
        },
        path: s("/athena/bin"),
    });
    assert!(matches!(choose_payload(&a, &m), Ok(Payload::Pull(_))));
    a.build = true;
    assert!(matches!(choose_payload(&a, &m), Ok(Payload::Build)));
    a.tarball = Some(s("f"));
    assert!(matches!(choose_payload(&a, &m), Ok(Payload::File(f)) if f == "f"));
    let mut s3 = m.binary_artifact.unwrap().s3;
    assert_eq!(endpoint_url(&s3), Some(s("http://minio:9000")));
    s3.insecure = false;
    assert_eq!(endpoint_url(&s3), Some(s("https://minio:9000")));
    s3.endpoint = s("s3.amazonaws.com");
    assert_eq!(endpoint_url(&s3), None);
}

#[test]
fn the_runtime_is_called() {
    let line = run_args(&meta("container"), "/tmp/w", &vec![]).unwrap();
    let text = line.join(" ");
    assert!(text.contains("/tmp/w"), "{text}");
    assert!(text.contains("/etc/app"), "{text}");
    assert!(text.contains("alpine"), "{text}");
    assert_eq!(host_of("/athena/bin/x", "/athena"), "bin/x");
    assert_eq!(host_of("/other", "/athena"), "other");
}

// ---- in a pod ------------------------------------------------------------------------------
#[test]
fn artifacts_are_files() {
    assert_eq!(in_path("model"), "/athena/artifacts/in/model");
    assert_eq!(out_path("log"), "/athena/artifacts/out/log");
    let w = save_artifact_str("log", "text");
    assert_eq!((w.path.as_str(), w.text.as_str()), ("/athena/artifacts/out/log", "text"));
    assert_eq!(Artifact::new(5).into_inner(), 5);
}

#[test]
fn a_missing_secret_is_named() {
    assert_eq!(secret_value("db", "password", Ok(s("x"))), Ok(s("x")));
    let m = secret_value("db", "password", Err(s("not present"))).unwrap_err();
    assert_eq!(
        m,
        "athena: secret!(\"db\", \"password\") env var `ATHENA_SEC_DB__PASSWORD` missing: not present"
    );
}

#[test]
fn an_argument_may_be_in_a_file() {
    assert_eq!(deref_offloaded_arg("plain", true), None);
    let prefix = cargo_athena::rt::OFFLOADED_PREFIX;
    let moved = format!("@{prefix}/0");
    assert_eq!(deref_offloaded_arg(&moved, true), Some(format!("{prefix}/0")));
    assert_eq!(deref_offloaded_arg(&moved, false), None);
}

#[test]
fn a_type_is_written_tightly() {
    assert_eq!(normalize_ty("Option < Vec < String > >"), "Option<Vec<String>>");
    assert_eq!(normalize_ty("String"), "String");
}
