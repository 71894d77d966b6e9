//! Names that Kubernetes takes, and what a body declares and calls.

use cargo_athena::ast::{Expr, FnDecl, Path, Stmt};
use cargo_athena::names::{annotation_key_violation, dns1123_violation, env_var_name_violation};
use cargo_athena::scan::scan_body;

#[test]
fn dns1123_subdomain_shapes() {
    for ok in [
        "a",
        "abc",
        "a-b",
        "a.b",
        "a-1.b-2",
        "0a",
        "x".repeat(63).as_str(),
    ] {
        assert!(dns1123_violation(ok).is_none(), "{ok:?} should be valid");
    }
    // Every label counts, an empty one too.
    for bad in [
        "", ".foo", "a..b", "foo.", "-a", "a-", "a.-b", "A", "a_b", "a b",
    ] {
        assert!(
            dns1123_violation(bad).is_some(),
            "{bad:?} should be rejected"
        );
    }
    assert!(
        dns1123_violation(&"a".repeat(254)).is_some(),
        "253-char cap"
    );
    let long_label = "a".repeat(64);
    assert!(
        dns1123_violation(&long_label).is_some(),
        "63-char label cap"
    );
}

#[test]
fn env_and_annotation_key_shapes() {
    assert!(env_var_name_violation("PATH").is_none());
    assert!(env_var_name_violation("_x.y-z").is_none());
    assert!(env_var_name_violation("9BAD").is_some());
    assert!(env_var_name_violation("BAD KEY").is_some());
    assert!(env_var_name_violation("").is_some());

    assert!(annotation_key_violation("simple").is_none());
    assert!(annotation_key_violation("example.com/role").is_none());
    assert!(annotation_key_violation("cargo.athena/tag").is_none());
    assert!(annotation_key_violation("bad!key").is_some());
    assert!(annotation_key_violation("/name").is_some());
    assert!(annotation_key_violation("UPPER.Prefix/x").is_some());
    assert!(annotation_key_violation("-edge").is_some());
    assert!(annotation_key_violation(&"a".repeat(64)).is_some());
}

fn path(segments: &[&str]) -> Path {
    Path {
        segments: segments.iter().map(|s| s.to_string()).collect(),
        plain: true,
        qualified: false,
        text: segments.join(" :: "),
    }
}

fn call(segments: &[&str]) -> Stmt {
    Stmt::Expr {
        expr: Expr::Call {
            func: Box::new(Expr::Path(path(segments))),
            args: vec![],
            text: format!("{} ()", segments.join(" :: ")),
        },
        semi: true,
    }
}

#[test]
fn scan_records_fragment_callees_qualified_or_bare() {
    // fn c() { bare(); crate::frags::qualified(); a::b::c::deep(); obj.method(); }
    let f = FnDecl {
        name: "c".to_string(),
        is_async: false,
        generic: false,
        params: vec![],
        output: None,
        body: vec![
            call(&["bare"]),
            call(&["crate", "frags", "qualified"]),
            call(&["a", "b", "c", "deep"]),
            Stmt::Expr {
                expr: Expr::MethodCall {
                    receiver: Box::new(Expr::Path(path(&["obj"]))),
                    method: "method".to_string(),
                    args: vec![],
                },
                semi: true,
            },
        ],
    };
    let s = scan_body(&f);
    assert!(s.callees.contains(&"bare".to_string()));
    assert!(
        s.callees.contains(&"qualified".to_string()),
        "qualified callee dropped"
    );
    assert!(
        s.callees.contains(&"deep".to_string()),
        "deep-qualified callee dropped"
    );
    // A method call is not a path-call, so it is never recorded.
    assert!(!s.callees.contains(&"method".to_string()));
}
