//! Names that are derived from other names.

use cargo_athena::munge::{
    binary_key, channel_of, fnv_1a_64_hex, host_mount_path, host_volume_name, kebab, seal_tag,
    secret_env_name, version_tag, ATHENA_MOUNTS_DIR,
};

#[test]
fn fnv_pins_known_value() {
    assert_eq!(fnv_1a_64_hex("/var/lib"), "5b8d11771a6f946b");
}

#[test]
fn fnv_no_canonicalization() {
    assert_ne!(fnv_1a_64_hex("/var/lib"), fnv_1a_64_hex("//var/lib"));
    assert_ne!(fnv_1a_64_hex("/var/lib"), fnv_1a_64_hex("/var/lib/"));
    assert_ne!(fnv_1a_64_hex("/var/lib"), fnv_1a_64_hex("/var//lib"));
}

#[test]
fn fnv_hex_is_16_chars() {
    for input in ["", "/", "x", "/very/deep/nested/path/that/keeps/going"] {
        assert_eq!(fnv_1a_64_hex(input).len(), 16);
    }
}

#[test]
fn host_volume_name_fits_dns_1123() {
    for path in [
        "/",
        "/etc/myapp",
        "/very/deeply/nested/path/that/keeps/going/forever/and/ever/and/ever",
        "/has spaces and weird chars: !@#$%",
    ] {
        let n = host_volume_name(path);
        assert!(n.len() <= 63, "{n:?} exceeds DNS-1123 label limit");
        assert_eq!(n.len(), 21); // host- + 16 hex
        assert!(n.starts_with("host-"));
        assert!(n.chars().next().unwrap().is_ascii_alphabetic());
        assert!(
            n.chars().all(|c| c.is_ascii_alphanumeric() || c == '-'),
            "{n:?} contains non-DNS-1123 chars"
        );
    }
}

#[test]
fn munge_host_mount_path_agrees_with_volume_name_suffix() {
    for path in ["/", "/etc/myapp", "/var/lib"] {
        let v = host_volume_name(path);
        let m = host_mount_path(path);
        let suffix = v.strip_prefix("host-").unwrap();
        assert_eq!(
            format!("{ATHENA_MOUNTS_DIR}/{suffix}"),
            m,
            "host-{path} volume + mount disagree on hash suffix"
        );
    }
}

#[test]
fn munge_kebab_lowercases_and_hyphenates() {
    assert_eq!(kebab("run_a_container"), "run-a-container");
    assert_eq!(kebab("RunFoo"), "runfoo");
}

#[test]
fn munge_kebab_preserves_digits() {
    assert_eq!(kebab("fetch2"), "fetch2");
    assert_eq!(kebab("step_1_of_3"), "step-1-of-3");
    assert_eq!(kebab("v1_handler"), "v1-handler");
}

#[test]
fn munge_kebab_trims_leading_and_trailing_underscores() {
    assert_eq!(kebab("_unused"), "unused");
    assert_eq!(kebab("foo_"), "foo");
}

#[test]
fn munge_kebab_keeps_internal_double_underscore() {
    assert_eq!(kebab("inner__bar"), "inner--bar");
}

#[test]
fn version_tag_pins_known_values() {
    assert_eq!(version_tag("1.2.3"), "1-2-3");
    assert_eq!(version_tag("0.0.0"), "0-0-0");
    assert_eq!(version_tag("1.0.0-rc.1+build"), "1-0-0-rc-1-build");
    assert_eq!(version_tag("dev-foo"), "dev-foo");
    assert_eq!(version_tag("dev-a1b2c3d"), "dev-a1b2c3d");
}

#[test]
fn channel_of_keys_off_dev_prefix() {
    assert_eq!(channel_of("dev-foo"), "dev");
    assert_eq!(channel_of("dev-a1b2c3d"), "dev");
    assert_eq!(channel_of("1-2-3"), "release");
    assert_eq!(channel_of("0-0-0"), "release");
}

#[test]
fn seal_tag_normalizes_and_falls_back() {
    assert_eq!(seal_tag(Some("dev-foo"), "9.9.9"), "dev-foo");
    assert_eq!(seal_tag(Some("1.2.3"), "9.9.9"), "1-2-3");
    assert_eq!(seal_tag(Some(""), "1.2.3"), "1-2-3");
    assert_eq!(seal_tag(Some("+++"), "1.2.3"), "1-2-3");
    assert_eq!(seal_tag(None, "1.2.3"), "1-2-3");
}

#[test]
fn binary_key_pins_the_layout() {
    assert_eq!(
        binary_key("myapp", "1-2-3", "app"),
        "myapp/1-2-3/app.tar.gz"
    );
    assert_eq!(
        binary_key("myapp", "dev-foo", "app"),
        "myapp/dev-foo/app.tar.gz"
    );
}

#[test]
fn version_tag_is_dns_1123_safe() {
    for raw in ["1.2.3", "1.0.0-rc.1+build.5", "dev-Foo_Bar", "  weird +.+ "] {
        let t = version_tag(raw);
        assert!(!t.is_empty(), "{raw:?} -> empty tag");
        assert!(
            t.chars()
                .all(|c| c.is_ascii_lowercase() || c.is_ascii_digit() || c == '-'),
            "{t:?} contains non-DNS-1123 chars"
        );
        assert!(!t.starts_with('-') && !t.ends_with('-'), "{t:?} edge dash");
        assert!(!t.contains("--"), "{t:?} has an uncollapsed run");
    }
}

#[test]
fn secret_env_name_uppercases_and_separates() {
    assert_eq!(
        secret_env_name("github-creds", "token"),
        "ATHENA_SEC_GITHUB_CREDS__TOKEN"
    );
    assert_eq!(
        secret_env_name("my.secret-name", "api.key"),
        "ATHENA_SEC_MY_SECRET_NAME__API_KEY"
    );
}

#[test]
fn munge_secret_env_name_is_valid_posix_env_var() {
    let valid_env = |s: &str| {
        let mut cs = s.chars();
        cs.next()
            .is_some_and(|c| c.is_ascii_alphabetic() || c == '_')
            && cs.all(|c| c.is_ascii_alphanumeric() || c == '_')
    };
    for (name, key) in [
        ("foo", "bar"),
        ("my-secret", "db.password"),
        ("name with spaces", "key/with/slashes"),
        ("-leading-dash", "trailing.dot."),
        ("123-numeric-start", "ok"),
    ] {
        let env = secret_env_name(name, key);
        assert!(valid_env(&env), "{env} is not a valid POSIX env var");
    }
}

#[test]
fn lib_kebab_lowercases_and_hyphenates() {
    assert_eq!(kebab("run_a_container"), "run-a-container");
    assert_eq!(kebab("RunFoo"), "runfoo");
}

#[test]
fn lib_kebab_preserves_digits() {
    assert_eq!(kebab("fetch2"), "fetch2");
    assert_eq!(kebab("step_1_of_3"), "step-1-of-3");
    assert_eq!(kebab("v1_handler"), "v1-handler");
}

#[test]
fn lib_kebab_trims_leading_and_trailing_underscores() {
    assert_eq!(kebab("_unused"), "unused");
    assert_eq!(kebab("foo_"), "foo");
    assert_eq!(kebab("_wrapped_"), "wrapped");
    assert_eq!(kebab("__double_"), "double");
}

#[test]
fn lib_kebab_keeps_internal_double_underscore() {
    assert_eq!(kebab("foo__bar"), "foo--bar");
    assert_eq!(kebab("a___b"), "a---b");
}

#[test]
fn munge_is_deterministic_16_hex() {
    let m = fnv_1a_64_hex("/var/lib");
    assert_eq!(m.len(), 16);
    assert!(
        m.chars()
            .all(|c| c.is_ascii_hexdigit() && !c.is_ascii_uppercase())
    );
    assert_eq!(m, fnv_1a_64_hex("/var/lib"));
}

#[test]
fn munge_known_value_pins_algorithm() {
    assert_eq!(fnv_1a_64_hex("/var/lib"), "5b8d11771a6f946b");
}

#[test]
fn distinct_literals_produce_distinct_volumes() {
    assert_ne!(fnv_1a_64_hex("/var/lib"), fnv_1a_64_hex("//var/lib"));
    assert_ne!(fnv_1a_64_hex("/var/lib"), fnv_1a_64_hex("/var/lib/"));
    assert_ne!(fnv_1a_64_hex("/var/lib"), fnv_1a_64_hex("/var//lib"));
}

#[test]
fn volume_name_fits_dns_1123() {
    for path in [
        "/",
        "/etc/myapp",
        "/very/deeply/nested/path/that/keeps/going/forever/and/ever/and/ever",
        "/has spaces and weird chars: !@#$%",
    ] {
        let n = host_volume_name(path);
        assert!(n.len() <= 63, "{n:?} exceeds DNS-1123 label limit");
        assert_eq!(n.len(), 21); // host- + 16 hex
        assert!(n.starts_with("host-"));
        assert!(n.chars().next().unwrap().is_ascii_alphabetic());
        assert!(
            n.chars().all(|c| c.is_ascii_alphanumeric() || c == '-'),
            "{n:?} contains non-DNS-1123 chars"
        );
    }
}

#[test]
fn lib_host_mount_path_agrees_with_volume_name_suffix() {
    for path in [
        "/etc/myapp",
        "/var/lib/extra",
        "/srv/123/data",
        "/var/log/app.1",
        "/",
        "//double-slash",
    ] {
        let v = host_volume_name(path);
        let m = host_mount_path(path);
        let suffix = v.strip_prefix("host-").unwrap();
        assert_eq!(
            m,
            format!("{ATHENA_MOUNTS_DIR}/{suffix}"),
            "path {path:?} produced mismatched volume + mount"
        );
    }
}

#[test]
fn secret_env_name_munges_consistently() {
    assert_eq!(
        secret_env_name("my-secret", "db.password"),
        "ATHENA_SEC_MY_SECRET__DB_PASSWORD",
    );
    assert_eq!(secret_env_name("simple", "key"), "ATHENA_SEC_SIMPLE__KEY",);
    assert_eq!(
        secret_env_name("API_v2", "TOKEN_1"),
        "ATHENA_SEC_API_V2__TOKEN_1",
    );
}

#[test]
fn lib_secret_env_name_is_valid_posix_env_var() {
    let valid_env = |s: &str| {
        let mut cs = s.chars();
        cs.next()
            .is_some_and(|c| c.is_ascii_alphabetic() || c == '_')
            && cs.all(|c| c.is_ascii_alphanumeric() || c == '_')
    };
    for (name, key) in [
        ("foo", "bar"),
        ("my-secret", "db.password"),
        ("name with spaces", "key/with/slashes"),
        ("-leading-dash", "trailing.dot."),
        ("123-numeric-start", "ok"),
    ] {
        let env = secret_env_name(name, key);
        assert!(valid_env(&env), "{env} is not a valid POSIX env var");
    }
}
