//! `cargo athena init`: the files of a new workflow crate.

use crate::answers::{answer_of, answer_or};
use crate::text::{
    alnum, alpha, cat2, cat3, cat5, cat7, chars_of, contains, has_prefix, is_alnum, is_alpha,
    lower, lower_char, occurs, starts_with, whitespace,
};
use vstd::prelude::*;

verus! {

/// `cargo athena init`.
pub struct InitArgs {
    pub path: Option<String>,
    pub name: Option<String>,
    pub bucket: Option<String>,
    pub endpoint: Option<String>,
    pub region: Option<String>,
    pub yes: bool,
}

#[verifier::ext_equal]
pub struct InitArgsView {
    pub path: Option<Seq<char>>,
    pub name: Option<Seq<char>>,
    pub bucket: Option<Seq<char>>,
    pub endpoint: Option<Seq<char>>,
    pub region: Option<Seq<char>>,
    pub yes: bool,
}

impl DeepView for InitArgs {
    type V = InitArgsView;

    open spec fn deep_view(&self) -> InitArgsView {
        InitArgsView {
            path: self.path.deep_view(),
            name: self.name.deep_view(),
            bucket: self.bucket.deep_view(),
            endpoint: self.endpoint.deep_view(),
            region: self.region.deep_view(),
            yes: self.yes,
        }
    }
}

/// The texts of the files.
pub struct Scaffold {
    pub cargo_toml: String,
    pub main_rs: String,
    pub athena_toml: String,
}

#[verifier::ext_equal]
pub struct ScaffoldView {
    pub cargo_toml: Seq<char>,
    pub main_rs: Seq<char>,
    pub athena_toml: Seq<char>,
}

impl DeepView for Scaffold {
    type V = ScaffoldView;

    open spec fn deep_view(&self) -> ScaffoldView {
        ScaffoldView {
            cargo_toml: self.cargo_toml@,
            main_rs: self.main_rs@,
            athena_toml: self.athena_toml@,
        }
    }
}

// ---- the name ------------------------------------------------------------------------
/// What a character of a directory's name becomes in a package's name.
pub open spec fn name_char(c: char) -> Option<char> {
    if is_alnum(c) || c == '-' || c == '_' {
        Some(lower(c))
    } else if whitespace(c) || c == '.' {
        Some('-')
    } else {
        None
    }
}

pub open spec fn name_chars(s: Seq<char>) -> Seq<char>
    decreases s.len(),
{
    if s.len() == 0 {
        Seq::empty()
    } else {
        match name_char(s.last()) {
            Some(c) => name_chars(s.drop_last()).push(c),
            None => name_chars(s.drop_last()),
        }
    }
}

/// A package's name from a directory's. One that does not begin with a letter gets
/// an `a` in front.
pub open spec fn package_name(s: Seq<char>) -> Seq<char> {
    if s.len() == 0 {
        "my-workflow"@
    } else if is_alpha(s[0]) {
        name_chars(s)
    } else {
        seq!['a'] + name_chars(s)
    }
}

/// A package's name from a directory's: `^[a-z][a-z0-9_-]*$`.
pub fn sanitize_pkg_name(s: &str) -> (r: String)
    ensures
        r@ == package_name(s@),
{
    let v: Vec<char> = chars_of(s);
    if v.len() == 0 {
        return "my-workflow".to_owned();
    }
    let mut out: String = String::new();
    let ghost mut head: Seq<char> = Seq::empty();
    if !alpha(v[0]) {
        out.push('a');
        proof {
            head = seq!['a'];
        }
    }
    let mut i: usize = 0;
    proof {
        assert(v@.take(0) =~= Seq::<char>::empty());
        assert(out@ =~= head + name_chars(v@.take(0)));
    }
    while i < v.len()
        invariant
            v@ == s@,
            i <= v@.len(),
            out@ == head + name_chars(v@.take(i as int)),
        decreases v@.len() - i,
    {
        let c: char = v[i];
        proof {
            assert(v@.take(i + 1).drop_last() =~= v@.take(i as int));
            assert(v@.take(i + 1).last() == c);
        }
        let ghost before = name_chars(v@.take(i as int));
        if alnum(c) || c == '-' || c == '_' {
            out.push(lower_char(c));
            proof {
                assert(out@ =~= head + before.push(lower(c)));
            }
        } else if c.is_whitespace() || c == '.' {
            out.push('-');
            proof {
                assert(out@ =~= head + before.push('-'));
            }
        }
        i = i + 1;
    }
    proof {
        assert(v@.take(i as int) =~= v@);
        assert(Seq::<char>::empty() + name_chars(v@) =~= name_chars(v@));
    }
    out
}

/// The name that is proposed: the given one, or one from the directory's name.
pub open spec fn proposed_name(name: Option<Seq<char>>, dir: Option<Seq<char>>) -> Seq<char> {
    match name {
        Some(n) => n,
        None => match dir {
            Some(d) => package_name(d),
            None => "my-workflow"@,
        },
    }
}

/// The name that is proposed for the package.
pub fn default_name(name: &Option<String>, dir: &Option<String>) -> (r: String)
    ensures
        r@ == proposed_name(name.deep_view(), dir.deep_view()),
{
    match name {
        Some(n) => n.clone(),
        None => match dir {
            Some(d) => sanitize_pkg_name(d.as_str()),
            None => "my-workflow".to_owned(),
        },
    }
}

// ---- questions -------------------------------------------------------------------------
/// Whether there are questions at a terminal.
pub open spec fn asks(a: InitArgsView, terminal: bool) -> bool {
    !a.yes && a.bucket is None && a.endpoint is None && a.region is None && terminal
}

impl InitArgs {
    /// Whether there are questions: only at a terminal, and only where none of the
    /// answers was given.
    pub fn interactive(&self, terminal: bool) -> (r: bool)
        ensures
            r == asks(self.deep_view(), terminal),
    {
        !self.yes && self.bucket.is_none() && self.endpoint.is_none() && self.region.is_none()
            && terminal
    }
}

/// What is printed to ask for `label`.
pub fn prompt(label: &str, default_value: &str) -> (r: String)
    ensures
        r@ == "  "@ + label@ + " ["@ + default_value@ + "]: "@,
{
    cat5("  ", label, " [", default_value, "]: ")
}

/// A value that was given, or the answer to its question, or what stands in for it.
pub open spec fn chosen(
    flag: Option<Seq<char>>,
    line: Option<Seq<char>>,
    default_value: Seq<char>,
) -> Seq<char> {
    match flag {
        Some(v) => v,
        None => match line {
            Some(l) => answer_of(l, default_value),
            None => default_value,
        },
    }
}

/// A value that was given, or the answer to its question, or what stands in for it.
pub fn resolve(flag: &Option<String>, line: &Option<String>, default_value: &str) -> (r: String)
    ensures
        r@ == chosen(flag.deep_view(), line.deep_view(), default_value@),
{
    match flag {
        Some(v) => v.clone(),
        None => match line {
            Some(l) => answer_or(l.as_str(), default_value),
            None => default_value.to_owned(),
        },
    }
}

// ---- files -----------------------------------------------------------------------------
pub open spec fn cargo_toml_of(name: Seq<char>, version: Seq<char>) -> Seq<char> {
    "[package]\nname = \""@ + name
        + "\"\nversion = \"0.1.0\"\nedition = \"2024\"\n\n[dependencies]\n# Library-only: pulls just the proc macros + runtime, not the CLI tree.\n# Install the CLI separately with `cargo install cargo-athena`.\ncargo-athena = { version = \""@
        + version + "\", default-features = false }\n"@
}

/// The manifest; it asks for the library of this version.
pub fn render_cargo_toml(name: &str, version: &str) -> (r: String)
    ensures
        r@ == cargo_toml_of(name@, version@),
{
    cat5(
        "[package]\nname = \"",
        name,
        "\"\nversion = \"0.1.0\"\nedition = \"2024\"\n\n[dependencies]\n# Library-only: pulls just the proc macros + runtime, not the CLI tree.\n# Install the CLI separately with `cargo install cargo-athena`.\ncargo-athena = { version = \"",
        version,
        "\", default-features = false }\n",
    )
}

pub const MAIN_RS: &'static str =
    "use cargo_athena::{container, workflow};\n\n#[workflow]\nfn pipeline() {\n    hello(\"world\".to_string());\n}\n\n#[container(image = \"alpine:3.20\")]\nfn hello(name: String) {\n    println!(\"hello, {name}!\");\n}\n\nfn main() {\n    cargo_athena::entrypoint!(pipeline);\n}\n";

pub const INSECURE_LINE: &'static str =
    "insecure = true                                    # plain HTTP (e.g. local MinIO)\n";

pub const ATHENA_TOML_END: &'static str =
    "access_key_secret = { name = \"my-s3-creds\", key = \"accessKey\" }\nsecret_key_secret = { name = \"my-s3-creds\", key = \"secretKey\" }\n\n[bootstrap]\n# Cross-compile targets for the workflow binary. Both architectures\n# fit in one tarball; the in-pod bootstrap picks the right one.\ntargets = [\"x86_64-unknown-linux-musl\", \"aarch64-unknown-linux-musl\"]\n\n# [defaults]\n# package = \"...\"   # so `cargo athena` doesn't need -p in a workspace\n# bin     = \"...\"   # for multi-bin crates\n# namespace        = \"argo\"   # default kube namespace for `submit`\n# service_account  = \"default\"\n";

/// Whether an endpoint is taken for one that is spoken to without encryption.
pub open spec fn is_plain(endpoint: Seq<char>) -> bool {
    !occurs(endpoint, "amazonaws.com"@) && !has_prefix(endpoint, "https://"@)
}

pub open spec fn athena_toml_of(bucket: Seq<char>, endpoint: Seq<char>, region: Seq<char>) -> Seq<
    char,
> {
    "[artifact_repository.s3]\nendpoint = \""@ + endpoint + "\"\nbucket = \""@ + bucket
        + "\"\nregion = \""@ + region + ("\"\n"@ + (if is_plain(endpoint) {
        INSECURE_LINE@
    } else {
        Seq::empty()
    }) + ATHENA_TOML_END@)
}

/// The configuration.
pub fn render_athena_toml(bucket: &str, endpoint: &str, region: &str) -> (r: String)
    ensures
        r@ == athena_toml_of(bucket@, endpoint@, region@),
{
    let plain: bool = !contains(endpoint, "amazonaws.com") && !starts_with(endpoint, "https://");
    let end: String = if plain {
        cat3("\"\n", INSECURE_LINE, ATHENA_TOML_END)
    } else {
        let e: String = cat2("\"\n", ATHENA_TOML_END);
        proof {
            assert(e@ =~= "\"\n"@ + Seq::<char>::empty() + ATHENA_TOML_END@);
        }
        e
    };
    cat7(
        "[artifact_repository.s3]\nendpoint = \"",
        endpoint,
        "\"\nbucket = \"",
        bucket,
        "\"\nregion = \"",
        region,
        end.as_str(),
    )
}

pub open spec fn scaffold_of(
    a: InitArgsView,
    name: Seq<char>,
    bucket: Option<Seq<char>>,
    endpoint: Option<Seq<char>>,
    region: Option<Seq<char>>,
    version: Seq<char>,
) -> ScaffoldView {
    ScaffoldView {
        cargo_toml: cargo_toml_of(name, version),
        main_rs: MAIN_RS@,
        athena_toml: athena_toml_of(
            chosen(a.bucket, bucket, "my-bucket"@),
            chosen(a.endpoint, endpoint, "s3.amazonaws.com"@),
            chosen(a.region, region, "us-east-1"@),
        ),
    }
}

/// The files of a crate called `name`, from what was given and from the answers,
/// where there were questions.
pub fn scaffold(
    a: &InitArgs,
    name: &str,
    bucket: &Option<String>,
    endpoint: &Option<String>,
    region: &Option<String>,
    version: &str,
) -> (r: Scaffold)
    ensures
        r.deep_view() == scaffold_of(
            a.deep_view(),
            name@,
            bucket.deep_view(),
            endpoint.deep_view(),
            region.deep_view(),
            version@,
        ),
{
    let b: String = resolve(&a.bucket, bucket, "my-bucket");
    let e: String = resolve(&a.endpoint, endpoint, "s3.amazonaws.com");
    let g: String = resolve(&a.region, region, "us-east-1");
    Scaffold {
        cargo_toml: render_cargo_toml(name, version),
        main_rs: MAIN_RS.to_owned(),
        athena_toml: render_athena_toml(b.as_str(), e.as_str(), g.as_str()),
    }
}

// ---- messages ----------------------------------------------------------------------------
/// Why nothing is written where there is a crate already.
pub fn existing_crate(dir: &str) -> (r: String)
    ensures
        r@ == dir@
            + " already contains a Cargo.toml.\n`cargo athena init` only scaffolds new crates. Add cargo-athena to an existing crate with `cargo add cargo-athena --no-default-features`."@,
{
    cat2(
        dir,
        " already contains a Cargo.toml.\n`cargo athena init` only scaffolds new crates. Add cargo-athena to an existing crate with `cargo add cargo-athena --no-default-features`.",
    )
}

/// What leads to the crate, in front of a command.
pub open spec fn lead_in(dir: Option<Seq<char>>) -> Seq<char> {
    match dir {
        Some(d) => "cd "@ + d + " && "@,
        None => Seq::empty(),
    }
}

pub open spec fn closing_of(name: Seq<char>, dir: Seq<char>, given: bool) -> Seq<char> {
    let here = lead_in(
        if given {
            Some(dir)
        } else {
            None
        },
    );
    ("\n✓ scaffolded `"@ + name + "` in "@ + dir
        + "\n    Cargo.toml\n    src/main.rs\n    athena.toml\n\nNext:\n"@) + ("  "@ + here
        + "cargo athena emit            # inspect the YAML\n"@) + ("  "@ + here
        + "cargo athena publish         # cross-compile + upload the binary\n"@) + ("  "@ + here
        + "cargo athena submit -y      # run it (source build, root template)\n"@)
        + "\nNeed the publish toolchain? Run `cargo athena doctor` to check.\n"@
}

/// What is said at the end; `given` says whether the directory was named.
pub fn closing(name: &str, dir: &str, given: bool) -> (r: String)
    ensures
        r@ == closing_of(name@, dir@, given),
{
    let here: String = if given {
        cat3("cd ", dir, " && ")
    } else {
        let s: String = String::new();
        proof {
            assert(s@ =~= Seq::<char>::empty());
        }
        s
    };
    let a: String = cat5(
        "\n✓ scaffolded `",
        name,
        "` in ",
        dir,
        "\n    Cargo.toml\n    src/main.rs\n    athena.toml\n\nNext:\n",
    );
    let b: String = cat3("  ", here.as_str(), "cargo athena emit            # inspect the YAML\n");
    let c: String = cat3(
        "  ",
        here.as_str(),
        "cargo athena publish         # cross-compile + upload the binary\n",
    );
    let d: String = cat3(
        "  ",
        here.as_str(),
        "cargo athena submit -y      # run it (source build, root template)\n",
    );
    cat5(
        a.as_str(),
        b.as_str(),
        c.as_str(),
        d.as_str(),
        "\nNeed the publish toolchain? Run `cargo athena doctor` to check.\n",
    )
}

// ---- laws --------------------------------------------------------------------------------
/// Whether Cargo takes a text as the name of a package: a letter, then letters,
/// digits, `-` and `_`.
pub open spec fn is_package_name(s: Seq<char>) -> bool {
    &&& s.len() > 0
    &&& is_alpha(s[0])
    &&& forall|i: int| 0 <= i < s.len() ==> is_alnum(#[trigger] s[i]) || s[i] == '-' || s[i] == '_'
}

proof fn lemma_name_chars(s: Seq<char>)
    ensures
        forall|i: int|
            0 <= i < name_chars(s).len() ==> is_alnum(#[trigger] name_chars(s)[i]) || name_chars(
                s,
            )[i] == '-' || name_chars(s)[i] == '_',
        s.len() > 0 && is_alpha(s[0]) ==> name_chars(s).len() > 0 && name_chars(s)[0] == lower(
            s[0],
        ),
    decreases s.len(),
{
    if s.len() > 0 {
        lemma_name_chars(s.drop_last());
        if s.len() == 1 {
            assert(name_chars(s.drop_last()) =~= Seq::<char>::empty());
        } else {
            assert(s.drop_last()[0] == s[0]);
        }
        let before = name_chars(s.drop_last());
        let n = name_chars(s);
        assert forall|i: int| 0 <= i < n.len() implies is_alnum(#[trigger] n[i]) || n[i] == '-'
            || n[i] == '_' by {
            if i < before.len() {
                assert(n[i] == before[i]);
            } else {
                let c = s.last();
                assert(is_alnum(c) ==> is_alnum(lower(c)));
                assert(c == '-' || c == '_' ==> lower(c) == c);
            }
        }
    }
}

/// Whatever a directory is called, the name that is made from it is one that Cargo
/// takes.
pub proof fn law_package_name(s: Seq<char>)
    ensures
        is_package_name(package_name(s)),
{
    lemma_name_chars(s);
    reveal_strlit("my-workflow");
    let m = "my-workflow"@;
    assert(m[0] == 'm' && m[1] == 'y' && m[2] == '-' && m[3] == 'w' && m[4] == 'o' && m[5] == 'r'
        && m[6] == 'k' && m[7] == 'f' && m[8] == 'l' && m[9] == 'o' && m[10] == 'w');
    let p = package_name(s);
    if s.len() > 0 && !is_alpha(s[0]) {
        assert forall|i: int| 0 <= i < p.len() implies is_alnum(#[trigger] p[i]) || p[i] == '-'
            || p[i] == '_' by {
            if i > 0 {
                assert(p[i] == name_chars(s)[i - 1]);
            }
        }
    }
}

/// Where an answer was given on the command line there are no questions, and the
/// given values are used as they are.
pub proof fn law_given_values_are_used(a: InitArgsView, terminal: bool, line: Option<Seq<char>>, d: Seq<char>)
    ensures
        a.yes || a.bucket is Some || a.endpoint is Some || a.region is Some || !terminal ==> !asks(
            a,
            terminal,
        ),
        a.bucket matches Some(b) ==> chosen(a.bucket, line, d) == b,
        a.endpoint matches Some(b) ==> chosen(a.endpoint, line, d) == b,
        a.region matches Some(b) ==> chosen(a.region, line, d) == b,
{
}

} // verus!
