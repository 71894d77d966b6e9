//! What the smaller commands promise: listing, checking, configuring, starting a
//! crate, and running a body.

use crate::answers::is_yes;
use crate::config::{config_path, first_file, CandidateView};
use crate::doctor::{checks_of, target_check, CheckView, FindingsView, Outcome, ReachedView};
use crate::init::{athena_toml_of, cargo_toml_of, chosen, is_plain, proposed_name};
use crate::ls::{row_of, table_of, KindFilter, RowView};
use crate::munge::{in_artifact, out_artifact};
use crate::rt::below;
use crate::run_meta::ContainerRunMetaView;
use crate::runner::{cargo_args_of, request_of, text_behind, RequestView};
use crate::text::{has_prefix, is_alnum, is_space, is_upper, occurs, stands_at, trim_by};
use vstd::prelude::*;

verus! {

// ---- listing -----------------------------------------------------------------------------
/// Whether a template is to be shown: it is of the kind that is asked for, where one
/// is, and stands for an `if` only where those are asked for too.
pub open spec fn shown(
    m: ContainerRunMetaView,
    kind: Option<KindFilter>,
    include_synthetic: bool,
) -> bool {
    &&& m.synthetic ==> include_synthetic
    &&& kind == Some(KindFilter::Container) ==> m.kind == "container"@
    &&& kind == Some(KindFilter::Workflow) ==> m.kind == "workflow"@
}

/// A template has a row exactly where it is to be shown; the row has its name, its
/// package and its kind.
pub proof fn law_what_is_listed(
    all: Seq<ContainerRunMetaView>,
    kind: Option<KindFilter>,
    include_synthetic: bool,
    i: int,
    k: int,
)
    ensures
        0 <= i < all.len() && shown(all[i], kind, include_synthetic) ==> table_of(
            all,
            kind,
            include_synthetic,
        ).contains(row_of(all[i])),
        0 <= k < table_of(all, kind, include_synthetic).len() ==> exists|j: int|
            0 <= j < all.len() && shown(#[trigger] all[j], kind, include_synthetic) && tells_of(
                table_of(all, kind, include_synthetic)[k],
                all[j],
            ),
        0 <= i < all.len() ==> tells_of(row_of(all[i]), all[i]),
{
    let t = table_of(all, kind, include_synthetic);
    if 0 <= i < all.len() {
        crate::ls::law_every_listed_template_has_a_row(
            all,
            kind,
            include_synthetic,
            row_of(all[i]),
        );
        if shown(all[i], kind, include_synthetic) {
            assert(crate::ls::is_listed(all[i], kind, include_synthetic));
        }
    }
    if 0 <= k < t.len() {
        crate::ls::law_every_listed_template_has_a_row(all, kind, include_synthetic, t[k]);
        assert(t.contains(t[k]));
        let j = choose|j: int|
            0 <= j < all.len() && crate::ls::is_listed(#[trigger] all[j], kind, include_synthetic)
                && t[k] == row_of(all[j]);
        assert(shown(all[j], kind, include_synthetic));
        lemma_row(all[j]);
    }
    if 0 <= i < all.len() {
        lemma_row(all[i]);
    }
}

/// Whether a row tells of a template: by its full name, its package, its kind, and
/// the rest of its name behind the package.
pub open spec fn tells_of(r: RowView, m: ContainerRunMetaView) -> bool {
    &&& r.full == m.name
    &&& r.package == m.package
    &&& r.kind == m.kind
    &&& has_prefix(m.name, m.package + "-"@) ==> m.name == m.package + "-"@ + r.name
    &&& !has_prefix(m.name, m.package + "-"@) ==> r.name == m.name
    &&& m.params.len() == 0 ==> r.signature == "()"@
}

proof fn lemma_row(m: ContainerRunMetaView)
    ensures
        tells_of(row_of(m), m),
{
    let p = m.package + "-"@;
    if has_prefix(m.name, p) {
        assert(m.name =~= p + m.name.subrange(p.len() as int, m.name.len() as int)) by {
            assert(m.name.subrange(0, p.len() as int) =~= p);
        }
    }
    if m.params.len() == 0 {
        reveal_strlit("(");
        reveal_strlit(")");
        reveal_strlit("()");
        let t = crate::emulate::param_texts(m.params);
        assert(crate::text::joined(t, ", "@) =~= Seq::<char>::empty());
        assert(row_of(m).signature =~= "()"@);
    }
}

// ---- checking ------------------------------------------------------------------------------
/// Whether the checks hold one with this name and outcome.
pub open spec fn has_check(cs: Seq<CheckView>, name: Seq<char>, o: Outcome) -> bool {
    exists|i: int| 0 <= i < cs.len() && (#[trigger] cs[i]).name == name && cs[i].outcome == o
}

/// What is missing fails, and what is there passes: the configuration, the two
/// tools, and each target; credentials that are missing are only warned of. The
/// bucket is tried only where that is asked for.
pub proof fn law_what_is_checked(check_s3: bool, f: FindingsView, i: int)
    ensures
        ({
            let cs = checks_of(check_s3, f);
            &&& has_check(
                cs,
                "athena.toml"@,
                if f.config is Some {
                    Outcome::Passed
                } else {
                    Outcome::Failed
                },
            )
            &&& has_check(
                cs,
                "cargo-zigbuild"@,
                if f.zigbuild is Some {
                    Outcome::Passed
                } else {
                    Outcome::Failed
                },
            )
            &&& has_check(
                cs,
                "zig"@,
                if f.zig is Some {
                    Outcome::Passed
                } else {
                    Outcome::Failed
                },
            )
            &&& has_check(
                cs,
                "AWS credentials"@,
                if f.credentials {
                    Outcome::Passed
                } else {
                    Outcome::Warned
                },
            )
            &&& f.config matches Some(c) ==> (f.targets matches Some(installed) ==> (0 <= i
                < c.config.bootstrap.targets.len() ==> has_check(
                cs,
                "rustup target"@,
                if installed.contains(c.config.bootstrap.targets[i]) {
                    Outcome::Passed
                } else {
                    Outcome::Failed
                },
            )))
            &&& check_s3 && f.config is Some && f.s3 == Some(ReachedView::Yes) ==> has_check(
                cs,
                "S3 reachable"@,
                Outcome::Passed,
            )
            &&& check_s3 && f.config is Some && (f.s3 matches Some(ReachedView::No(_))) ==> has_check(
                cs,
                "S3 reachable"@,
                Outcome::Failed,
            )
        }),
{
    let cs = checks_of(check_s3, f);
    let ts = crate::doctor::target_checks(f);
    assert(cs[0] == crate::doctor::config_check(f));
    assert(cs[1] == crate::doctor::zigbuild_check(f));
    assert(cs[2] == crate::doctor::zig_check(f));
    assert(cs[3 + ts.len() as int] == crate::doctor::credentials_check(f));
    if let Some(c) = f.config {
        if let Some(installed) = f.targets {
            if 0 <= i < c.config.bootstrap.targets.len() {
                assert(cs[3 + i] == target_check(c.config.bootstrap.targets[i], installed));
            }
        }
        if check_s3 && f.s3 is Some {
            assert(cs[4 + ts.len() as int] == crate::doctor::s3_checks(check_s3, f)[0]);
        }
    }
}

// ---- configuring -----------------------------------------------------------------------------
/// The configuration is where the command line says, else where the environment
/// says, else in the nearest directory that has one, else the user's own.
pub proof fn law_where_the_configuration_is(
    p: Seq<char>,
    env: Option<Seq<char>>,
    above: Seq<CandidateView>,
    own: Option<CandidateView>,
    i: int,
)
    ensures
        config_path(Some(p), env, above, own) == Some(p),
        config_path(None, Some(p), above, own) == Some(p),
        0 <= i < above.len() && above[i].is_file && (forall|j: int|
            0 <= j < i ==> !(#[trigger] above[j]).is_file) ==> config_path(None, None, above, own)
            == Some(above[i].path),
        (forall|j: int| 0 <= j < above.len() ==> !(#[trigger] above[j]).is_file) ==> config_path(
            None,
            None,
            above,
            own,
        ) == (match own {
            Some(c) => if c.is_file {
                Some(c.path)
            } else {
                None
            },
            None => None,
        }),
{
    if 0 <= i < above.len() && above[i].is_file && (forall|j: int|
        0 <= j < i ==> !(#[trigger] above[j]).is_file) {
        lemma_first(above, i);
    }
    if forall|j: int| 0 <= j < above.len() ==> !(#[trigger] above[j]).is_file {
        lemma_no_file(above);
    }
}

proof fn lemma_first(cs: Seq<CandidateView>, i: int)
    requires
        0 <= i < cs.len(),
        cs[i].is_file,
        forall|j: int| 0 <= j < i ==> !(#[trigger] cs[j]).is_file,
    ensures
        first_file(cs) == Some(cs[i].path),
    decreases cs.len(),
{
    if i > 0 {
        let r = cs.drop_first();
        assert(!cs[0].is_file);
        assert(r[i - 1] == cs[i]);
        assert forall|j: int| 0 <= j < i - 1 implies !(#[trigger] r[j]).is_file by {
            assert(r[j] == cs[j + 1]);
        }
        lemma_first(r, i - 1);
    }
}

proof fn lemma_no_file(cs: Seq<CandidateView>)
    requires
        forall|j: int| 0 <= j < cs.len() ==> !(#[trigger] cs[j]).is_file,
    ensures
        first_file(cs) is None,
    decreases cs.len(),
{
    if cs.len() > 0 {
        let r = cs.drop_first();
        assert(!cs[0].is_file);
        assert forall|j: int| 0 <= j < r.len() implies !(#[trigger] r[j]).is_file by {
            assert(r[j] == cs[j + 1]);
        }
        lemma_no_file(r);
    }
}

// ---- starting a crate --------------------------------------------------------------------------
/// The files of a new crate say what was chosen: the manifest the name and the
/// version of the library, the configuration the bucket, the endpoint and the
/// region. Only an endpoint that is neither Amazon's nor secure is spoken to without
/// encryption.
pub proof fn law_new_crates_say_what_was_chosen(
    name: Seq<char>,
    version: Seq<char>,
    bucket: Seq<char>,
    endpoint: Seq<char>,
    region: Seq<char>,
)
    ensures
        occurs(cargo_toml_of(name, version), "name = \""@ + name + "\""@),
        occurs(cargo_toml_of(name, version), "version = \""@ + version + "\""@),
        occurs(athena_toml_of(bucket, endpoint, region), "endpoint = \""@ + endpoint + "\""@),
        occurs(athena_toml_of(bucket, endpoint, region), "bucket = \""@ + bucket + "\""@),
        occurs(athena_toml_of(bucket, endpoint, region), "region = \""@ + region + "\""@),
        is_plain(endpoint) <==> !has_prefix(endpoint, "https://"@) && !occurs(
            endpoint,
            "amazonaws.com"@,
        ),
{
    reveal_strlit("\"");
    reveal_strlit("name = \"");
    reveal_strlit("version = \"");
    reveal_strlit("endpoint = \"");
    reveal_strlit("bucket = \"");
    reveal_strlit("region = \"");
    reveal_strlit("[package]\nname = \"");
    reveal_strlit("\"\nversion = \"0.1.0\"\nedition = \"2024\"\n\n[dependencies]\n# Library-only: pulls just the proc macros + runtime, not the CLI tree.\n# Install the CLI separately with `cargo install cargo-athena`.\ncargo-athena = { version = \"");
    reveal_strlit("\", default-features = false }\n");
    reveal_strlit("[artifact_repository.s3]\nendpoint = \"");
    reveal_strlit("\"\nbucket = \"");
    reveal_strlit("\"\nregion = \"");
    reveal_strlit("\"\n");
    let c = cargo_toml_of(name, version);
    let p = "name = \""@ + name + "\""@;
    assert(c.subrange(10, 10 + p.len() as int) =~= p);
    assert(stands_at(c, p, 10));
    let q = "version = \""@ + version + "\""@;
    let at = c.len() - q.len() - "\", default-features = false }\n"@.len() + 1;
    assert(c.subrange(at, at + q.len()) =~= q);
    assert(stands_at(c, q, at));
    let t = athena_toml_of(bucket, endpoint, region);
    let e = "endpoint = \""@ + endpoint + "\""@;
    assert(t.subrange(25, 25 + e.len() as int) =~= e);
    assert(stands_at(t, e, 25));
    let b = "bucket = \""@ + bucket + "\""@;
    let bat: int = 25 + e.len() as int + 1;
    assert(t.subrange(bat, bat + b.len() as int) =~= b);
    assert(stands_at(t, b, bat));
    let r = "region = \""@ + region + "\""@;
    let rat: int = bat + b.len() as int + 1;
    assert(t.subrange(rat, rat + r.len() as int) =~= r);
    assert(stands_at(t, r, rat));
}

/// A value is the one that was given, else the answer without the blanks around it,
/// else, where the answer is blank or there was no question, what stands in for it.
pub proof fn law_answers_are_taken(v: Seq<char>, line: Option<Seq<char>>, l: Seq<char>, d: Seq<char>)
    ensures
        chosen(Some(v), line, d) == v,
        trim_by(l, is_space()).len() > 0 ==> chosen(None, Some(l), d) == trim_by(l, is_space()),
        trim_by(l, is_space()).len() == 0 ==> chosen(None, Some(l), d) == d,
        chosen(None, None, d) == d,
{
}

/// Only the four ways to say yes are a yes.
pub proof fn law_only_yes_is_yes(answer: Seq<char>)
    ensures
        is_yes(answer) ==> {
            let t = trim_by(answer, is_space());
            t.len() > 0 && (t[0] == 'y' || t[0] == 'Y')
        },
        trim_by(answer, is_space()).len() == 0 ==> !is_yes(answer),
        trim_by(answer, is_space()) == seq!['y'] ==> is_yes(answer),
        trim_by(answer, is_space()) == seq!['y', 'e', 's'] ==> is_yes(answer),
        trim_by(answer, is_space()) == seq!['n'] ==> !is_yes(answer),
{
    reveal_strlit("y");
    reveal_strlit("Y");
    reveal_strlit("yes");
    reveal_strlit("Yes");
    assert("y"@ =~= seq!['y']);
    assert("yes"@ =~= seq!['y', 'e', 's']);
    assert(seq!['n'][0] == 'n');
}

// ---- running a body ------------------------------------------------------------------------------
/// A body reads and writes artifacts where its template puts and takes them.
pub proof fn law_bodies_find_their_artifacts(n: Seq<char>)
    requires
        n.len() == 0 || n[0] != '/',
    ensures
        below(crate::rt::IN_DIR@, n) == in_artifact(n),
        below(crate::rt::OUT_DIR@, n) == out_artifact(n),
{
    reveal_strlit("/");
    assert(!has_prefix(n, "/"@)) by {
        if has_prefix(n, "/"@) {
            assert(n.subrange(0, 1)[0] == '/');
        }
    }
}

/// The text behind a name is the one right behind its first place.
pub proof fn law_text_behind(before: Seq<Seq<char>>, name: Seq<char>, x: Seq<char>, rest: Seq<Seq<char>>)
    requires
        !before.contains(name),
    ensures
        text_behind(before + seq![name, x] + rest, name) == Some(x),
        text_behind(before, name) is None,
    decreases before.len(),
{
    let s = before + seq![name, x] + rest;
    if before.len() > 0 {
        let r = before.drop_first();
        assert(before[0] != name) by {
            assert(before.contains(before[0]));
        }
        assert(!r.contains(name)) by {
            if r.contains(name) {
                let i = choose|i: int| 0 <= i < r.len() && r[i] == name;
                assert(before[i + 1] == name);
            }
        }
        law_text_behind(r, name, x, rest);
        assert(s.drop_first() =~= r + seq![name, x] + rest);
    } else {
        assert(s[0] == name && s[1] == x);
    }
}

/// What the arguments ask for: a build, or a run of the template that is named; a
/// run without one is refused, and anything else is answered with the usage.
pub proof fn law_requests(args: Seq<Seq<char>>)
    requires
        args.len() > 1,
        args[0] == "athena"@,
    ensures
        args[1] == "build"@ ==> (request_of(args) matches Ok(RequestView::Build { cargo, out })
            && cargo == cargo_args_of(args.skip(2)) && out == text_behind(args.skip(2), "--out"@)),
        args[1] == "run"@ ==> match request_of(args) {
            Ok(RequestView::Run { cargo, template, input }) => text_behind(
                args.skip(2),
                "--template"@,
            ) == Some(template) && input == text_behind(args.skip(2), "--input"@) && cargo
                == cargo_args_of(args.skip(2)),
            Err(_) => text_behind(args.skip(2), "--template"@) is None,
            _ => false,
        },
        args[1] != "build"@ && args[1] != "run"@ ==> request_of(args) matches Ok(
            RequestView::Usage,
        ),
{
    reveal_strlit("build");
    reveal_strlit("run");
    assert("build"@.len() == 5 && "run"@.len() == 3);
    assert(args.drop_first().drop_first() =~= args.skip(2));
}

/// Cargo is called with the package and the binary that are named, and with no
/// other.
pub proof fn law_cargo_is_called_with_what_is_named(args: Seq<Seq<char>>)
    ensures
        ({
            let c = cargo_args_of(args);
            let p = text_behind(args, "--package"@);
            let b = text_behind(args, "--bin"@);
            &&& c.len() >= 2 && c[0] == "run"@ && c[1] == "--quiet"@
            &&& p matches Some(x) ==> c.len() >= 4 && c[2] == "--package"@ && c[3] == x
            &&& b matches Some(x) ==> c[c.len() - 2] == "--bin"@ && c.last() == x
            &&& p is None && b is None ==> c.len() == 2
        }),
{
}

/// Without a configuration of their own, containers run in a small image, and
/// binaries are built for both machines; the account is the cluster's default.
pub proof fn law_defaults()
    ensures
        crate::config::default_bootstrap().default_image == "busybox:1.36-musl"@,
        crate::config::default_bootstrap().targets.len() == 2,
        crate::config::default_bootstrap().targets.contains("x86_64-unknown-linux-musl"@),
        crate::config::default_bootstrap().targets.contains("aarch64-unknown-linux-musl"@),
        crate::config::default_defaults().service_account == "default"@,
        crate::config::default_defaults().namespace is None,
{
    let t = crate::config::default_bootstrap().targets;
    assert(t[0] == "x86_64-unknown-linux-musl"@ && t[1] == "aarch64-unknown-linux-musl"@);
}

/// The name of a new crate is the one that is given, else one made from that of the
/// directory.
pub proof fn law_the_name_of_a_new_crate(n: Seq<char>, dir: Option<Seq<char>>, d: Seq<char>)
    ensures
        proposed_name(Some(n), dir) == n,
        proposed_name(None, Some(d)) == crate::init::package_name(d),
        proposed_name(None, None) == "my-workflow"@,
        crate::init::is_package_name(d) && (forall|i: int|
            0 <= i < d.len() ==> !is_upper(#[trigger] d[i])) ==> proposed_name(None, Some(d)) == d,
{
    if crate::init::is_package_name(d) && (forall|i: int|
        0 <= i < d.len() ==> !is_upper(#[trigger] d[i])) {
        lemma_same_name(d);
    }
}

proof fn lemma_same_name(d: Seq<char>)
    requires
        forall|i: int|
            0 <= i < d.len() ==> (is_alnum(#[trigger] d[i]) || d[i] == '-' || d[i] == '_')
                && !is_upper(d[i]),
    ensures
        crate::init::name_chars(d) == d,
    decreases d.len(),
{
    if d.len() > 0 {
        let f = d.drop_last();
        assert forall|i: int| 0 <= i < f.len() implies (is_alnum(#[trigger] f[i]) || f[i] == '-'
            || f[i] == '_') && !is_upper(f[i]) by {
            assert(f[i] == d[i]);
        }
        lemma_same_name(f);
        assert(d[d.len() - 1] == d.last());
        assert(f.push(d.last()) =~= d);
    } else {
        assert(crate::init::name_chars(d) =~= d);
    }
}

} // verus!
