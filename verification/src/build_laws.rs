//! What a build is called, where it goes, and how a program is found and asked.

use crate::binsrc::{
    launch_of, manifest_of, probe_problem, protocol_in, source_of, value_under, BinSelView,
    ProbeRunView,
};
use crate::config::{AthenaConfigView, DefaultsView};
use crate::gitinfo::{
    build_in, resolved, slot_of, state_of, BuildTagView, GitStateView, ResolvedView,
};
use crate::munge::{dash_lower, host_mount, in_artifact, kebab_of, out_artifact, pvc_mount, tag_of};
use crate::names::argo_name;
use crate::outside::{json_facts, json_text};
use crate::publish::{entries_of, package_of, plan_of, sealed_env, PackageView};
use crate::text::{
    has_prefix, is_alnum, is_char, is_space, is_upper, lemma_lead, lemma_tail, trim_by, trim_end_by,
    trim_start_by,
};
use vstd::prelude::*;

verus! {

// ---- the tag ---------------------------------------------------------------------------
/// A clean tree on `main` or `master` is a release under the tag of its version, and
/// nothing is asked. Any other is a development build: with changes it is refused
/// unless they are allowed, and off those branches it is asked about unless it was
/// agreed to. A tag that is forced decides alone. What is built says which commit it
/// is and whether there were changes.
pub proof fn law_what_a_build_is(
    semver: Seq<char>,
    dev_tag: Option<Option<Seq<char>>>,
    allow_dirty: bool,
    yes: bool,
    st: GitStateView,
    t: Seq<char>,
)
    ensures
        ({
            let main = st.branch == "main"@ || st.branch == "master"@;
            let r = resolved(semver, dev_tag, allow_dirty, yes, true, Some(st), None);
            let b = build_in(r);
            &&& main && !st.dirty && dev_tag is None ==> (r matches ResolvedView::Tag(x) && x.tag
                == tag_of(semver) && x.channel == "release"@)
            &&& st.dirty && !allow_dirty ==> r is Refused
            &&& !main && (!st.dirty || allow_dirty) ==> (r is Ask <==> !yes)
            &&& main && (!st.dirty || allow_dirty) ==> r is Tag
            &&& (!main || st.dirty || dev_tag is Some) ==> (b matches Some(x) ==> x.channel
                == "dev"@ && has_prefix(x.tag, "dev-"@))
            &&& b matches Some(x) ==> x.dirty == st.dirty && (st.commit.len() > 0 ==> x.commit == Some(
                st.commit,
            )) && (st.commit.len() == 0 ==> x.commit is None)
        }),
        t.len() > 0 && tag_of(t).len() > 0 ==> (resolved(
            semver,
            dev_tag,
            allow_dirty,
            yes,
            true,
            Some(st),
            Some(t),
        ) matches ResolvedView::Tag(x) && x.tag == tag_of(t)),
{
    reveal_strlit("dev-");
    if let Some(x) = build_in(resolved(semver, dev_tag, allow_dirty, yes, true, Some(st), None)) {
        let d = "dev-"@ + slot_of(dev_tag, crate::gitinfo::commit_in(Some(st)));
        assert(d.subrange(0, 4) =~= "dev-"@);
    }
}

/// A development build is called by the slot that is given, else by its commit,
/// else `local`.
pub proof fn law_what_a_slot_is(v: Seq<char>, commit: Option<Seq<char>>, c: Seq<char>)
    ensures
        tag_of(v).len() > 0 ==> slot_of(Some(Some(v)), commit) == tag_of(v),
        tag_of(c).len() > 0 ==> slot_of(None, Some(c)) == tag_of(c) && slot_of(Some(None), Some(c))
            == tag_of(c),
        tag_of(v).len() == 0 && tag_of(c).len() > 0 ==> slot_of(Some(Some(v)), Some(c)) == tag_of(
            c,
        ),
        slot_of(None, None) == "local"@,
{
    assert(tag_of(Seq::<char>::empty()).len() == 0);
}

/// What `git` says of a working tree: the branch and the commit as they are
/// printed, and changes wherever any file is listed. Outside one it says nothing.
pub proof fn law_what_git_says(
    inside: Option<Seq<char>>,
    branch: Seq<char>,
    commit: Seq<char>,
    status: Seq<char>,
)
    ensures
        state_of(inside, Some(branch), Some(commit), Some(status)) is Some <==> (inside matches Some(
            s,
        ) && trim_by(s, is_space()) == "true"@),
        state_of(inside, Some(branch), Some(commit), Some(status)) matches Some(st) ==> {
            &&& st.branch == trim_by(branch, is_space())
            &&& st.commit == trim_by(commit, is_space())
            &&& st.dirty <==> trim_by(status, is_space()).len() > 0
        },
{
}

// ---- where a build goes ------------------------------------------------------------------
/// A build goes to the configured bucket, under its package, its tag and its binary.
/// It is built for the targets that are given, else for those of the configuration.
/// Its binary is the one that is named, else that of the package.
pub proof fn law_where_a_build_goes(
    cfg: AthenaConfigView,
    package: PackageView,
    bin: Option<Seq<char>>,
    targets: Seq<Seq<char>>,
    tag: BuildTagView,
)
    ensures
        ({
            let p = plan_of(cfg, package, bin, targets, tag);
            let repo = cfg.artifact_repository.s3;
            &&& p.krate == package.name
            &&& p.version == package.version
            &&& p.bin == match bin {
                Some(b) => b,
                None => package.name,
            }
            &&& targets.len() > 0 ==> p.targets == targets
            &&& targets.len() == 0 ==> p.targets == cfg.bootstrap.targets
            &&& p.tag == tag
            &&& p.s3.bucket == repo.bucket && p.s3.endpoint == repo.endpoint && p.s3.region
                == repo.region && p.s3.insecure == repo.insecure
            &&& p.s3.key == package.name + "/"@ + tag.tag + "/"@ + p.bin + ".tar.gz"@
            &&& p.tarball == "target/athena/"@ + p.bin + ".tar.gz"@
        }),
{
    let p = plan_of(cfg, package, bin, targets, tag);
    assert(p.s3.key =~= package.name + "/"@ + tag.tag + "/"@ + p.bin + ".tar.gz"@);
}

/// The package that is built is the first of the name that is given, or the only
/// one there is.
pub proof fn law_which_package_is_built(ps: Seq<PackageView>, name: Seq<char>)
    ensures
        match package_of(ps, Some(name)) {
            Ok(p) => p.name == name && ps.contains(p),
            Err(_) => forall|i: int| 0 <= i < ps.len() ==> (#[trigger] ps[i]).name != name,
        },
        match package_of(ps, None) {
            Ok(p) => ps.len() == 1 && p == ps[0],
            Err(_) => ps.len() != 1,
        },
{
    lemma_package(ps, name);
}

proof fn lemma_package(ps: Seq<PackageView>, name: Seq<char>)
    ensures
        match crate::publish::package_named(ps, name) {
            Some(p) => p.name == name && ps.contains(p),
            None => forall|i: int| 0 <= i < ps.len() ==> (#[trigger] ps[i]).name != name,
        },
    decreases ps.len(),
{
    if ps.len() > 0 {
        let r = ps.drop_first();
        lemma_package(r, name);
        if ps[0].name == name {
            assert(ps.contains(ps[0]));
        } else {
            match crate::publish::package_named(ps, name) {
                Some(p) => {
                    let i = choose|i: int| 0 <= i < r.len() && r[i] == p;
                    assert(ps[i + 1] == p);
                },
                None => {
                    assert forall|i: int| 0 <= i < ps.len() implies (#[trigger] ps[i]).name
                        != name by {
                        if i > 0 {
                            assert(r[i - 1] == ps[i]);
                        }
                    }
                },
            }
        }
    }
}

/// A build is compiled with its tag in the environment, with its commit where one
/// is known, and with a mark where there were changes.
pub proof fn law_builds_are_sealed(t: BuildTagView)
    ensures
        sealed_env(t).contains(("ATHENA_VERSION_TAG"@, t.tag)),
        t.commit matches Some(c) ==> sealed_env(t).contains(("ATHENA_GIT_COMMIT"@, c)),
        t.dirty ==> sealed_env(t).contains(("ATHENA_GIT_DIRTY"@, "true"@)),
        sealed_env(t).len() == 1 + (if t.commit is Some {
            1int
        } else {
            0
        }) + (if t.dirty {
            1int
        } else {
            0
        }),
{
    let e = sealed_env(t);
    assert(e[0] == ("ATHENA_VERSION_TAG"@, t.tag));
    if let Some(c) = t.commit {
        assert(e[1] == ("ATHENA_GIT_COMMIT"@, c));
    }
    if t.dirty {
        assert(e[e.len() - 1] == ("ATHENA_GIT_DIRTY"@, "true"@));
    }
}

/// The tarball holds one file for each target, under the name by which the script
/// of a container starts it.
pub proof fn law_one_binary_for_each_target(targets: Seq<Seq<char>>, stage: Seq<char>, i: int)
    requires
        0 <= i < targets.len(),
    ensures
        entries_of(targets, stage).len() == targets.len(),
        entries_of(targets, stage)[i].1 == "app-"@ + targets[i],
        entries_of(targets, stage)[i].0 == stage + "/app-"@ + targets[i],
{
    reveal_strlit("/");
    reveal_strlit("app-");
    reveal_strlit("/app-");
    assert(stage + "/"@ + ("app-"@ + targets[i]) =~= stage + "/app-"@ + targets[i]);
}

// ---- programs ----------------------------------------------------------------------------
/// A binary that is named is run as it is. Otherwise `cargo run` builds one: with
/// the manifest, the package and the binary of the command line, and where it names
/// none, with those of the configuration.
pub proof fn law_which_program_is_run(sel: BinSelView, d: DefaultsView, is_dir: bool)
    ensures
        sel.binary matches Some(b) ==> launch_of(source_of(sel, d), is_dir).program == b
            && launch_of(source_of(sel, d), is_dir).args.len() == 0,
        sel.binary is None ==> {
            let l = launch_of(source_of(sel, d), is_dir);
            let package = if sel.package is Some {
                sel.package
            } else {
                d.package
            };
            let bin = if sel.bin is Some {
                sel.bin
            } else {
                d.bin
            };
            &&& l.program == "cargo"@
            &&& l.args.len() > 0 && l.args[0] == "run"@
            &&& bin matches Some(b) ==> l.args.last() == b && l.args[l.args.len() - 2] == "--bin"@
            &&& package matches Some(p) ==> exists|i: int|
                0 < i < l.args.len() && l.args[i - 1] == "--package"@ && #[trigger] l.args[i] == p
            &&& sel.manifest_path matches Some(m) ==> l.args.len() > 2 && l.args[1]
                == "--manifest-path"@ && (!is_dir ==> l.args[2] == m)
            &&& l.args.len() == 1 + (if sel.manifest_path is Some {
                2int
            } else {
                0
            }) + (if package is Some {
                2int
            } else {
                0
            }) + (if bin is Some {
                2int
            } else {
                0
            })
        },
{
    if sel.binary is None {
        let l = launch_of(source_of(sel, d), is_dir);
        let package = if sel.package is Some {
            sel.package
        } else {
            d.package
        };
        if let Some(p) = package {
            let at: int = if sel.manifest_path is Some {
                4
            } else {
                2
            };
            assert(l.args[at] == p && l.args[at - 1] == "--package"@);
        }
    }
}

/// A manifest's directory stands for the manifest in it.
pub proof fn law_a_directory_stands_for_its_manifest(dir: Seq<char>)
    requires
        dir.len() > 0,
        dir.last() != '/',
    ensures
        manifest_of(Some(dir), true) == Some(dir + "/Cargo.toml"@),
        manifest_of(Some(dir), false) == Some(dir),
        manifest_of(None, true) is None,
{
    reveal_strlit("/");
    reveal_strlit("Cargo.toml");
    reveal_strlit("/Cargo.toml");
    assert(!crate::text::has_suffix(dir, "/"@)) by {
        if crate::text::has_suffix(dir, "/"@) {
            assert(dir.subrange(dir.len() - 1, dir.len() as int)[0] == '/');
        }
    }
    assert(dir + "/"@ + "Cargo.toml"@ =~= dir + "/Cargo.toml"@);
}

/// A program is used only where it answered, its answer is JSON, and the answer
/// says that it is of the right kind and speaks the same protocol.
pub proof fn law_only_known_programs_are_used(
    label: Seq<char>,
    ran: ProbeRunView,
    kind: Seq<char>,
    protocol: u32,
)
    ensures
        probe_problem(label, ran, kind, protocol) is None ==> {
            &&& ran matches ProbeRunView::Replied(Some(t)) && json_facts(t) is Ok
            &&& exists|es: Seq<(Seq<char>, Seq<char>)>| #[trigger]
                value_under(es, "kind"@) == Some(json_text(kind)) && protocol_in(es) == protocol
        },
        ran is Failed || ran is Exited ==> probe_problem(label, ran, kind, protocol) is Some,
{
    if let ProbeRunView::Replied(Some(t)) = ran {
        let es = match crate::json::json_entries(t) {
            Some(es) => es,
            None => Seq::empty(),
        };
        if probe_problem(label, ran, kind, protocol) is None {
            assert(value_under(es, "kind"@) == Some(json_text(kind)));
        }
    }
}

// ---- names ---------------------------------------------------------------------------
/// The name of a template is the one that is given, else the crate's and the
/// function's with a dash between them.
pub proof fn law_template_names(n: Seq<char>, krate: Seq<char>, rust: Seq<char>)
    ensures
        argo_name(Some(n), krate, rust) == n,
        argo_name(None, krate, rust) == kebab_of(krate) + seq!['-'] + kebab_of(rust),
{
    reveal_strlit("-");
    assert("-"@ =~= seq!['-']);
}

/// The kebab form of a name that begins and ends in a letter or digit has the same
/// length: small letters and digits stay, capital ones become small, and an
/// underscore becomes a dash.
pub proof fn law_kebab_of_names(s: Seq<char>)
    requires
        s.len() > 0,
        is_alnum(s[0]),
        is_alnum(s.last()),
    ensures
        kebab_of(s).len() == s.len(),
        forall|i: int|
            0 <= i < s.len() ==> {
                let c = #[trigger] kebab_of(s)[i];
                &&& s[i] == '_' ==> c == '-'
                &&& is_upper(s[i]) ==> c as u32 == s[i] as u32 + 32
                &&& s[i] != '_' && !is_upper(s[i]) ==> c == s[i]
            },
{
    let m = s.map_values(|c: char| dash_lower(c));
    let f = is_char('-');
    assert(m[0] != '-' && m.last() != '-');
    lemma_lead(m, f, 0);
    let t = trim_start_by(m, f);
    assert(t =~= m);
    lemma_tail(m, f, 0);
    assert(trim_end_by(m, f) =~= m);
}

/// Where a body looks for what it declared: each kind in a place of its own.
pub proof fn law_places_in_a_pod(n: Seq<char>)
    ensures
        in_artifact(n) == "/athena/artifacts/in/"@ + n,
        out_artifact(n) == "/athena/artifacts/out/"@ + n,
        has_prefix(host_mount(n), "/athena/mounts/"@),
        has_prefix(pvc_mount(n), "/athena/pvcs/"@),
{
    reveal_strlit("/");
    reveal_strlit("/athena/artifacts/in");
    reveal_strlit("/athena/artifacts/in/");
    reveal_strlit("/athena/artifacts/out");
    reveal_strlit("/athena/artifacts/out/");
    reveal_strlit("/athena/mounts");
    reveal_strlit("/athena/mounts/");
    reveal_strlit("/athena/pvcs");
    reveal_strlit("/athena/pvcs/");
    assert(in_artifact(n) =~= "/athena/artifacts/in/"@ + n);
    assert(out_artifact(n) =~= "/athena/artifacts/out/"@ + n);
    let h = host_mount(n);
    let p = pvc_mount(n);
    assert(h.subrange(0, 15) =~= "/athena/mounts/"@);
    assert(p.subrange(0, 13) =~= "/athena/pvcs/"@);
}

} // verus!
