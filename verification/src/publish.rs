//! `cargo athena build` and `cargo athena publish`: what is built, and where it is
//! uploaded to.

use crate::config::{AthenaConfig, AthenaConfigView};
use crate::gitinfo::{
    build_in, law_sealed_as_resolved, resolved, BuildTag, BuildTagView, GitStateView,
};
use crate::maps::Data;
use crate::munge::{binary_key, key_of, sealed_tag};
use crate::node::agrees;
use crate::outside::{debug_str, debug_text};
use crate::run_meta::{S3Ref, S3RefView};
use crate::text::{cat2, cat3, cat4, cat5, cat7, join, joined, str_eq};
use vstd::prelude::*;

verus! {

/// The options that decide the version of a build.
pub struct GateArgs {
    pub dev_tag: Option<Option<String>>,
    pub allow_dirty: bool,
    pub yes: bool,
}

#[verifier::ext_equal]
pub struct GateArgsView {
    pub dev_tag: Option<Option<Seq<char>>>,
    pub allow_dirty: bool,
    pub yes: bool,
}

impl DeepView for GateArgs {
    type V = GateArgsView;

    open spec fn deep_view(&self) -> GateArgsView {
        GateArgsView {
            dev_tag: self.dev_tag.deep_view(),
            allow_dirty: self.allow_dirty,
            yes: self.yes,
        }
    }
}

/// A package of the workspace.
pub struct Package {
    pub name: String,
    pub version: String,
}

#[verifier::ext_equal]
pub struct PackageView {
    pub name: Seq<char>,
    pub version: Seq<char>,
}

impl DeepView for Package {
    type V = PackageView;

    open spec fn deep_view(&self) -> PackageView {
        PackageView {
            name: self.name@,
            version: self.version@,
        }
    }
}

/// What is built and where it goes.
pub struct BuildPlan {
    pub krate: String,
    pub version: String,
    pub bin: String,
    pub targets: Vec<String>,
    pub tag: BuildTag,
    pub s3: S3Ref,
    pub dest: String,
    pub tarball: String,
}

#[verifier::ext_equal]
pub struct BuildPlanView {
    pub krate: Seq<char>,
    pub version: Seq<char>,
    pub bin: Seq<char>,
    pub targets: Seq<Seq<char>>,
    pub tag: BuildTagView,
    pub s3: S3RefView,
    pub dest: Seq<char>,
    pub tarball: Seq<char>,
}

impl DeepView for BuildPlan {
    type V = BuildPlanView;

    open spec fn deep_view(&self) -> BuildPlanView {
        BuildPlanView {
            krate: self.krate@,
            version: self.version@,
            bin: self.bin@,
            targets: self.targets.deep_view(),
            tag: self.tag.deep_view(),
            s3: self.s3.deep_view(),
            dest: self.dest@,
            tarball: self.tarball@,
        }
    }
}

// ---- the package -----------------------------------------------------------------------
pub open spec fn package_named(ps: Seq<PackageView>, name: Seq<char>) -> Option<PackageView>
    decreases ps.len(),
{
    if ps.len() == 0 {
        None
    } else if ps[0].name == name {
        Some(ps[0])
    } else {
        package_named(ps.drop_first(), name)
    }
}

pub const MANY_PACKAGES: &'static str = "multiple packages; pass --package";

/// The package that is driven: the named one, or the only one.
pub open spec fn package_of(ps: Seq<PackageView>, pkg: Option<Seq<char>>) -> Result<
    PackageView,
    Seq<char>,
> {
    match pkg {
        Some(name) => match package_named(ps, name) {
            Some(p) => Ok(p),
            None => Err("package "@ + debug_text(name) + " not found"@),
        },
        None => if ps.len() == 1 {
            Ok(ps[0])
        } else {
            Err(MANY_PACKAGES@)
        },
    }
}

/// The package that is driven: the named one, or the only one.
pub fn package_meta(ps: &Vec<Package>, pkg: &Option<String>) -> (r: Result<Package, String>)
    ensures
        agrees(r, package_of(ps.deep_view(), pkg.deep_view())),
{
    let ghost all = ps.deep_view();
    proof {
        assert(all.len() == ps@.len());
    }
    match pkg {
        Some(name) => {
            let mut i: usize = 0;
            proof {
                assert(all.skip(0) =~= all);
            }
            while i < ps.len()
                invariant
                    all == ps.deep_view(),
                    pkg.deep_view() == Some(name@),
                    i <= ps@.len(),
                    package_named(all, name@) == package_named(all.skip(i as int), name@),
                decreases ps@.len() - i,
            {
                proof {
                    assert(all.skip(i as int)[0] == ps@[i as int].deep_view());
                    assert(all.skip(i as int).drop_first() =~= all.skip(i + 1));
                }
                if str_eq(ps[i].name.as_str(), name.as_str()) {
                    return Ok(
                        Package { name: ps[i].name.clone(), version: ps[i].version.clone() },
                    );
                }
                i = i + 1;
            }
            let q: String = debug_str(name.as_str());
            Err(cat3("package ", q.as_str(), " not found"))
        },
        None => if ps.len() == 1 {
            proof {
                assert(all[0] == ps@[0].deep_view());
            }
            Ok(Package { name: ps[0].name.clone(), version: ps[0].version.clone() })
        } else {
            Err(MANY_PACKAGES.to_owned())
        },
    }
}

// ---- the destination -------------------------------------------------------------------
pub open spec fn dest_of(s3: S3RefView) -> Seq<char> {
    "s3://"@ + s3.bucket + "/"@ + s3.key + (" (endpoint "@ + s3.endpoint + ")"@)
}

pub open spec fn artifact_of(
    cfg: AthenaConfigView,
    krate: Seq<char>,
    tag: Seq<char>,
    bin: Seq<char>,
) -> S3RefView {
    S3RefView::in_repo(cfg.artifact_repository.s3, key_of(krate, tag, bin))
}

/// Where the tarball of a build is, and how that is said.
pub fn artifact_s3(cfg: &AthenaConfig, krate: &str, tag: &str, bin: &str) -> (r: (S3Ref, String))
    ensures
        r.0.deep_view() == artifact_of(cfg.deep_view(), krate@, tag@, bin@),
        r.1@ == dest_of(r.0.deep_view()),
{
    let s3: S3Ref = S3Ref::from_repo(&cfg.artifact_repository.s3, binary_key(krate, tag, bin));
    let end: String = cat3(" (endpoint ", s3.endpoint.as_str(), ")");
    let dest: String = cat5("s3://", s3.bucket.as_str(), "/", s3.key.as_str(), end.as_str());
    (s3, dest)
}

/// The short form of a place, for scripts.
pub fn object_url(s3: &S3Ref) -> (r: String)
    ensures
        r@ == "s3://"@ + s3.deep_view().bucket + "/"@ + s3.deep_view().key,
{
    cat4("s3://", s3.bucket.as_str(), "/", s3.key.as_str())
}

// ---- the build -------------------------------------------------------------------------
pub open spec fn bin_of(bin: Option<Seq<char>>, krate: Seq<char>) -> Seq<char> {
    match bin {
        Some(b) => b,
        None => krate,
    }
}

pub open spec fn tarball_path(bin: Seq<char>) -> Seq<char> {
    "target/athena/"@ + bin + ".tar.gz"@
}

pub open spec fn plan_of(
    cfg: AthenaConfigView,
    package: PackageView,
    bin: Option<Seq<char>>,
    targets: Seq<Seq<char>>,
    tag: BuildTagView,
) -> BuildPlanView {
    let b = bin_of(bin, package.name);
    let s3 = artifact_of(cfg, package.name, tag.tag, b);
    BuildPlanView {
        krate: package.name,
        version: package.version,
        bin: b,
        targets: if targets.len() == 0 {
            cfg.bootstrap.targets
        } else {
            targets
        },
        tag,
        s3,
        dest: dest_of(s3),
        tarball: tarball_path(b),
    }
}

/// What is built: `bin` of `package`, or its binary of the same name, for the
/// given targets or those of the configuration.
pub fn plan_build(
    cfg: &AthenaConfig,
    package: Package,
    bin: &Option<String>,
    targets: &Vec<String>,
    tag: BuildTag,
) -> (r: BuildPlan)
    ensures
        r.deep_view() == plan_of(
            cfg.deep_view(),
            package.deep_view(),
            bin.deep_view(),
            targets.deep_view(),
            tag.deep_view(),
        ),
{
    let b: String = match bin {
        Some(b) => b.clone(),
        None => package.name.clone(),
    };
    proof {
        assert(targets.deep_view().len() == targets@.len());
    }
    let ts: Vec<String> = if targets.len() == 0 {
        cfg.bootstrap.targets.dup()
    } else {
        targets.dup()
    };
    let (s3, dest) = artifact_s3(cfg, package.name.as_str(), tag.tag.as_str(), b.as_str());
    let tarball: String = cat3("target/athena/", b.as_str(), ".tar.gz");
    BuildPlan {
        krate: package.name,
        version: package.version,
        bin: b,
        targets: ts,
        tag,
        s3,
        dest,
        tarball,
    }
}

pub open spec fn identity_text(p: BuildPlanView) -> Seq<char> {
    "crate="@ + p.krate + " version="@ + p.version + (" bin="@ + p.bin + "\ntag="@ + p.tag.tag
        + " channel="@ + p.tag.channel)
}

impl BuildPlan {
    fn identity(&self) -> (r: String)
        ensures
            r@ == identity_text(self.deep_view()),
    {
        let end: String = cat7(
            " bin=",
            self.bin.as_str(),
            "\ntag=",
            self.tag.tag.as_str(),
            " channel=",
            self.tag.channel,
            "",
        );
        proof {
            reveal_strlit("");
            assert(end@ =~= " bin="@ + self.bin@ + "\ntag="@ + self.tag.tag@ + " channel="@
                + self.tag.channel@);
        }
        cat5("crate=", self.krate.as_str(), " version=", self.version.as_str(), end.as_str())
    }

    /// What is said before a build.
    pub fn announce(&self) -> (r: String)
        ensures
            r@ == identity_text(self.deep_view()) + "\ntargets: "@ + joined(
                self.deep_view().targets,
                ", "@,
            ) + "\ndestination: "@ + self.deep_view().dest,
    {
        let head: String = self.identity();
        let ts: String = join(&self.targets, ", ");
        cat5(
            head.as_str(),
            "\ntargets: ",
            ts.as_str(),
            "\ndestination: ",
            self.dest.as_str(),
        )
    }

    /// What is said before a tarball that was built before is uploaded.
    pub fn announce_upload(&self) -> (r: String)
        ensures
            r@ == identity_text(self.deep_view()) + "\nupload key: "@ + self.deep_view().s3.key
                + "\ndestination: "@ + self.deep_view().dest,
    {
        let head: String = self.identity();
        cat5(
            head.as_str(),
            "\nupload key: ",
            self.s3.key.as_str(),
            "\ndestination: ",
            self.dest.as_str(),
        )
    }

    /// What Cargo is called with to build for one target.
    pub fn compile_args(&self, target: &str) -> (r: Vec<String>)
        ensures
            r.deep_view() == seq![
                "zigbuild"@,
                "--release"@,
                "--target"@,
                target@,
                "-p"@,
                self.deep_view().krate,
                "--bin"@,
                self.deep_view().bin,
            ],
    {
        let mut v: Vec<String> = Vec::new();
        v.push("zigbuild".to_owned());
        v.push("--release".to_owned());
        v.push("--target".to_owned());
        v.push(target.to_owned());
        v.push("-p".to_owned());
        v.push(self.krate.clone());
        v.push("--bin".to_owned());
        v.push(self.bin.clone());
        proof {
            assert(v.deep_view() =~= seq![
                "zigbuild"@,
                "--release"@,
                "--target"@,
                target@,
                "-p"@,
                self.deep_view().krate,
                "--bin"@,
                self.deep_view().bin,
            ]);
        }
        v
    }

    /// Where Cargo leaves what it built for one target.
    pub fn built_file(&self, target: &str) -> (r: String)
        ensures
            r@ == "target/"@ + target@ + "/release/"@ + self.deep_view().bin,
    {
        cat4("target/", target, "/release/", self.bin.as_str())
    }

    /// What is packed: for each target its file below `stage`, and its name.
    pub fn entries(&self, stage: &str) -> (r: Vec<(String, String)>)
        ensures
            r.deep_view() == entries_of(self.deep_view().targets, stage@),
    {
        let ghost want = entries_of(self.targets.deep_view(), stage@);
        let mut out: Vec<(String, String)> = Vec::new();
        let mut i: usize = 0;
        proof {
            assert(out.deep_view() =~= want.take(0));
        }
        while i < self.targets.len()
            invariant
                want == entries_of(self.targets.deep_view(), stage@),
                i <= self.targets@.len(),
                out.deep_view() == want.take(i as int),
            decreases self.targets@.len() - i,
        {
            let ghost before = out.deep_view();
            let name: String = cat2("app-", self.targets[i].as_str());
            let file: String = cat3(stage, "/", name.as_str());
            let ghost e = (file@, name@);
            out.push((file, name));
            proof {
                assert(out.deep_view() =~= before.push(e));
                assert(want[i as int] == e);
                assert(want.take(i + 1) =~= want.take(i as int).push(e));
            }
            i = i + 1;
        }
        proof {
            assert(want.take(i as int) =~= want);
        }
        out
    }
}

pub open spec fn entries_of(targets: Seq<Seq<char>>, stage: Seq<char>) -> Seq<(Seq<char>, Seq<char>)> {
    Seq::new(targets.len(), |i: int| (stage + "/"@ + ("app-"@ + targets[i]), "app-"@ + targets[i]))
}

/// The environment that a build is compiled in, so that its version is sealed in
/// it.
pub open spec fn sealed_env(t: BuildTagView) -> Seq<(Seq<char>, Seq<char>)> {
    let tag = seq![("ATHENA_VERSION_TAG"@, t.tag)];
    let commit = match t.commit {
        Some(c) => tag.push(("ATHENA_GIT_COMMIT"@, c)),
        None => tag,
    };
    if t.dirty {
        commit.push(("ATHENA_GIT_DIRTY"@, "true"@))
    } else {
        commit
    }
}

/// The environment that a build is compiled in.
pub fn build_env(t: &BuildTag) -> (r: Vec<(String, String)>)
    ensures
        r.deep_view() == sealed_env(t.deep_view()),
{
    let mut v: Vec<(String, String)> = Vec::new();
    v.push(("ATHENA_VERSION_TAG".to_owned(), t.tag.clone()));
    proof {
        assert(v.deep_view() =~= seq![("ATHENA_VERSION_TAG"@, t.tag@)]);
    }
    match &t.commit {
        Some(c) => {
            let ghost before = v.deep_view();
            v.push(("ATHENA_GIT_COMMIT".to_owned(), c.clone()));
            proof {
                assert(v.deep_view() =~= before.push(("ATHENA_GIT_COMMIT"@, c@)));
            }
        },
        None => {},
    }
    if t.dirty {
        let ghost before = v.deep_view();
        v.push(("ATHENA_GIT_DIRTY".to_owned(), "true".to_owned()));
        proof {
            assert(v.deep_view() =~= before.push(("ATHENA_GIT_DIRTY"@, "true"@)));
        }
    }
    v
}

pub const ZIG_HEAD: &'static str =
    "`cargo athena build` cross-compiles with the Zig toolchain, which is missing:\n";

pub const NO_ZIGBUILD: &'static str = "  - cargo-zigbuild  ->  cargo install cargo-zigbuild\n";

pub const NO_ZIG: &'static str =
    "  - zig             ->  https://ziglang.org/download/  (or `pip install ziglang`, or your package manager)\n";

pub const ZIG_TAIL: &'static str =
    "(the repo's `nix develop` shell provides both. `cargo athena emit` and `--print` need neither.)";

/// What is missing of the tools that cross-compile; nothing where both are there.
pub fn preflight_zig(zigbuild: bool, zig: bool) -> (r: Option<String>)
    ensures
        r is None <==> zigbuild && zig,
        r matches Some(m) ==> m@ == ZIG_HEAD@ + (if zigbuild {
            Seq::empty()
        } else {
            NO_ZIGBUILD@
        }) + (if zig {
            Seq::empty()
        } else {
            NO_ZIG@
        }) + ZIG_TAIL@,
{
    if zigbuild && zig {
        return None;
    }
    let mut m: String = ZIG_HEAD.to_owned();
    if !zigbuild {
        m.append(NO_ZIGBUILD);
    }
    if !zig {
        m.append(NO_ZIG);
    }
    m.append(ZIG_TAIL);
    proof {
        assert(ZIG_HEAD@ + Seq::<char>::empty() =~= ZIG_HEAD@);
        assert(ZIG_HEAD@ + NO_ZIGBUILD@ + Seq::<char>::empty() =~= ZIG_HEAD@ + NO_ZIGBUILD@);
    }
    Some(m)
}

// ---- a tarball that was built before -------------------------------------------------------
/// Whether the tag of a tarball would be a guess: a development tag that nothing
/// names.
pub open spec fn is_guess(t: BuildTagView, dev_tag_given: bool, forced: Option<Seq<char>>) -> bool {
    t.channel == "dev"@ && !dev_tag_given && !(forced matches Some(f) && f.len() > 0)
}

/// Refuses to upload a tarball whose tag would be a guess.
pub fn refuse_guess(t: &BuildTag, dev_tag_given: bool, forced: &Option<String>) -> (r: Option<
    String,
>)
    ensures
        r is Some <==> is_guess(t.deep_view(), dev_tag_given, forced.deep_view()),
        r matches Some(m) ==> m@
            == "error: `publish --tarball` can't infer the prebuilt binary's dev tag from the current tree (it would guess `"@
            + t.deep_view().tag
            + "` from the working commit).\n  Pass the tag the tarball was built with: `--dev-tag <slot>`, or set `ATHENA_VERSION_TAG=<tag>`."@,
{
    let explicit: bool = match forced {
        Some(f) => !f.as_str().is_empty(),
        None => false,
    };
    if str_eq(t.channel, "dev") && !dev_tag_given && !explicit {
        Some(
            cat3(
                "error: `publish --tarball` can't infer the prebuilt binary's dev tag from the current tree (it would guess `",
                t.tag.as_str(),
                "` from the working commit).\n  Pass the tag the tarball was built with: `--dev-tag <slot>`, or set `ATHENA_VERSION_TAG=<tag>`.",
            ),
        )
    } else {
        None
    }
}

// ---- laws ----------------------------------------------------------------------------------
/// The key that a build is uploaded to is the key that its binary puts into the
/// templates, which it makes from the tag that was sealed in it.
pub proof fn law_uploaded_where_it_is_read(
    cfg: AthenaConfigView,
    package: PackageView,
    bin: Option<Seq<char>>,
    targets: Seq<Seq<char>>,
    gate: GateArgsView,
    gated: bool,
    st: Option<GitStateView>,
    forced: Option<Seq<char>>,
)
    ensures
        build_in(
            resolved(
                package.version,
                gate.dev_tag,
                gate.allow_dirty,
                gate.yes,
                gated,
                st,
                forced,
            ),
        ) matches Some(t) ==> (t.tag.len() > 0 ==> plan_of(cfg, package, bin, targets, t).s3.key
            == key_of(
            package.name,
            sealed_tag(Some(t.tag), package.version),
            bin_of(bin, package.name),
        )),
{
    law_sealed_as_resolved(
        package.version,
        gate.dev_tag,
        gate.allow_dirty,
        gate.yes,
        gated,
        st,
        forced,
    );
}

/// Two builds of one binary with different tags have different keys, so that none
/// overwrites the other.
pub proof fn law_tags_keep_keys_apart(pkg: Seq<char>, a: Seq<char>, b: Seq<char>, bin: Seq<char>)
    requires
        a != b,
    ensures
        key_of(pkg, a, bin) != key_of(pkg, b, bin),
{
    let ka = key_of(pkg, a, bin);
    let kb = key_of(pkg, b, bin);
    if ka == kb {
        reveal_strlit("/");
        assert("/"@.len() == 1);
        let n = pkg.len() as int + 1;
        assert(ka.subrange(n, n + a.len()) =~= a);
        assert(kb.subrange(n, n + b.len()) =~= b);
        assert(ka.len() == pkg.len() + 1 + a.len() + 1 + bin.len() + ".tar.gz"@.len());
        assert(kb.len() == pkg.len() + 1 + b.len() + 1 + bin.len() + ".tar.gz"@.len());
        assert(a =~= b);
    }
}

} // verus!
