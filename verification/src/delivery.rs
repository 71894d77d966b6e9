//! How a container's pod gets what it needs: the binary, its artifacts, and its
//! volumes.

use crate::api::{
    ArchiveStrategy, ArchiveStrategyView, Artifact, ArtifactView, EmptyDirVolumeSource,
    EmptyDirVolumeSourceView, HostPathVolumeSource, HostPathVolumeSourceView, NoneStrategy,
    NoneStrategyView, S3Artifact, S3ArtifactView, SecretKeySelector, SecretKeySelectorView, Volume,
    VolumeMount, VolumeMountView, VolumeView,
};
use crate::config::{AthenaConfig, S3Repo, S3RepoView};
use crate::context::{BuildCtx, BuildCtxView};
use crate::lower::IoKind;
use crate::munge::{
    host_mount, host_mount_path, host_volume, host_volume_name, in_artifact, in_artifact_path,
    opt_str, out_artifact, out_artifact_path,
};
use crate::names::{lowercase, to_lower};
use crate::text::{
    alnum, cat3, cat5, chars_of, halves, is_alnum, is_char, replace, replaced, split_once, str_eq,
    text_of, trim_by, trim_char,
};
use vstd::prelude::*;

verus! {

/// Scratch directory of every pod.
pub const ATHENA_DIR: &'static str = "/athena";

/// Where the binaries of the tarball land.
pub const ATHENA_BIN_DIR: &'static str = "/athena/bin";

/// Where a body writes a result that is passed inline.
pub const ATHENA_RESULT_FILE: &'static str = "/athena/result";

/// Where a body writes a result that is passed as an artifact.
pub const ATHENA_RESULT_ARTIFACT_FILE: &'static str = "/athena/result-artifact";

/// Where inputs that are artifacts land, one file per input.
pub const ATHENA_INPUT_ARTIFACT_DIR: &'static str = "/athena/in";

/// Volume name of the scratch directory.
pub const SCRATCH_VOLUME: &'static str = "athena-work";

/// Artifact name of the binary's tarball.
pub const ATHENA_DIST_ARTIFACT: &'static str = "athena-dist";

/// Environment variable that selects the container to run.
pub const CARGO_ATHENA_TEMPLATE_ENV: &'static str = "CARGO_ATHENA_TEMPLATE";

/// The script that a container starts with: it picks the binary of the machine's
/// architecture and replaces itself by it. It needs a POSIX shell and `uname`.
pub const BOOTSTRAP_TEMPLATE: &'static str = "set -eu
case \"$(uname -m)\" in
@@ARMS@@  *) echo \"athena: no binary for $(uname -m)\" >&2; exit 1 ;;
esac
chmod +x \"@@BIN_DIR@@/app-$__t\"
export CARGO_ATHENA_OUTPUT=\"@@OUTPUT_PATH@@\"
exec \"@@BIN_DIR@@/app-$__t\" \"$@\"
";

// ---- artifacts -------------------------------------------------------------------
/// The location `key` in the repository.
pub open spec fn s3_at(s3: S3RepoView, key: Seq<char>) -> S3ArtifactView {
    S3ArtifactView {
        endpoint: s3.endpoint,
        bucket: s3.bucket,
        region: s3.region,
        insecure: s3.insecure,
        key,
        access_key_secret: Some(
            SecretKeySelectorView {
                name: s3.access_key_secret.name,
                key: s3.access_key_secret.key,
                optional: false,
            },
        ),
        secret_key_secret: Some(
            SecretKeySelectorView {
                name: s3.secret_key_secret.name,
                key: s3.secret_key_secret.key,
                optional: false,
            },
        ),
    }
}

/// The location of the object `key`, with the repository's credentials.
pub fn s3_loc(s3: &S3Repo, key: &str) -> (r: S3Artifact)
    ensures
        r.deep_view() == s3_at(s3.deep_view(), key@),
{
    S3Artifact {
        endpoint: s3.endpoint.clone(),
        bucket: s3.bucket.clone(),
        region: s3.region.clone(),
        insecure: s3.insecure,
        key: key.to_owned(),
        access_key_secret: Some(
            SecretKeySelector {
                name: s3.access_key_secret.name.clone(),
                key: s3.access_key_secret.key.clone(),
                optional: false,
            },
        ),
        secret_key_secret: Some(
            SecretKeySelector {
                name: s3.secret_key_secret.name.clone(),
                key: s3.secret_key_secret.key.clone(),
                optional: false,
            },
        ),
    }
}

pub open spec fn dash_others(s: Seq<char>) -> Seq<char> {
    Seq::new(
        s.len(),
        |i: int|
            if is_alnum(s[i]) {
                s[i]
            } else {
                '-'
            },
    )
}

/// The artifact name of an object key: its letters and digits in lower case, and
/// `-` for everything else between them.
pub open spec fn ident_of(key: Seq<char>) -> Seq<char> {
    let s = lowercase(trim_by(dash_others(key), is_char('-')));
    if s.len() == 0 {
        seq!['a']
    } else {
        s
    }
}

fn artifact_ident(key: &str) -> (r: String)
    ensures
        r@ == ident_of(key@),
{
    let v: Vec<char> = chars_of(key);
    let mut out: Vec<char> = Vec::new();
    let mut i: usize = 0;
    while i < v.len()
        invariant
            v@ == key@,
            i <= v@.len(),
            out@ == dash_others(key@).take(i as int),
        decreases v@.len() - i,
    {
        if alnum(v[i]) {
            out.push(v[i]);
        } else {
            out.push('-');
        }
        i = i + 1;
        proof {
            assert(out@ =~= dash_others(key@).take(i as int));
        }
    }
    proof {
        assert(out@ =~= dash_others(key@));
    }
    let t: String = text_of(&out);
    let u: String = trim_char(t.as_str(), '-');
    let s: String = to_lower(u.as_str());
    if s.as_str().is_empty() {
        let mut a: String = String::new();
        a.push('a');
        proof {
            assert(a@ =~= seq!['a']);
        }
        a
    } else {
        s
    }
}

/// An artifact that is stored as it is, without an archive around it.
pub open spec fn raw_artifact(s3: S3RepoView, key: Seq<char>, path: Seq<char>) -> ArtifactView {
    ArtifactView {
        name: ident_of(key),
        path,
        s3: Some(s3_at(s3, key)),
        archive: Some(ArchiveStrategyView { none: Some(NoneStrategyView {  }) }),
        mode: None,
        from: Seq::empty(),
    }
}

pub open spec fn inputs_at(s3: S3RepoView, keys: Seq<Seq<char>>) -> Seq<ArtifactView> {
    Seq::new(keys.len(), |i: int| raw_artifact(s3, keys[i], in_artifact(keys[i])))
}

pub open spec fn outputs_at(s3: S3RepoView, keys: Seq<Seq<char>>) -> Seq<ArtifactView> {
    Seq::new(keys.len(), |i: int| raw_artifact(s3, keys[i], out_artifact(keys[i])))
}

fn make_raw(s3: &S3Repo, key: &str, path: String) -> (r: Artifact)
    ensures
        r.deep_view() == raw_artifact(s3.deep_view(), key@, path@),
{
    Artifact {
        name: artifact_ident(key),
        path,
        s3: Some(s3_loc(s3, key)),
        archive: Some(ArchiveStrategy { none: Some(NoneStrategy {  }) }),
        mode: None,
        from: String::new(),
    }
}

/// The input artifacts of `load_artifact!("key")`: the object `key` as a file.
pub fn artifact_inputs(ctx: &BuildCtx, keys: &Vec<String>) -> (r: Vec<Artifact>)
    ensures
        r.deep_view() == inputs_at(
            ctx.deep_view().config.artifact_repository.s3,
            keys.deep_view(),
        ),
{
    let s3: &S3Repo = &ctx.config().artifact_repository.s3;
    let ghost want = inputs_at(s3.deep_view(), keys.deep_view());
    let mut out: Vec<Artifact> = Vec::new();
    let mut i: usize = 0;
    proof {
        assert(out.deep_view() =~= want.take(0));
    }
    while i < keys.len()
        invariant
            want == inputs_at(s3.deep_view(), keys.deep_view()),
            i <= keys@.len(),
            out.deep_view() == want.take(i as int),
        decreases keys@.len() - i,
    {
        let k: &str = keys[i].as_str();
        let a: Artifact = make_raw(s3, k, in_artifact_path(k));
        let ghost av = a.deep_view();
        let ghost before = out.deep_view();
        out.push(a);
        proof {
            assert(out.deep_view() =~= before.push(av));
            assert(out.deep_view() =~= want.take(i + 1));
        }
        i = i + 1;
    }
    proof {
        assert(want.take(i as int) =~= want);
    }
    out
}

/// The output artifacts of `save_artifact!("key")`: the file as the object `key`.
pub fn artifact_outputs(ctx: &BuildCtx, keys: &Vec<String>) -> (r: Vec<Artifact>)
    ensures
        r.deep_view() == outputs_at(
            ctx.deep_view().config.artifact_repository.s3,
            keys.deep_view(),
        ),
{
    let s3: &S3Repo = &ctx.config().artifact_repository.s3;
    let ghost want = outputs_at(s3.deep_view(), keys.deep_view());
    let mut out: Vec<Artifact> = Vec::new();
    let mut i: usize = 0;
    proof {
        assert(out.deep_view() =~= want.take(0));
    }
    while i < keys.len()
        invariant
            want == outputs_at(s3.deep_view(), keys.deep_view()),
            i <= keys@.len(),
            out.deep_view() == want.take(i as int),
        decreases keys@.len() - i,
    {
        let k: &str = keys[i].as_str();
        let a: Artifact = make_raw(s3, k, out_artifact_path(k));
        let ghost av = a.deep_view();
        let ghost before = out.deep_view();
        out.push(a);
        proof {
            assert(out.deep_view() =~= before.push(av));
            assert(out.deep_view() =~= want.take(i + 1));
        }
        i = i + 1;
    }
    proof {
        assert(want.take(i as int) =~= want);
    }
    out
}

// ---- the binary ------------------------------------------------------------------
/// What starts a container: its image, its command, and the binary's artifact.
pub struct ContainerDelivery {
    pub image: String,
    pub command: Vec<String>,
    pub args: Vec<String>,
    pub artifact: Artifact,
}

#[verifier::ext_equal]
pub struct DeliveryView {
    pub image: Seq<char>,
    pub command: Seq<Seq<char>>,
    pub args: Seq<Seq<char>>,
    pub artifact: ArtifactView,
}

impl DeepView for ContainerDelivery {
    type V = DeliveryView;

    open spec fn deep_view(&self) -> DeliveryView {
        DeliveryView {
            image: self.image@,
            command: self.command.deep_view(),
            args: self.args.deep_view(),
            artifact: self.artifact.deep_view(),
        }
    }
}

/// The architecture of a target: what stands before its first `-`.
pub open spec fn arch_of(triple: Seq<char>) -> Seq<char> {
    match halves(triple, '-') {
        Some((a, _)) => a,
        None => triple,
    }
}

/// The script's case for one target; 64-bit ARM goes by two names.
pub open spec fn arm_for(triple: Seq<char>) -> Seq<char> {
    let pat = if arch_of(triple) == "aarch64"@ {
        "aarch64|arm64"@
    } else {
        arch_of(triple)
    };
    "  "@ + pat + ") __t="@ + triple + " ;;\n"@
}

pub open spec fn arms_for(targets: Seq<Seq<char>>) -> Seq<char>
    decreases targets.len(),
{
    if targets.len() == 0 {
        Seq::empty()
    } else {
        arms_for(targets.drop_last()) + arm_for(targets.last())
    }
}

pub open spec fn output_path(kind: IoKind) -> Seq<char> {
    match kind {
        IoKind::Parameter => ATHENA_RESULT_FILE@,
        IoKind::Artifact => ATHENA_RESULT_ARTIFACT_FILE@,
    }
}

/// The script of a container for these targets.
pub open spec fn script_for(targets: Seq<Seq<char>>, kind: IoKind) -> Seq<char> {
    replaced(
        replaced(
            replaced(BOOTSTRAP_TEMPLATE@, "@@ARMS@@"@, arms_for(targets)),
            "@@BIN_DIR@@"@,
            ATHENA_BIN_DIR@,
        ),
        "@@OUTPUT_PATH@@"@,
        output_path(kind),
    )
}

pub open spec fn dist_artifact(ctx: BuildCtxView) -> ArtifactView {
    ArtifactView {
        name: ATHENA_DIST_ARTIFACT@,
        path: ATHENA_BIN_DIR@,
        s3: Some(s3_at(ctx.config.artifact_repository.s3, ctx.artifact_key)),
        archive: None,
        mode: None,
        from: Seq::empty(),
    }
}

/// What starts a container that gets `argv` on its command line.
pub open spec fn delivery_of(
    ctx: BuildCtxView,
    argv: Seq<Seq<char>>,
    image: Option<Seq<char>>,
    kind: IoKind,
) -> DeliveryView {
    DeliveryView {
        image: match image {
            Some(i) => i,
            None => ctx.config.bootstrap.default_image,
        },
        command: seq!["/bin/sh"@, "-c"@],
        args: seq![script_for(ctx.config.bootstrap.targets, kind), "--"@] + argv,
        artifact: dist_artifact(ctx),
    }
}

pub open spec fn param_ref(n: Seq<char>) -> Seq<char> {
    "{{inputs.parameters."@ + n + "}}"@
}

pub open spec fn param_refs(names: Seq<Seq<char>>) -> Seq<Seq<char>> {
    Seq::new(names.len(), |i: int| param_ref(names[i]))
}

fn case_arms(targets: &Vec<String>) -> (r: String)
    ensures
        r@ == arms_for(targets.deep_view()),
{
    let ghost all = targets.deep_view();
    let mut out: String = String::new();
    let mut i: usize = 0;
    proof {
        assert(all.take(0) =~= Seq::<Seq<char>>::empty());
    }
    while i < targets.len()
        invariant
            all == targets.deep_view(),
            i <= targets@.len(),
            out@ == arms_for(all.take(i as int)),
        decreases targets@.len() - i,
    {
        let triple: &str = targets[i].as_str();
        let arch: String = match split_once(triple, '-') {
            Some((a, _)) => a,
            None => targets[i].clone(),
        };
        let pat: &str = if str_eq(arch.as_str(), "aarch64") {
            "aarch64|arm64"
        } else {
            arch.as_str()
        };
        let arm: String = cat5("  ", pat, ") __t=", triple, " ;;\n");
        out.append(arm.as_str());
        proof {
            assert(all.take(i + 1).drop_last() =~= all.take(i as int));
            assert(all.take(i + 1).last() == targets@[i as int]@);
        }
        i = i + 1;
    }
    proof {
        assert(all.take(i as int) =~= all);
    }
    out
}

/// What starts a container that gets `argv` on its command line. The image is the
/// override, else the configured one.
pub fn delivery_with_argv(
    ctx: &BuildCtx,
    argv: &Vec<String>,
    image_override: Option<&str>,
    output_kind: IoKind,
) -> (r: ContainerDelivery)
    ensures
        r.deep_view() == delivery_of(
            ctx.deep_view(),
            argv.deep_view(),
            opt_str(image_override),
            output_kind,
        ),
{
    let cfg: &AthenaConfig = ctx.config();
    let image: String = match image_override {
        Some(i) => i.to_owned(),
        None => cfg.bootstrap.default_image.clone(),
    };
    let arms: String = case_arms(&cfg.bootstrap.targets);
    let path: &str = match output_kind {
        IoKind::Parameter => ATHENA_RESULT_FILE,
        IoKind::Artifact => ATHENA_RESULT_ARTIFACT_FILE,
    };
    let s1: String = replace(BOOTSTRAP_TEMPLATE, "@@ARMS@@", arms.as_str());
    let s2: String = replace(s1.as_str(), "@@BIN_DIR@@", ATHENA_BIN_DIR);
    let script: String = replace(s2.as_str(), "@@OUTPUT_PATH@@", path);
    let ghost sv = script@;
    let mut args: Vec<String> = Vec::new();
    args.push(script);
    args.push("--".to_owned());
    let ghost head = args.deep_view();
    let ghost av = argv.deep_view();
    let mut i: usize = 0;
    proof {
        assert(head =~= seq![sv, "--"@]);
        assert(args.deep_view() =~= head + av.take(0));
    }
    while i < argv.len()
        invariant
            av == argv.deep_view(),
            i <= argv@.len(),
            args.deep_view() == head + av.take(i as int),
        decreases argv@.len() - i,
    {
        let ghost before = args.deep_view();
        args.push(argv[i].clone());
        proof {
            assert(args.deep_view() =~= before.push(argv@[i as int]@));
            assert(args.deep_view() =~= head + av.take(i + 1));
        }
        i = i + 1;
    }
    proof {
        assert(av.take(i as int) =~= av);
    }
    let mut command: Vec<String> = Vec::new();
    command.push("/bin/sh".to_owned());
    command.push("-c".to_owned());
    proof {
        assert(command.deep_view() =~= seq!["/bin/sh"@, "-c"@]);
    }
    let artifact: Artifact = Artifact {
        name: ATHENA_DIST_ARTIFACT.to_owned(),
        path: ATHENA_BIN_DIR.to_owned(),
        s3: Some(s3_loc(&cfg.artifact_repository.s3, ctx.artifact_key())),
        archive: None,
        mode: None,
        from: String::new(),
    };
    ContainerDelivery { image, command, args, artifact }
}

/// What starts a container whose parameters are `param_names`: each stands on the
/// command line, in order.
pub fn container_delivery(
    ctx: &BuildCtx,
    param_names: &Vec<String>,
    image_override: Option<&str>,
    output_kind: IoKind,
) -> (r: ContainerDelivery)
    ensures
        r.deep_view() == delivery_of(
            ctx.deep_view(),
            param_refs(param_names.deep_view()),
            opt_str(image_override),
            output_kind,
        ),
{
    let ghost want = param_refs(param_names.deep_view());
    let mut argv: Vec<String> = Vec::new();
    let mut i: usize = 0;
    proof {
        assert(argv.deep_view() =~= want.take(0));
    }
    while i < param_names.len()
        invariant
            want == param_refs(param_names.deep_view()),
            i <= param_names@.len(),
            argv.deep_view() == want.take(i as int),
        decreases param_names@.len() - i,
    {
        let ghost before = argv.deep_view();
        let p: String = cat3("{{inputs.parameters.", param_names[i].as_str(), "}}");
        let ghost pv = p@;
        argv.push(p);
        proof {
            assert(argv.deep_view() =~= before.push(pv));
            assert(argv.deep_view() =~= want.take(i + 1));
        }
        i = i + 1;
    }
    proof {
        assert(want.take(i as int) =~= want);
    }
    delivery_with_argv(ctx, &argv, image_override, output_kind)
}

/// The service account of a container: the override, else the configured one.
pub fn service_account(ctx: &BuildCtx, over: Option<&str>) -> (r: String)
    ensures
        r@ == match over {
            Some(s) => s@,
            None => ctx.deep_view().config.defaults.service_account,
        },
{
    match over {
        Some(s) => s.to_owned(),
        None => ctx.config().defaults.service_account.clone(),
    }
}

// ---- volumes ----------------------------------------------------------------------
pub open spec fn host_volume_view(path: Seq<char>) -> VolumeView {
    VolumeView {
        name: host_volume(path),
        host_path: Some(HostPathVolumeSourceView { path, path_type: Seq::empty() }),
        empty_dir: None,
        persistent_volume_claim: None,
    }
}

pub open spec fn mount_view(path: Seq<char>, at: Seq<char>, read_only: bool) -> VolumeMountView {
    VolumeMountView { name: host_volume(path), mount_path: at, read_only }
}

pub open spec fn host_volumes(paths: Seq<Seq<char>>) -> Seq<VolumeView> {
    Seq::new(paths.len(), |i: int| host_volume_view(paths[i]))
}

/// Host paths are mounted where they cannot cover what the image holds.
pub open spec fn host_mounts(paths: Seq<Seq<char>>) -> Seq<VolumeMountView> {
    Seq::new(paths.len(), |i: int| mount_view(paths[i], host_mount(paths[i]), false))
}

fn make_volume(path: &str) -> (r: Volume)
    ensures
        r.deep_view() == host_volume_view(path@),
{
    Volume {
        name: host_volume_name(path),
        host_path: Some(
            HostPathVolumeSource { path: path.to_owned(), path_type: String::new() },
        ),
        empty_dir: None,
        persistent_volume_claim: None,
    }
}

fn make_mount(path: &str, at: String, read_only: bool) -> (r: VolumeMount)
    ensures
        r.deep_view() == mount_view(path@, at@, read_only),
{
    VolumeMount { name: host_volume_name(path), mount_path: at, read_only }
}

/// The volumes and the mounts of host paths.
pub fn host_path_volumes(paths: &Vec<String>) -> (r: (Vec<Volume>, Vec<VolumeMount>))
    ensures
        r.0.deep_view() == host_volumes(paths.deep_view()),
        r.1.deep_view() == host_mounts(paths.deep_view()),
{
    let ghost wv = host_volumes(paths.deep_view());
    let ghost wm = host_mounts(paths.deep_view());
    let mut vols: Vec<Volume> = Vec::new();
    let mut mounts: Vec<VolumeMount> = Vec::new();
    let mut i: usize = 0;
    proof {
        assert(vols.deep_view() =~= wv.take(0));
        assert(mounts.deep_view() =~= wm.take(0));
    }
    while i < paths.len()
        invariant
            wv == host_volumes(paths.deep_view()),
            wm == host_mounts(paths.deep_view()),
            i <= paths@.len(),
            vols.deep_view() == wv.take(i as int),
            mounts.deep_view() == wm.take(i as int),
        decreases paths@.len() - i,
    {
        let p: &str = paths[i].as_str();
        let v: Volume = make_volume(p);
        let m: VolumeMount = make_mount(p, host_mount_path(p), false);
        let ghost vv = v.deep_view();
        let ghost mv = m.deep_view();
        let ghost v0 = vols.deep_view();
        let ghost m0 = mounts.deep_view();
        vols.push(v);
        mounts.push(m);
        proof {
            assert(vols.deep_view() =~= v0.push(vv));
            assert(mounts.deep_view() =~= m0.push(mv));
            assert(vols.deep_view() =~= wv.take(i + 1));
            assert(mounts.deep_view() =~= wm.take(i + 1));
        }
        i = i + 1;
    }
    proof {
        assert(wv.take(i as int) =~= wv);
        assert(wm.take(i as int) =~= wm);
    }
    (vols, mounts)
}

/// A host path, where it is mounted, and whether only for reading.
pub type MountText = (Seq<char>, Seq<char>, bool);

pub open spec fn mounts_path(ms: Seq<MountText>, p: Seq<char>) -> bool {
    exists|i: int| 0 <= i < ms.len() && (#[trigger] ms[i]).0 == p
}

pub open spec fn not_mounted(ms: Seq<MountText>) -> spec_fn(Seq<char>) -> bool {
    |p: Seq<char>| !mounts_path(ms, p)
}

pub open spec fn scratch_volume() -> VolumeView {
    VolumeView {
        name: SCRATCH_VOLUME@,
        host_path: None,
        empty_dir: Some(EmptyDirVolumeSourceView {  }),
        persistent_volume_claim: None,
    }
}

pub open spec fn scratch_mount() -> VolumeMountView {
    VolumeMountView { name: SCRATCH_VOLUME@, mount_path: ATHENA_DIR@, read_only: false }
}

pub open spec fn chosen_volumes(ms: Seq<MountText>) -> Seq<VolumeView> {
    Seq::new(ms.len(), |i: int| host_volume_view(ms[i].0))
}

pub open spec fn chosen_mounts(ms: Seq<MountText>) -> Seq<VolumeMountView> {
    Seq::new(ms.len(), |i: int| mount_view(ms[i].0, ms[i].1, ms[i].2))
}

/// The volumes of a container: the scratch directory, the host paths that no
/// chosen mount names, and the chosen mounts.
pub open spec fn volumes_of(paths: Seq<Seq<char>>, ms: Seq<MountText>) -> Seq<VolumeView> {
    seq![scratch_volume()] + host_volumes(paths.filter(not_mounted(ms))) + chosen_volumes(ms)
}

pub open spec fn mounts_of(paths: Seq<Seq<char>>, ms: Seq<MountText>) -> Seq<VolumeMountView> {
    seq![scratch_mount()] + host_mounts(paths.filter(not_mounted(ms))) + chosen_mounts(ms)
}

fn is_mounted(ms: &Vec<(String, String, bool)>, p: &str) -> (r: bool)
    ensures
        r == mounts_path(ms.deep_view(), p@),
{
    let ghost all = ms.deep_view();
    let mut i: usize = 0;
    while i < ms.len()
        invariant
            all == ms.deep_view(),
            i <= ms@.len(),
            forall|j: int| 0 <= j < i ==> (#[trigger] all[j]).0 != p@,
        decreases ms@.len() - i,
    {
        proof {
            assert(all[i as int].0 == ms@[i as int].0@);
        }
        if str_eq(ms[i].0.as_str(), p) {
            return true;
        }
        i = i + 1;
    }
    false
}

/// The volumes and the mounts of a container. A host path that a chosen mount
/// names too is mounted where that says.
pub fn container_volumes(paths: &Vec<String>, ms: &Vec<(String, String, bool)>) -> (r: (
    Vec<Volume>,
    Vec<VolumeMount>,
))
    ensures
        r.0.deep_view() == volumes_of(paths.deep_view(), ms.deep_view()),
        r.1.deep_view() == mounts_of(paths.deep_view(), ms.deep_view()),
{
    let ghost pv = paths.deep_view();
    let ghost mv = ms.deep_view();
    let ghost f = not_mounted(mv);
    let mut kept: Vec<String> = Vec::new();
    let mut i: usize = 0;
    proof {
        reveal(Seq::filter);
        assert(pv.take(0) =~= Seq::<Seq<char>>::empty());
        assert(kept.deep_view() =~= pv.take(0).filter(f));
    }
    while i < paths.len()
        invariant
            pv == paths.deep_view(),
            mv == ms.deep_view(),
            f == not_mounted(mv),
            i <= paths@.len(),
            kept.deep_view() == pv.take(i as int).filter(f),
        decreases paths@.len() - i,
    {
        proof {
            reveal(Seq::filter);
            assert(pv.take(i + 1).drop_last() =~= pv.take(i as int));
            assert(pv.take(i + 1).last() == paths@[i as int]@);
        }
        let ghost before = kept.deep_view();
        if !is_mounted(ms, paths[i].as_str()) {
            kept.push(paths[i].clone());
            proof {
                assert(kept.deep_view() =~= before.push(paths@[i as int]@));
            }
        }
        i = i + 1;
    }
    proof {
        assert(pv.take(i as int) =~= pv);
    }
    let (mut hv, mut hm) = host_path_volumes(&kept);
    let mut vols: Vec<Volume> = Vec::new();
    let mut mounts: Vec<VolumeMount> = Vec::new();
    vols.push(
        Volume {
            name: SCRATCH_VOLUME.to_owned(),
            host_path: None,
            empty_dir: Some(EmptyDirVolumeSource {  }),
            persistent_volume_claim: None,
        },
    );
    mounts.push(
        VolumeMount {
            name: SCRATCH_VOLUME.to_owned(),
            mount_path: ATHENA_DIR.to_owned(),
            read_only: false,
        },
    );
    proof {
        assert(vols.deep_view() =~= seq![scratch_volume()]);
        assert(mounts.deep_view() =~= seq![scratch_mount()]);
    }
    let ghost hvv = hv.deep_view();
    let ghost hmv = hm.deep_view();
    vols.append(&mut hv);
    mounts.append(&mut hm);
    let ghost v1 = seq![scratch_volume()] + hvv;
    let ghost m1 = seq![scratch_mount()] + hmv;
    let ghost wv = chosen_volumes(mv);
    let ghost wm = chosen_mounts(mv);
    proof {
        assert(vols.deep_view() =~= v1 + wv.take(0));
        assert(mounts.deep_view() =~= m1 + wm.take(0));
    }
    let mut k: usize = 0;
    while k < ms.len()
        invariant
            mv == ms.deep_view(),
            wv == chosen_volumes(mv),
            wm == chosen_mounts(mv),
            k <= ms@.len(),
            vols.deep_view() == v1 + wv.take(k as int),
            mounts.deep_view() == m1 + wm.take(k as int),
        decreases ms@.len() - k,
    {
        let v: Volume = make_volume(ms[k].0.as_str());
        let m: VolumeMount = make_mount(ms[k].0.as_str(), ms[k].1.clone(), ms[k].2);
        let ghost vv = v.deep_view();
        let ghost xv = m.deep_view();
        let ghost v0 = vols.deep_view();
        let ghost m0 = mounts.deep_view();
        vols.push(v);
        mounts.push(m);
        proof {
            assert(mv[k as int] == ms@[k as int].deep_view());
            assert(vols.deep_view() =~= v0.push(vv));
            assert(mounts.deep_view() =~= m0.push(xv));
            assert(vols.deep_view() =~= v1 + wv.take(k + 1));
            assert(mounts.deep_view() =~= m1 + wm.take(k + 1));
        }
        k = k + 1;
    }
    proof {
        assert(wv.take(k as int) =~= wv);
        assert(wm.take(k as int) =~= wm);
    }
    (vols, mounts)
}

/// A host path that a chosen mount names has no volume of its own beside the one
/// of that mount: what was asked for explicitly wins.
pub proof fn law_chosen_mount_wins(paths: Seq<Seq<char>>, ms: Seq<MountText>, i: int)
    requires
        0 <= i < volumes_of(paths, ms).len() - ms.len(),
        volumes_of(paths, ms)[i].host_path is Some,
    ensures
        !mounts_path(ms, volumes_of(paths, ms)[i].host_path->0.path),
{
    let f = not_mounted(ms);
    let kept = paths.filter(f);
    assert(i > 0);
    assert(volumes_of(paths, ms)[i] == host_volume_view(kept[i - 1]));
    paths.lemma_filter_pred(f, i - 1);
}

} // verus!
