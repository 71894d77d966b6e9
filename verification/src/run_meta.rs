//! What a runner has to know of a template.

use crate::api::{
    Artifact, ArtifactView, Parameter, ParameterView, Template, TemplateView, Volume, VolumeMount,
    VolumeMountView, VolumeView,
};
use crate::delivery::{ATHENA_DIR, ATHENA_DIST_ARTIFACT, SCRATCH_VOLUME};
use crate::config::{S3Repo, S3RepoView};
use crate::maps::Data;
use crate::text::{chars_of, str_eq, text_of};
use vstd::prelude::*;

verus! {

/// Where an object is stored.
#[derive(Debug, PartialEq)]
pub struct S3Ref {
    pub endpoint: String,
    pub bucket: String,
    pub region: String,
    pub insecure: bool,
    pub key: String,
}

#[verifier::ext_equal]
pub struct S3RefView {
    pub endpoint: Seq<char>,
    pub bucket: Seq<char>,
    pub region: Seq<char>,
    pub insecure: bool,
    pub key: Seq<char>,
}

impl DeepView for S3Ref {
    type V = S3RefView;

    open spec fn deep_view(&self) -> S3RefView {
        S3RefView {
            endpoint: self.endpoint@,
            bucket: self.bucket@,
            region: self.region@,
            insecure: self.insecure,
            key: self.key@,
        }
    }
}

impl Data for S3Ref {
    fn same(&self, other: &Self) -> (r: bool) {
        self.endpoint.same(&other.endpoint)
            && self.bucket.same(&other.bucket)
            && self.region.same(&other.region)
            && self.insecure.same(&other.insecure)
            && self.key.same(&other.key)
    }

    fn dup(&self) -> (r: Self) {
        S3Ref {
            endpoint: self.endpoint.dup(),
            bucket: self.bucket.dup(),
            region: self.region.dup(),
            insecure: self.insecure.dup(),
            key: self.key.dup(),
        }
    }
}

/// An artifact that stands at `path` in the container.
#[derive(Debug, PartialEq)]
pub struct ArtifactRef {
    pub s3: S3Ref,
    pub path: String,
}

#[verifier::ext_equal]
pub struct ArtifactRefView {
    pub s3: S3RefView,
    pub path: Seq<char>,
}

impl DeepView for ArtifactRef {
    type V = ArtifactRefView;

    open spec fn deep_view(&self) -> ArtifactRefView {
        ArtifactRefView {
            s3: self.s3.deep_view(),
            path: self.path@,
        }
    }
}

impl Data for ArtifactRef {
    fn same(&self, other: &Self) -> (r: bool) {
        self.s3.same(&other.s3)
            && self.path.same(&other.path)
    }

    fn dup(&self) -> (r: Self) {
        ArtifactRef {
            s3: self.s3.dup(),
            path: self.path.dup(),
        }
    }
}

/// An input parameter and its Rust type; the type is empty where it is not known.
#[derive(Debug, PartialEq)]
pub struct ParamRef {
    pub name: String,
    pub ty: String,
}

#[verifier::ext_equal]
pub struct ParamRefView {
    pub name: Seq<char>,
    pub ty: Seq<char>,
}

impl DeepView for ParamRef {
    type V = ParamRefView;

    open spec fn deep_view(&self) -> ParamRefView {
        ParamRefView {
            name: self.name@,
            ty: self.ty@,
        }
    }
}

impl Data for ParamRef {
    fn same(&self, other: &Self) -> (r: bool) {
        self.name.same(&other.name)
            && self.ty.same(&other.ty)
    }

    fn dup(&self) -> (r: Self) {
        ParamRef {
            name: self.name.dup(),
            ty: self.ty.dup(),
        }
    }
}

/// What a runner has to know of one template: its image, its command, its inputs and where its artifacts are.
#[derive(Debug, PartialEq)]
pub struct ContainerRunMeta {
    pub name: String,
    pub package: String,
    pub kind: String,
    pub synthetic: bool,
    pub image: String,
    pub command: Vec<String>,
    pub args: Vec<String>,
    pub work_dir: String,
    pub params: Vec<ParamRef>,
    pub binary_artifact: Option<ArtifactRef>,
    pub input_artifacts: Vec<ArtifactRef>,
    pub output_artifacts: Vec<ArtifactRef>,
    pub host_paths: Vec<String>,
    pub result_path: Option<String>,
}

#[verifier::ext_equal]
pub struct ContainerRunMetaView {
    pub name: Seq<char>,
    pub package: Seq<char>,
    pub kind: Seq<char>,
    pub synthetic: bool,
    pub image: Seq<char>,
    pub command: Seq<Seq<char>>,
    pub args: Seq<Seq<char>>,
    pub work_dir: Seq<char>,
    pub params: Seq<ParamRefView>,
    pub binary_artifact: Option<ArtifactRefView>,
    pub input_artifacts: Seq<ArtifactRefView>,
    pub output_artifacts: Seq<ArtifactRefView>,
    pub host_paths: Seq<Seq<char>>,
    pub result_path: Option<Seq<char>>,
}

impl DeepView for ContainerRunMeta {
    type V = ContainerRunMetaView;

    open spec fn deep_view(&self) -> ContainerRunMetaView {
        ContainerRunMetaView {
            name: self.name@,
            package: self.package@,
            kind: self.kind@,
            synthetic: self.synthetic,
            image: self.image@,
            command: self.command.deep_view(),
            args: self.args.deep_view(),
            work_dir: self.work_dir@,
            params: self.params.deep_view(),
            binary_artifact: self.binary_artifact.deep_view(),
            input_artifacts: self.input_artifacts.deep_view(),
            output_artifacts: self.output_artifacts.deep_view(),
            host_paths: self.host_paths.deep_view(),
            result_path: self.result_path.deep_view(),
        }
    }
}

impl Data for ContainerRunMeta {
    fn same(&self, other: &Self) -> (r: bool) {
        self.name.same(&other.name)
            && self.package.same(&other.package)
            && self.kind.same(&other.kind)
            && self.synthetic.same(&other.synthetic)
            && self.image.same(&other.image)
            && self.command.same(&other.command)
            && self.args.same(&other.args)
            && self.work_dir.same(&other.work_dir)
            && self.params.same(&other.params)
            && self.binary_artifact.same(&other.binary_artifact)
            && self.input_artifacts.same(&other.input_artifacts)
            && self.output_artifacts.same(&other.output_artifacts)
            && self.host_paths.same(&other.host_paths)
            && self.result_path.same(&other.result_path)
    }

    fn dup(&self) -> (r: Self) {
        ContainerRunMeta {
            name: self.name.dup(),
            package: self.package.dup(),
            kind: self.kind.dup(),
            synthetic: self.synthetic.dup(),
            image: self.image.dup(),
            command: self.command.dup(),
            args: self.args.dup(),
            work_dir: self.work_dir.dup(),
            params: self.params.dup(),
            binary_artifact: self.binary_artifact.dup(),
            input_artifacts: self.input_artifacts.dup(),
            output_artifacts: self.output_artifacts.dup(),
            host_paths: self.host_paths.dup(),
            result_path: self.result_path.dup(),
        }
    }
}

// ---- types for display -------------------------------------------------------------
/// The last character before `i` that is no blank.
pub open spec fn left_of(s: Seq<char>, i: int) -> Option<char>
    decreases i,
{
    if i <= 0 {
        None
    } else if s[i - 1] != ' ' {
        Some(s[i - 1])
    } else {
        left_of(s, i - 1)
    }
}

/// The first character from `i` on that is no blank.
pub open spec fn right_of(s: Seq<char>, i: int) -> Option<char>
    decreases s.len() - i,
{
    if i >= s.len() {
        None
    } else if s[i] != ' ' {
        Some(s[i])
    } else {
        right_of(s, i + 1)
    }
}

/// Whether the character at `i` is shown: all but a blank behind `<` or `,` or
/// before `<`, `>` or `,`.
pub open spec fn is_shown(s: Seq<char>, i: int) -> bool {
    s[i] != ' ' || !(left_of(s, i) == Some('<') || left_of(s, i) == Some(',') || right_of(s, i)
        == Some('<') || right_of(s, i) == Some('>') || right_of(s, i) == Some(','))
}

/// Those of the first `n` characters that are shown.
pub open spec fn shown(s: Seq<char>, n: int) -> Seq<char>
    decreases n,
{
    if n <= 0 {
        Seq::empty()
    } else if is_shown(s, n - 1) {
        shown(s, n - 1).push(s[n - 1])
    } else {
        shown(s, n - 1)
    }
}

/// A type's text without the blanks around `<` and `,` and before `>`.
pub open spec fn normal(s: Seq<char>) -> Seq<char> {
    shown(s, s.len() as int)
}

fn find_left(v: &Vec<char>, at: usize) -> (r: Option<char>)
    requires
        at <= v@.len(),
    ensures
        r == left_of(v@, at as int),
{
    let mut i: usize = at;
    while i > 0
        invariant
            i <= v@.len(),
            left_of(v@, at as int) == left_of(v@, i as int),
        decreases i,
    {
        if v[i - 1] != ' ' {
            return Some(v[i - 1]);
        }
        i = i - 1;
    }
    None
}

fn find_right(v: &Vec<char>, at: usize) -> (r: Option<char>)
    requires
        at <= v@.len(),
    ensures
        r == right_of(v@, at as int),
{
    let mut i: usize = at;
    while i < v.len()
        invariant
            i <= v@.len(),
            right_of(v@, at as int) == right_of(v@, i as int),
        decreases v@.len() - i,
    {
        if v[i] != ' ' {
            return Some(v[i]);
        }
        i = i + 1;
    }
    None
}

/// Writes a type as people do: `Vec<String>` for `Vec < String >`.
pub fn normalize_ty(s: &str) -> (r: String)
    ensures
        r@ == normal(s@),
{
    let v: Vec<char> = chars_of(s);
    let mut out: Vec<char> = Vec::new();
    let mut i: usize = 0;
    while i < v.len()
        invariant
            v@ == s@,
            i <= v@.len(),
            out@ == shown(v@, i as int),
        decreases v@.len() - i,
    {
        let c: char = v[i];
        let behind: bool = match find_left(&v, i) {
            Some(l) => l == '<' || l == ',',
            None => false,
        };
        let before: bool = match find_right(&v, i) {
            Some(r) => r == '<' || r == '>' || r == ',',
            None => false,
        };
        if c != ' ' || !(behind || before) {
            out.push(c);
        }
        i = i + 1;
    }
    text_of(&out)
}

// ---- from a template -----------------------------------------------------------------
impl S3RefView {
    pub open spec fn in_repo(repo: S3RepoView, key: Seq<char>) -> S3RefView {
        S3RefView {
            endpoint: repo.endpoint,
            bucket: repo.bucket,
            region: repo.region,
            insecure: repo.insecure,
            key,
        }
    }
}

impl S3Ref {
    /// The object `key` in the configured repository.
    pub fn from_repo(repo: &S3Repo, key: String) -> (r: S3Ref)
        ensures
            r.deep_view() == S3RefView::in_repo(repo.deep_view(), key@),
    {
        S3Ref {
            endpoint: repo.endpoint.clone(),
            bucket: repo.bucket.clone(),
            region: repo.region.clone(),
            insecure: repo.insecure,
            key,
        }
    }
}

/// Where an artifact is stored, where it says so.
pub open spec fn ref_for(a: ArtifactView) -> Option<ArtifactRefView> {
    match a.s3 {
        Some(s) => Some(
            ArtifactRefView {
                s3: S3RefView {
                    endpoint: s.endpoint,
                    bucket: s.bucket,
                    region: s.region,
                    insecure: s.insecure,
                    key: s.key,
                },
                path: a.path,
            },
        ),
        None => None,
    }
}

fn to_ref(a: &Artifact) -> (r: Option<ArtifactRef>)
    ensures
        r.deep_view() == ref_for(a.deep_view()),
{
    match &a.s3 {
        Some(s) => Some(
            ArtifactRef {
                s3: S3Ref {
                    endpoint: s.endpoint.clone(),
                    bucket: s.bucket.clone(),
                    region: s.region.clone(),
                    insecure: s.insecure,
                    key: s.key.clone(),
                },
                path: a.path.clone(),
            },
        ),
        None => None,
    }
}

/// The stored artifacts; without the binary's where `ports` holds.
pub open spec fn refs_in(arts: Seq<ArtifactView>, ports: bool) -> Seq<ArtifactRefView>
    decreases arts.len(),
{
    if arts.len() == 0 {
        Seq::empty()
    } else {
        let front = refs_in(arts.drop_last(), ports);
        if ports && arts.last().name == ATHENA_DIST_ARTIFACT@ {
            front
        } else {
            match ref_for(arts.last()) {
                Some(r) => front.push(r),
                None => front,
            }
        }
    }
}

fn collect_refs(arts: &Vec<Artifact>, ports: bool) -> (r: Vec<ArtifactRef>)
    ensures
        r.deep_view() == refs_in(arts.deep_view(), ports),
{
    let ghost all = arts.deep_view();
    let mut out: Vec<ArtifactRef> = Vec::new();
    let mut i: usize = 0;
    proof {
        assert(all.take(0) =~= Seq::<ArtifactView>::empty());
        assert(out.deep_view() =~= Seq::<ArtifactRefView>::empty());
    }
    while i < arts.len()
        invariant
            all == arts.deep_view(),
            i <= arts@.len(),
            out.deep_view() == refs_in(all.take(i as int), ports),
        decreases arts@.len() - i,
    {
        proof {
            assert(all.take(i + 1).drop_last() =~= all.take(i as int));
            assert(all.take(i + 1).last() == arts@[i as int].deep_view());
        }
        if !(ports && str_eq(arts[i].name.as_str(), ATHENA_DIST_ARTIFACT)) {
            match to_ref(&arts[i]) {
                Some(a) => {
                    let ghost before = out.deep_view();
                    let ghost av = a.deep_view();
                    out.push(a);
                    proof {
                        assert(out.deep_view() =~= before.push(av));
                    }
                },
                None => {},
            }
        }
        i = i + 1;
    }
    proof {
        assert(all.take(i as int) =~= all);
    }
    out
}

/// The first artifact called `name`.
pub open spec fn artifact_named(arts: Seq<ArtifactView>, name: Seq<char>) -> Option<ArtifactView>
    decreases arts.len(),
{
    if arts.len() == 0 {
        None
    } else if arts[0].name == name {
        Some(arts[0])
    } else {
        artifact_named(arts.drop_first(), name)
    }
}

fn find_artifact<'a>(arts: &'a Vec<Artifact>, name: &str) -> (r: Option<&'a Artifact>)
    ensures
        r.deep_view() == artifact_named(arts.deep_view(), name@),
{
    let ghost all = arts.deep_view();
    let mut i: usize = 0;
    proof {
        assert(all.skip(0) =~= all);
    }
    while i < arts.len()
        invariant
            all == arts.deep_view(),
            i <= arts@.len(),
            artifact_named(all, name@) == artifact_named(all.skip(i as int), name@),
        decreases arts@.len() - i,
    {
        proof {
            assert(all.skip(i as int)[0] == arts@[i as int].deep_view());
            assert(all.skip(i as int).drop_first() =~= all.skip(i + 1));
        }
        if str_eq(arts[i].name.as_str(), name) {
            return Some(&arts[i]);
        }
        i = i + 1;
    }
    None
}

/// Where the volume `name` is first mounted.
pub open spec fn mounted_at(ms: Seq<VolumeMountView>, name: Seq<char>) -> Option<Seq<char>>
    decreases ms.len(),
{
    if ms.len() == 0 {
        None
    } else if ms[0].name == name {
        Some(ms[0].mount_path)
    } else {
        mounted_at(ms.drop_first(), name)
    }
}

fn find_mount(ms: &Vec<VolumeMount>, name: &str) -> (r: Option<String>)
    ensures
        r.deep_view() == mounted_at(ms.deep_view(), name@),
{
    let ghost all = ms.deep_view();
    let mut i: usize = 0;
    proof {
        assert(all.skip(0) =~= all);
    }
    while i < ms.len()
        invariant
            all == ms.deep_view(),
            i <= ms@.len(),
            mounted_at(all, name@) == mounted_at(all.skip(i as int), name@),
        decreases ms@.len() - i,
    {
        proof {
            assert(all.skip(i as int)[0] == ms@[i as int].deep_view());
            assert(all.skip(i as int).drop_first() =~= all.skip(i + 1));
        }
        if str_eq(ms[i].name.as_str(), name) {
            return Some(ms[i].mount_path.clone());
        }
        i = i + 1;
    }
    None
}

/// The first parameter called `name`.
pub open spec fn param_named(ps: Seq<ParameterView>, name: Seq<char>) -> Option<ParameterView>
    decreases ps.len(),
{
    if ps.len() == 0 {
        None
    } else if ps[0].name == name {
        Some(ps[0])
    } else {
        param_named(ps.drop_first(), name)
    }
}

fn find_param<'a>(ps: &'a Vec<Parameter>, name: &str) -> (r: Option<&'a Parameter>)
    ensures
        r.deep_view() == param_named(ps.deep_view(), name@),
{
    let ghost all = ps.deep_view();
    let mut i: usize = 0;
    proof {
        assert(all.skip(0) =~= all);
    }
    while i < ps.len()
        invariant
            all == ps.deep_view(),
            i <= ps@.len(),
            param_named(all, name@) == param_named(all.skip(i as int), name@),
        decreases ps@.len() - i,
    {
        proof {
            assert(all.skip(i as int)[0] == ps@[i as int].deep_view());
            assert(all.skip(i as int).drop_first() =~= all.skip(i + 1));
        }
        if str_eq(ps[i].name.as_str(), name) {
            return Some(&ps[i]);
        }
        i = i + 1;
    }
    None
}

pub open spec fn host_paths_in(vs: Seq<VolumeView>) -> Seq<Seq<char>>
    decreases vs.len(),
{
    if vs.len() == 0 {
        Seq::empty()
    } else {
        let front = host_paths_in(vs.drop_last());
        match vs.last().host_path {
            Some(h) => front.push(h.path),
            None => front,
        }
    }
}

fn collect_host_paths(vs: &Vec<Volume>) -> (r: Vec<String>)
    ensures
        r.deep_view() == host_paths_in(vs.deep_view()),
{
    let ghost all = vs.deep_view();
    let mut out: Vec<String> = Vec::new();
    let mut i: usize = 0;
    proof {
        assert(all.take(0) =~= Seq::<VolumeView>::empty());
        assert(out.deep_view() =~= Seq::<Seq<char>>::empty());
    }
    while i < vs.len()
        invariant
            all == vs.deep_view(),
            i <= vs@.len(),
            out.deep_view() == host_paths_in(all.take(i as int)),
        decreases vs@.len() - i,
    {
        proof {
            assert(all.take(i + 1).drop_last() =~= all.take(i as int));
            assert(all.take(i + 1).last() == vs@[i as int].deep_view());
        }
        match &vs[i].host_path {
            Some(h) => {
                let ghost before = out.deep_view();
                out.push(h.path.clone());
                proof {
                    assert(out.deep_view() =~= before.push(h.path@));
                }
            },
            None => {},
        }
        i = i + 1;
    }
    proof {
        assert(all.take(i as int) =~= all);
    }
    out
}

pub open spec fn param_refs_in(ps: Seq<ParameterView>, types: Seq<Seq<char>>) -> Seq<ParamRefView> {
    Seq::new(
        ps.len(),
        |i: int|
            ParamRefView {
                name: ps[i].name,
                ty: if i < types.len() {
                    normal(types[i])
                } else {
                    Seq::empty()
                },
            },
    )
}

fn collect_params(ps: &Vec<Parameter>, types: &Vec<String>) -> (r: Vec<ParamRef>)
    ensures
        r.deep_view() == param_refs_in(ps.deep_view(), types.deep_view()),
{
    let ghost want = param_refs_in(ps.deep_view(), types.deep_view());
    let mut out: Vec<ParamRef> = Vec::new();
    let mut i: usize = 0;
    proof {
        assert(out.deep_view() =~= want.take(0));
    }
    while i < ps.len()
        invariant
            want == param_refs_in(ps.deep_view(), types.deep_view()),
            i <= ps@.len(),
            out.deep_view() == want.take(i as int),
        decreases ps@.len() - i,
    {
        let ty: String = if i < types.len() {
            normalize_ty(types[i].as_str())
        } else {
            String::new()
        };
        let p: ParamRef = ParamRef { name: ps[i].name.clone(), ty };
        let ghost pv = p.deep_view();
        let ghost before = out.deep_view();
        out.push(p);
        proof {
            assert(out.deep_view() =~= before.push(pv));
            assert(out.deep_view() =~= want.take(i + 1));
        }
        i = i + 1;
    }
    proof {
        assert(want.take(i as int) =~= want);
    }
    out
}

/// `container`, `workflow` or `other`.
pub open spec fn kind_text(t: TemplateView) -> Seq<char> {
    if t.container is Some {
        "container"@
    } else if t.dag is Some || t.steps.len() > 0 {
        "workflow"@
    } else {
        "other"@
    }
}

pub open spec fn result_file(t: TemplateView) -> Option<Seq<char>> {
    match t.outputs {
        Some(o) => match param_named(o.parameters, "return"@) {
            Some(p) => match p.value_from {
                Some(v) => if v.path.len() > 0 {
                    Some(v.path)
                } else {
                    None
                },
                None => None,
            },
            None => None,
        },
        None => None,
    }
}

/// What a runner has to know of the template `t`, whose input types are `types`.
/// The package and whether it is synthesized are left to the caller.
pub open spec fn meta_of(t: TemplateView, types: Seq<Seq<char>>) -> ContainerRunMetaView {
    let in_arts = match t.inputs {
        Some(i) => i.artifacts,
        None => Seq::empty(),
    };
    ContainerRunMetaView {
        name: t.name,
        package: Seq::empty(),
        kind: kind_text(t),
        synthetic: false,
        image: match t.container {
            Some(c) => c.image,
            None => Seq::empty(),
        },
        command: match t.container {
            Some(c) => c.command,
            None => Seq::empty(),
        },
        args: match t.container {
            Some(c) => c.args,
            None => Seq::empty(),
        },
        work_dir: match t.container {
            Some(c) => match mounted_at(c.volume_mounts, SCRATCH_VOLUME@) {
                Some(p) => p,
                None => ATHENA_DIR@,
            },
            None => ATHENA_DIR@,
        },
        params: match t.inputs {
            Some(i) => param_refs_in(i.parameters, types),
            None => Seq::empty(),
        },
        binary_artifact: match artifact_named(in_arts, ATHENA_DIST_ARTIFACT@) {
            Some(a) => ref_for(a),
            None => None,
        },
        input_artifacts: refs_in(in_arts, true),
        output_artifacts: match t.outputs {
            Some(o) => refs_in(o.artifacts, false),
            None => Seq::empty(),
        },
        host_paths: host_paths_in(t.volumes),
        result_path: result_file(t),
    }
}

fn no_texts() -> (r: Vec<String>)
    ensures
        r.deep_view() == Seq::<Seq<char>>::empty(),
{
    let r: Vec<String> = Vec::new();
    proof {
        assert(r.deep_view() =~= Seq::<Seq<char>>::empty());
    }
    r
}

fn no_refs() -> (r: Vec<ArtifactRef>)
    ensures
        r.deep_view() == Seq::<ArtifactRefView>::empty(),
{
    let r: Vec<ArtifactRef> = Vec::new();
    proof {
        assert(r.deep_view() =~= Seq::<ArtifactRefView>::empty());
    }
    r
}

impl ContainerRunMeta {
    /// Reads off a built template what a runner has to know of it. `types` are
    /// the types of its input parameters, in order.
    pub fn from_template(t: &Template, types: &Vec<String>) -> (r: ContainerRunMeta)
        ensures
            r.deep_view() == meta_of(t.deep_view(), types.deep_view()),
    {
        let kind: &str = if t.container.is_some() {
            "container"
        } else if t.dag.is_some() || t.steps.len() > 0 {
            "workflow"
        } else {
            "other"
        };
        let (image, command, args, work_dir) = match &t.container {
            Some(c) => (
                c.image.clone(),
                c.command.dup(),
                c.args.dup(),
                match find_mount(&c.volume_mounts, SCRATCH_VOLUME) {
                    Some(p) => p,
                    None => ATHENA_DIR.to_owned(),
                },
            ),
            None => (String::new(), no_texts(), no_texts(), ATHENA_DIR.to_owned()),
        };
        let (params, binary_artifact, input_artifacts) = match &t.inputs {
            Some(i) => (
                collect_params(&i.parameters, types),
                match find_artifact(&i.artifacts, ATHENA_DIST_ARTIFACT) {
                    Some(a) => to_ref(a),
                    None => None,
                },
                collect_refs(&i.artifacts, true),
            ),
            None => {
                let p: Vec<ParamRef> = Vec::new();
                proof {
                    assert(p.deep_view() =~= Seq::<ParamRefView>::empty());
                }
                (p, None, no_refs())
            },
        };
        let (output_artifacts, result_path) = match &t.outputs {
            Some(o) => {
                let path: Option<String> = match find_param(&o.parameters, "return") {
                    Some(p) => match &p.value_from {
                        Some(v) => if v.path.as_str().is_empty() {
                            None
                        } else {
                            Some(v.path.clone())
                        },
                        None => None,
                    },
                    None => None,
                };
                (collect_refs(&o.artifacts, false), path)
            },
            None => (no_refs(), None),
        };
        proof {
            assert(t.deep_view().steps.len() == t.steps@.len());
        }
        ContainerRunMeta {
            name: t.name.clone(),
            package: String::new(),
            kind: kind.to_owned(),
            synthetic: false,
            image,
            command,
            args,
            work_dir,
            params,
            binary_artifact,
            input_artifacts,
            output_artifacts,
            host_paths: collect_host_paths(&t.volumes),
            result_path,
        }
    }
}

} // verus!
