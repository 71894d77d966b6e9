//! The project's configuration.

use crate::maps::Data;
use vstd::prelude::*;

verus! {

/// A key in a Secret.
#[derive(Debug, PartialEq)]
pub struct SecretRef {
    pub name: String,
    pub key: String,
}

#[verifier::ext_equal]
pub struct SecretRefView {
    pub name: Seq<char>,
    pub key: Seq<char>,
}

impl DeepView for SecretRef {
    type V = SecretRefView;

    open spec fn deep_view(&self) -> SecretRefView {
        SecretRefView {
            name: self.name@,
            key: self.key@,
        }
    }
}

impl Data for SecretRef {
    fn same(&self, other: &Self) -> (r: bool) {
        self.name.same(&other.name)
            && self.key.same(&other.key)
    }

    fn dup(&self) -> (r: Self) {
        SecretRef {
            name: self.name.dup(),
            key: self.key.dup(),
        }
    }
}

/// Where artifacts are stored.
#[derive(Debug, PartialEq)]
pub struct S3Repo {
    pub endpoint: String,
    pub bucket: String,
    pub region: String,
    pub insecure: bool,
    pub access_key_secret: SecretRef,
    pub secret_key_secret: SecretRef,
}

#[verifier::ext_equal]
pub struct S3RepoView {
    pub endpoint: Seq<char>,
    pub bucket: Seq<char>,
    pub region: Seq<char>,
    pub insecure: bool,
    pub access_key_secret: SecretRefView,
    pub secret_key_secret: SecretRefView,
}

impl DeepView for S3Repo {
    type V = S3RepoView;

    open spec fn deep_view(&self) -> S3RepoView {
        S3RepoView {
            endpoint: self.endpoint@,
            bucket: self.bucket@,
            region: self.region@,
            insecure: self.insecure,
            access_key_secret: self.access_key_secret.deep_view(),
            secret_key_secret: self.secret_key_secret.deep_view(),
        }
    }
}

impl Data for S3Repo {
    fn same(&self, other: &Self) -> (r: bool) {
        self.endpoint.same(&other.endpoint)
            && self.bucket.same(&other.bucket)
            && self.region.same(&other.region)
            && self.insecure.same(&other.insecure)
            && self.access_key_secret.same(&other.access_key_secret)
            && self.secret_key_secret.same(&other.secret_key_secret)
    }

    fn dup(&self) -> (r: Self) {
        S3Repo {
            endpoint: self.endpoint.dup(),
            bucket: self.bucket.dup(),
            region: self.region.dup(),
            insecure: self.insecure.dup(),
            access_key_secret: self.access_key_secret.dup(),
            secret_key_secret: self.secret_key_secret.dup(),
        }
    }
}

#[derive(Debug, PartialEq)]
pub struct ArtifactRepository {
    pub s3: S3Repo,
}

#[verifier::ext_equal]
pub struct ArtifactRepositoryView {
    pub s3: S3RepoView,
}

impl DeepView for ArtifactRepository {
    type V = ArtifactRepositoryView;

    open spec fn deep_view(&self) -> ArtifactRepositoryView {
        ArtifactRepositoryView {
            s3: self.s3.deep_view(),
        }
    }
}

impl Data for ArtifactRepository {
    fn same(&self, other: &Self) -> (r: bool) {
        self.s3.same(&other.s3)
    }

    fn dup(&self) -> (r: Self) {
        ArtifactRepository {
            s3: self.s3.dup(),
        }
    }
}

/// How pods start: the image of a container that names none, and the targets that binaries are built for.
#[derive(Debug, PartialEq)]
pub struct Bootstrap {
    pub default_image: String,
    pub targets: Vec<String>,
}

#[verifier::ext_equal]
pub struct BootstrapView {
    pub default_image: Seq<char>,
    pub targets: Seq<Seq<char>>,
}

impl DeepView for Bootstrap {
    type V = BootstrapView;

    open spec fn deep_view(&self) -> BootstrapView {
        BootstrapView {
            default_image: self.default_image@,
            targets: self.targets.deep_view(),
        }
    }
}

impl Data for Bootstrap {
    fn same(&self, other: &Self) -> (r: bool) {
        self.default_image.same(&other.default_image)
            && self.targets.same(&other.targets)
    }

    fn dup(&self) -> (r: Self) {
        Bootstrap {
            default_image: self.default_image.dup(),
            targets: self.targets.dup(),
        }
    }
}

/// What is assumed where neither a flag nor an attribute says otherwise.
#[derive(Debug, PartialEq)]
pub struct Defaults {
    pub service_account: String,
    pub package: Option<String>,
    pub bin: Option<String>,
    pub namespace: Option<String>,
}

#[verifier::ext_equal]
pub struct DefaultsView {
    pub service_account: Seq<char>,
    pub package: Option<Seq<char>>,
    pub bin: Option<Seq<char>>,
    pub namespace: Option<Seq<char>>,
}

impl DeepView for Defaults {
    type V = DefaultsView;

    open spec fn deep_view(&self) -> DefaultsView {
        DefaultsView {
            service_account: self.service_account@,
            package: self.package.deep_view(),
            bin: self.bin.deep_view(),
            namespace: self.namespace.deep_view(),
        }
    }
}

impl Data for Defaults {
    fn same(&self, other: &Self) -> (r: bool) {
        self.service_account.same(&other.service_account)
            && self.package.same(&other.package)
            && self.bin.same(&other.bin)
            && self.namespace.same(&other.namespace)
    }

    fn dup(&self) -> (r: Self) {
        Defaults {
            service_account: self.service_account.dup(),
            package: self.package.dup(),
            bin: self.bin.dup(),
            namespace: self.namespace.dup(),
        }
    }
}

/// The project's configuration, as `athena.toml` holds it.
#[derive(Debug, PartialEq)]
pub struct AthenaConfig {
    pub artifact_repository: ArtifactRepository,
    pub bootstrap: Bootstrap,
    pub defaults: Defaults,
}

#[verifier::ext_equal]
pub struct AthenaConfigView {
    pub artifact_repository: ArtifactRepositoryView,
    pub bootstrap: BootstrapView,
    pub defaults: DefaultsView,
}

impl DeepView for AthenaConfig {
    type V = AthenaConfigView;

    open spec fn deep_view(&self) -> AthenaConfigView {
        AthenaConfigView {
            artifact_repository: self.artifact_repository.deep_view(),
            bootstrap: self.bootstrap.deep_view(),
            defaults: self.defaults.deep_view(),
        }
    }
}

impl Data for AthenaConfig {
    fn same(&self, other: &Self) -> (r: bool) {
        self.artifact_repository.same(&other.artifact_repository)
            && self.bootstrap.same(&other.bootstrap)
            && self.defaults.same(&other.defaults)
    }

    fn dup(&self) -> (r: Self) {
        AthenaConfig {
            artifact_repository: self.artifact_repository.dup(),
            bootstrap: self.bootstrap.dup(),
            defaults: self.defaults.dup(),
        }
    }
}

pub open spec fn default_bootstrap() -> BootstrapView {
    BootstrapView {
        default_image: "busybox:1.36-musl"@,
        targets: seq!["x86_64-unknown-linux-musl"@, "aarch64-unknown-linux-musl"@],
    }
}

pub open spec fn default_defaults() -> DefaultsView {
    DefaultsView { service_account: "default"@, package: None, bin: None, namespace: None }
}

impl Default for Bootstrap {
    fn default() -> (r: Self)
        ensures
            r.deep_view() == default_bootstrap(),
    {
        let mut targets: Vec<String> = Vec::new();
        targets.push("x86_64-unknown-linux-musl".to_owned());
        targets.push("aarch64-unknown-linux-musl".to_owned());
        let r: Bootstrap = Bootstrap { default_image: "busybox:1.36-musl".to_owned(), targets };
        proof {
            assert(r.deep_view() =~= default_bootstrap());
        }
        r
    }
}

impl Default for Defaults {
    fn default() -> (r: Self)
        ensures
            r.deep_view() == default_defaults(),
    {
        Defaults { service_account: "default".to_owned(), package: None, bin: None, namespace: None }
    }
}

// ---- where the configuration is --------------------------------------------------------
/// A place where the configuration may be, and whether there is a file.
pub struct Candidate {
    pub path: String,
    pub is_file: bool,
}

#[verifier::ext_equal]
pub struct CandidateView {
    pub path: Seq<char>,
    pub is_file: bool,
}

impl DeepView for Candidate {
    type V = CandidateView;

    open spec fn deep_view(&self) -> CandidateView {
        CandidateView { path: self.path@, is_file: self.is_file }
    }
}

pub const NO_CONFIG: &'static str =
    "athena.toml not found: set ATHENA_CONFIG or add athena.toml to the workspace (required by `cargo athena`)";

/// The first place with a file.
pub open spec fn first_file(cs: Seq<CandidateView>) -> Option<Seq<char>>
    decreases cs.len(),
{
    if cs.len() == 0 {
        None
    } else if cs[0].is_file {
        Some(cs[0].path)
    } else {
        first_file(cs.drop_first())
    }
}

/// Where the configuration is: where the command line says, where the environment
/// says, the nearest of the directories above, or the user's own.
pub open spec fn config_path(
    flag: Option<Seq<char>>,
    env: Option<Seq<char>>,
    above: Seq<CandidateView>,
    own: Option<CandidateView>,
) -> Option<Seq<char>> {
    match flag {
        Some(p) => Some(p),
        None => match env {
            Some(p) => Some(p),
            None => match first_file(above) {
                Some(p) => Some(p),
                None => match own {
                    Some(c) => if c.is_file {
                        Some(c.path)
                    } else {
                        None
                    },
                    None => None,
                },
            },
        },
    }
}

impl AthenaConfig {
    /// The first place with a file. `above` lists the directories from the current
    /// one upwards.
    pub fn find_upwards(above: &Vec<Candidate>) -> (r: Option<String>)
        ensures
            r.deep_view() == first_file(above.deep_view()),
    {
        let ghost all = above.deep_view();
        let mut i: usize = 0;
        proof {
            assert(all.skip(0) =~= all);
        }
        while i < above.len()
            invariant
                all == above.deep_view(),
                i <= above@.len(),
                first_file(all) == first_file(all.skip(i as int)),
            decreases above@.len() - i,
        {
            proof {
                assert(all.skip(i as int)[0] == above@[i as int].deep_view());
                assert(all.skip(i as int).drop_first() =~= all.skip(i + 1));
            }
            if above[i].is_file {
                return Some(above[i].path.clone());
            }
            i = i + 1;
        }
        None
    }

    /// Where the configuration is.
    pub fn resolve_config_path(
        flag: &Option<String>,
        env: &Option<String>,
        above: &Vec<Candidate>,
        own: &Option<Candidate>,
    ) -> (r: Option<String>)
        ensures
            r.deep_view() == config_path(
                flag.deep_view(),
                env.deep_view(),
                above.deep_view(),
                own.deep_view(),
            ),
    {
        match flag {
            Some(p) => {
                return Some(p.clone());
            },
            None => {},
        }
        match env {
            Some(p) => {
                return Some(p.clone());
            },
            None => {},
        }
        match AthenaConfig::find_upwards(above) {
            Some(p) => Some(p),
            None => match own {
                Some(c) => if c.is_file {
                    Some(c.path.clone())
                } else {
                    None
                },
                None => None,
            },
        }
    }
}

} // verus!
