//! What templates are built from: the configuration, the binary and its object key,
//! the claims, and the fragments that container bodies call.

use crate::api::PersistentVolumeClaim;
use crate::ast::{Path, PathView};
use crate::claims::{
    claim_templates, find_regs, gather, gathered, make_claim_templates, reg_fn,
};
use crate::config::{AthenaConfig, AthenaConfigView};
use crate::folds::{add_all, law_add_all, lemma_add_all_cat, map_res};
use crate::maps::{Data, TextMap};
use crate::munge::{
    binary_key, channel, channel_of, key_of, LABEL_BIN, LABEL_CHANNEL, LABEL_COMMIT, LABEL_DIRTY,
    LABEL_PKG, LABEL_TAG, LABEL_TOOLCHAIN, LABEL_VERSION,
};
use crate::node::agrees;
use crate::pvc::{claim_fn, find_claims, PvcReg, PvcRegView};
use crate::text::{has_str, str_eq};
use vstd::prelude::*;

verus! {

/// A fragment: a helper function that declares what the pods that call it need.
pub struct FragmentReg {
    pub rust_name: String,
    pub host_paths: Vec<String>,
    pub in_artifacts: Vec<String>,
    pub out_artifacts: Vec<String>,
    /// Name, key, and whether the secret may be missing.
    pub secrets: Vec<(String, String, bool)>,
    pub pvc_argo_names: Vec<String>,
    pub callees: Vec<String>,
}

#[verifier::ext_equal]
pub struct FragmentView {
    pub rust_name: Seq<char>,
    pub host_paths: Seq<Seq<char>>,
    pub in_artifacts: Seq<Seq<char>>,
    pub out_artifacts: Seq<Seq<char>>,
    pub secrets: Seq<(Seq<char>, Seq<char>, bool)>,
    pub pvc_argo_names: Seq<Seq<char>>,
    pub callees: Seq<Seq<char>>,
}

impl DeepView for FragmentReg {
    type V = FragmentView;

    open spec fn deep_view(&self) -> FragmentView {
        FragmentView {
            rust_name: self.rust_name@,
            host_paths: self.host_paths.deep_view(),
            in_artifacts: self.in_artifacts.deep_view(),
            out_artifacts: self.out_artifacts.deep_view(),
            secrets: self.secrets.deep_view(),
            pvc_argo_names: self.pvc_argo_names.deep_view(),
            callees: self.callees.deep_view(),
        }
    }
}

// ---- the closure -----------------------------------------------------------------
/// The fragment called `name`; of two with one name, the later.
pub open spec fn fragment_at(frags: Seq<FragmentView>, name: Seq<char>) -> Option<FragmentView>
    decreases frags.len(),
{
    if frags.len() == 0 {
        None
    } else if frags.last().rust_name == name {
        Some(frags.last())
    } else {
        fragment_at(frags.drop_last(), name)
    }
}

/// How many fragments have not been visited.
pub open spec fn unvisited(frags: Seq<FragmentView>, visited: Seq<Seq<char>>) -> nat
    decreases frags.len(),
{
    if frags.len() == 0 {
        0
    } else {
        unvisited(frags.drop_last(), visited) + if visited.contains(frags.last().rust_name) {
            0nat
        } else {
            1nat
        }
    }
}

pub proof fn lemma_unvisited(frags: Seq<FragmentView>, visited: Seq<Seq<char>>, c: Seq<char>)
    ensures
        unvisited(frags, visited.push(c)) <= unvisited(frags, visited),
        !visited.contains(c) && fragment_at(frags, c) is Some ==> unvisited(frags, visited.push(c))
            < unvisited(frags, visited),
    decreases frags.len(),
{
    if frags.len() > 0 {
        lemma_unvisited(frags.drop_last(), visited, c);
        let n = frags.last().rust_name;
        assert(visited.push(c).contains(n) <==> visited.contains(n) || n == c) by {
            if visited.contains(n) {
                let i = choose|i: int| 0 <= i < visited.len() && visited[i] == n;
                assert(visited.push(c)[i] == n);
            }
            assert(visited.push(c)[visited.len() as int] == c);
            if visited.push(c).contains(n) && n != c {
                let i = choose|i: int|
                    0 <= i < visited.push(c).len() && visited.push(c)[i] == n;
                assert(visited[i] == n);
            }
        }
    }
}

/// The fragments that are reached from `queue`, taken from its end, without those
/// visited before.
pub open spec fn reached_from(
    frags: Seq<FragmentView>,
    queue: Seq<Seq<char>>,
    visited: Seq<Seq<char>>,
) -> Seq<FragmentView>
    decreases unvisited(frags, visited), queue.len(),
{
    if queue.len() == 0 {
        Seq::empty()
    } else {
        let c = queue.last();
        let rest = queue.drop_last();
        proof {
            lemma_unvisited(frags, visited, c);
        }
        if visited.contains(c) {
            reached_from(frags, rest, visited)
        } else {
            match fragment_at(frags, c) {
                Some(f) => seq![f] + reached_from(frags, rest + f.callees, visited.push(c)),
                None => reached_from(frags, rest, visited.push(c)),
            }
        }
    }
}

/// The fragments that a body with these callees reaches, in the order in which
/// they are met.
pub open spec fn reached(frags: Seq<FragmentView>, callees: Seq<Seq<char>>) -> Seq<FragmentView> {
    reached_from(frags, callees, Seq::empty())
}

/// Which declarations of a fragment are meant.
#[derive(Clone, Copy, PartialEq, Eq, Structural)]
pub enum Declares {
    HostPaths,
    InArtifacts,
    OutArtifacts,
    Claims,
}

pub open spec fn declared_by(f: FragmentView, which: Declares) -> Seq<Seq<char>> {
    match which {
        Declares::HostPaths => f.host_paths,
        Declares::InArtifacts => f.in_artifacts,
        Declares::OutArtifacts => f.out_artifacts,
        Declares::Claims => f.pvc_argo_names,
    }
}

/// The declarations of fragments, one after the other.
pub open spec fn all_declared(fs: Seq<FragmentView>, which: Declares) -> Seq<Seq<char>>
    decreases fs.len(),
{
    if fs.len() == 0 {
        Seq::empty()
    } else {
        all_declared(fs.drop_last(), which) + declared_by(fs.last(), which)
    }
}

/// A body's own declarations and those of the fragments it reaches, each once, in
/// order of appearance.
pub open spec fn resolved_of(
    frags: Seq<FragmentView>,
    own: Seq<Seq<char>>,
    callees: Seq<Seq<char>>,
    which: Declares,
) -> Seq<Seq<char>> {
    add_all(Seq::<Seq<char>>::empty(), own + all_declared(reached(frags, callees), which))
}

pub type SecretText = (Seq<char>, Seq<char>, bool);

pub open spec fn has_secret(acc: Seq<SecretText>, n: Seq<char>, k: Seq<char>) -> bool {
    exists|i: int| 0 <= i < acc.len() && (#[trigger] acc[i]).0 == n && acc[i].1 == k
}

pub open spec fn add_secret(acc: Seq<SecretText>, s: SecretText) -> Seq<SecretText> {
    if has_secret(acc, s.0, s.1) {
        acc
    } else {
        acc.push(s)
    }
}

/// `acc` with the secrets of `xs` whose name and key it does not hold yet.
pub open spec fn add_secrets(acc: Seq<SecretText>, xs: Seq<SecretText>) -> Seq<SecretText>
    decreases xs.len(),
{
    if xs.len() == 0 {
        acc
    } else {
        add_secret(add_secrets(acc, xs.drop_last()), xs.last())
    }
}

pub open spec fn all_secrets(fs: Seq<FragmentView>) -> Seq<SecretText>
    decreases fs.len(),
{
    if fs.len() == 0 {
        Seq::empty()
    } else {
        all_secrets(fs.drop_last()) + fs.last().secrets
    }
}

/// A body's own secrets and those of the fragments it reaches, once per name and
/// key; the first decides whether it may be missing.
pub open spec fn secrets_of(
    frags: Seq<FragmentView>,
    own: Seq<SecretText>,
    callees: Seq<Seq<char>>,
) -> Seq<SecretText> {
    add_secrets(Seq::empty(), own + all_secrets(reached(frags, callees)))
}

// ---- the context ------------------------------------------------------------------
/// Where a binary comes from, as far as its build knew.
pub struct Provenance {
    /// The package's own version, as it is written.
    pub version: Option<String>,
    pub toolchain: Option<String>,
    pub commit: Option<String>,
    /// Whether the working tree held changes that are in no commit.
    pub dirty: Option<bool>,
}

#[verifier::ext_equal]
pub struct ProvenanceView {
    pub version: Option<Seq<char>>,
    pub toolchain: Option<Seq<char>>,
    pub commit: Option<Seq<char>>,
    pub dirty: Option<bool>,
}

impl DeepView for Provenance {
    type V = ProvenanceView;

    open spec fn deep_view(&self) -> ProvenanceView {
        ProvenanceView {
            version: self.version.deep_view(),
            toolchain: self.toolchain.deep_view(),
            commit: self.commit.deep_view(),
            dirty: self.dirty,
        }
    }
}

impl ProvenanceView {
    /// Nothing is known.
    pub open spec fn empty() -> ProvenanceView {
        ProvenanceView { version: None, toolchain: None, commit: None, dirty: None }
    }
}

/// The configuration, the binary and its object key, the fragments, and the claims.
pub struct BuildCtx {
    fragments: Vec<FragmentReg>,
    config: AthenaConfig,
    package: String,
    tag: String,
    bin: String,
    artifact_key: String,
    provenance: Provenance,
    spellings: Vec<(String, String)>,
    claims: Vec<PvcReg>,
}

#[verifier::ext_equal]
pub struct BuildCtxView {
    pub fragments: Seq<FragmentView>,
    pub config: AthenaConfigView,
    pub package: Seq<char>,
    pub tag: Seq<char>,
    pub bin: Seq<char>,
    pub artifact_key: Seq<char>,
    pub provenance: ProvenanceView,
    /// The texts that stand for claims in bodies, each with the claim's name.
    pub spellings: Seq<(Seq<char>, Seq<char>)>,
    pub claims: Seq<PvcRegView>,
}

impl DeepView for BuildCtx {
    type V = BuildCtxView;

    closed spec fn deep_view(&self) -> BuildCtxView {
        BuildCtxView {
            fragments: self.fragments.deep_view(),
            config: self.config.deep_view(),
            package: self.package@,
            tag: self.tag@,
            bin: self.bin@,
            artifact_key: self.artifact_key@,
            provenance: self.provenance.deep_view(),
            spellings: self.spellings.deep_view(),
            claims: self.claims.deep_view(),
        }
    }
}

pub type Labels = Map<Seq<char>, Seq<char>>;

pub open spec fn label_if(m: Labels, key: Seq<char>, value: Option<Seq<char>>) -> Labels {
    match value {
        Some(v) => m.insert(key, v),
        None => m,
    }
}

pub open spec fn yes_or_no(b: Option<bool>) -> Option<Seq<char>> {
    match b {
        Some(true) => Some("true"@),
        Some(false) => Some("false"@),
        None => None,
    }
}

/// The labels of every resource: the package, the binary and its version tag, and
/// what else is known of where it comes from.
pub open spec fn labels_of(ctx: BuildCtxView) -> Labels {
    let m = Map::<Seq<char>, Seq<char>>::empty().insert(LABEL_PKG@, ctx.package).insert(
        LABEL_BIN@,
        ctx.bin,
    ).insert(LABEL_TAG@, ctx.tag).insert(LABEL_CHANNEL@, channel(ctx.tag));
    let m = label_if(m, LABEL_VERSION@, ctx.provenance.version);
    let m = label_if(m, LABEL_TOOLCHAIN@, ctx.provenance.toolchain);
    let m = label_if(m, LABEL_COMMIT@, ctx.provenance.commit);
    label_if(m, LABEL_DIRTY@, yes_or_no(ctx.provenance.dirty))
}

/// The claims that a body mounts: those its own paths stand for and those of the
/// fragments it reaches, each once.
pub open spec fn claims_of(
    ctx: BuildCtxView,
    own: Seq<PathView>,
    callees: Seq<Seq<char>>,
) -> Result<Seq<PvcRegView>, Seq<char>> {
    match map_res(own, claim_fn(ctx.spellings)) {
        Err(m) => Err(m),
        Ok(names) => map_res(
            resolved_of(ctx.fragments, names, callees, Declares::Claims),
            reg_fn(ctx.claims),
        ),
    }
}

fn insert_some(m: &mut TextMap<String>, key: &str, value: &Option<String>)
    ensures
        final(m).deep_view() == label_if(old(m).deep_view(), key@, value.deep_view()),
{
    match value {
        Some(v) => m.insert(key.to_owned(), v.clone()),
        None => {},
    }
}

fn find_fragment<'a>(frags: &'a Vec<FragmentReg>, name: &str) -> (r: Option<&'a FragmentReg>)
    ensures
        r.deep_view() == fragment_at(frags.deep_view(), name@),
{
    let ghost all = frags.deep_view();
    let mut n: usize = frags.len();
    proof {
        assert(all.take(n as int) =~= all);
    }
    while n > 0
        invariant
            all == frags.deep_view(),
            n <= frags@.len(),
            fragment_at(all, name@) == fragment_at(all.take(n as int), name@),
        decreases n,
    {
        n = n - 1;
        proof {
            assert(all.take(n + 1).drop_last() =~= all.take(n as int));
            assert(all.take(n + 1).last() == frags@[n as int].deep_view());
        }
        if str_eq(frags[n].rust_name.as_str(), name) {
            return Some(&frags[n]);
        }
    }
    None
}

fn reach<'a>(frags: &'a Vec<FragmentReg>, callees: &Vec<String>) -> (r: Vec<&'a FragmentReg>)
    ensures
        r.deep_view() == reached(frags.deep_view(), callees.deep_view()),
{
    let ghost all = frags.deep_view();
    let ghost start = callees.deep_view();
    let mut out: Vec<&'a FragmentReg> = Vec::new();
    let mut queue: Vec<String> = callees.dup();
    let mut visited: Vec<String> = Vec::new();
    proof {
        assert(visited.deep_view() =~= Seq::<Seq<char>>::empty());
        assert(out.deep_view() + reached(all, start) =~= reached(all, start));
    }
    while queue.len() > 0
        invariant
            all == frags.deep_view(),
            out.deep_view() + reached_from(all, queue.deep_view(), visited.deep_view()) == reached(
                all,
                start,
            ),
        decreases unvisited(all, visited.deep_view()), queue@.len(),
    {
        let ghost q0 = queue.deep_view();
        let ghost v0 = visited.deep_view();
        let ghost o0 = out.deep_view();
        let c: String = match queue.pop() {
            Some(c) => c,
            None => String::new(),
        };
        proof {
            assert(q0.last() == c@);
            assert(queue.deep_view() =~= q0.drop_last());
            lemma_unvisited(all, v0, c@);
        }
        if !has_str(&visited, c.as_str()) {
            let found = find_fragment(frags, c.as_str());
            let ghost cv = c@;
            visited.push(c);
            proof {
                assert(visited.deep_view() =~= v0.push(cv));
            }
            match found {
                Some(f) => {
                    let mut more: Vec<String> = f.callees.dup();
                    let ghost mv = more.deep_view();
                    queue.append(&mut more);
                    out.push(f);
                    proof {
                        assert(queue.deep_view() =~= q0.drop_last() + mv);
                        assert(out.deep_view() =~= o0.push(f.deep_view()));
                        assert(o0 + (seq![f.deep_view()] + reached_from(
                            all,
                            queue.deep_view(),
                            visited.deep_view(),
                        )) =~= out.deep_view() + reached_from(
                            all,
                            queue.deep_view(),
                            visited.deep_view(),
                        ));
                    }
                },
                None => {},
            }
        }
    }
    proof {
        assert(queue.deep_view() =~= Seq::<Seq<char>>::empty());
        assert(out.deep_view() + reached_from(all, queue.deep_view(), visited.deep_view())
            =~= out.deep_view());
    }
    out
}

fn add_texts(acc: &mut Vec<String>, xs: &Vec<String>)
    ensures
        final(acc).deep_view() == add_all(old(acc).deep_view(), xs.deep_view()),
{
    let ghost a0 = acc.deep_view();
    let ghost all = xs.deep_view();
    let mut i: usize = 0;
    proof {
        assert(all.take(0) =~= Seq::<Seq<char>>::empty());
    }
    while i < xs.len()
        invariant
            all == xs.deep_view(),
            i <= xs@.len(),
            acc.deep_view() == add_all(a0, all.take(i as int)),
        decreases xs@.len() - i,
    {
        proof {
            assert(all.take(i + 1).drop_last() =~= all.take(i as int));
            assert(all.take(i + 1).last() == xs@[i as int]@);
        }
        crate::conditional::add_name(acc, xs[i].as_str());
        i = i + 1;
    }
    proof {
        assert(all.take(i as int) =~= all);
    }
}

fn add_secret_list(acc: &mut Vec<(String, String, bool)>, xs: &Vec<(String, String, bool)>)
    ensures
        final(acc).deep_view() == add_secrets(old(acc).deep_view(), xs.deep_view()),
{
    let ghost a0 = acc.deep_view();
    let ghost all = xs.deep_view();
    let mut i: usize = 0;
    proof {
        assert(all.take(0) =~= Seq::<SecretText>::empty());
    }
    while i < xs.len()
        invariant
            all == xs.deep_view(),
            i <= xs@.len(),
            acc.deep_view() == add_secrets(a0, all.take(i as int)),
        decreases xs@.len() - i,
    {
        proof {
            assert(all.take(i + 1).drop_last() =~= all.take(i as int));
            assert(all.take(i + 1).last() == xs@[i as int].deep_view());
        }
        let ghost before = acc.deep_view();
        let s: &(String, String, bool) = &xs[i];
        let mut seen: bool = false;
        let mut k: usize = 0;
        while k < acc.len() && !seen
            invariant
                acc.deep_view() == before,
                k <= acc@.len(),
                seen ==> has_secret(before, s.0@, s.1@),
                !seen ==> forall|j: int|
                    0 <= j < k ==> !((#[trigger] before[j]).0 == s.0@ && before[j].1 == s.1@),
            decreases acc@.len() - k,
        {
            proof {
                assert(before[k as int] == acc@[k as int].deep_view());
            }
            if str_eq(acc[k].0.as_str(), s.0.as_str()) && str_eq(
                acc[k].1.as_str(),
                s.1.as_str(),
            ) {
                seen = true;
            }
            k = k + 1;
        }
        if !seen {
            acc.push((s.0.clone(), s.1.clone(), s.2));
            proof {
                assert(acc.deep_view() =~= before.push(s.deep_view()));
            }
        }
        i = i + 1;
    }
    proof {
        assert(all.take(i as int) =~= all);
    }
}

proof fn lemma_add_secrets_cat(acc: Seq<SecretText>, a: Seq<SecretText>, b: Seq<SecretText>)
    ensures
        add_secrets(acc, a + b) == add_secrets(add_secrets(acc, a), b),
    decreases b.len(),
{
    if b.len() == 0 {
        assert(a + b =~= a);
    } else {
        assert((a + b).drop_last() =~= a + b.drop_last());
        lemma_add_secrets_cat(acc, a, b.drop_last());
    }
}

impl BuildCtx {
    /// Gathers the fragments, the configuration, and what the binary is called, with
    /// the key of its tarball: `{krate}/{version}/{bin}.tar.gz`. `version` is the
    /// version tag that the binary seals.
    pub fn collect(
        fragments: Vec<FragmentReg>,
        config: AthenaConfig,
        krate: &str,
        version: &str,
        bin: &str,
    ) -> (r: Self)
        ensures
            r.deep_view() == (BuildCtxView {
                fragments: fragments.deep_view(),
                config: config.deep_view(),
                package: krate@,
                tag: version@,
                bin: bin@,
                artifact_key: key_of(krate@, version@, bin@),
                provenance: ProvenanceView::empty(),
                spellings: Seq::empty(),
                claims: Seq::empty(),
            }),
    {
        let spellings: Vec<(String, String)> = Vec::new();
        let claims: Vec<PvcReg> = Vec::new();
        proof {
            assert(spellings.deep_view() =~= Seq::<(Seq<char>, Seq<char>)>::empty());
            assert(claims.deep_view() =~= Seq::<PvcRegView>::empty());
        }
        BuildCtx {
            fragments,
            config,
            package: krate.to_owned(),
            tag: version.to_owned(),
            bin: bin.to_owned(),
            artifact_key: binary_key(krate, version, bin),
            provenance: Provenance { version: None, toolchain: None, commit: None, dirty: None },
            spellings,
            claims,
        }
    }

    /// The context of a binary of which this is known.
    pub fn with_provenance(self, provenance: Provenance) -> (r: Self)
        ensures
            r.deep_view() == (BuildCtxView {
                provenance: provenance.deep_view(),
                ..self.deep_view()
            }),
    {
        let mut r: BuildCtx = self;
        r.provenance = provenance;
        r
    }

    /// The context of a program with these claims, and with the texts that stand for
    /// them in its bodies.
    pub fn with_claims(self, spellings: Vec<(String, String)>, claims: &Vec<PvcReg>) -> (r: Self)
        ensures
            r.deep_view() == (BuildCtxView {
                spellings: spellings.deep_view(),
                claims: gathered(claims.deep_view()),
                ..self.deep_view()
            }),
    {
        let mut r: BuildCtx = self;
        r.spellings = spellings;
        r.claims = gather(claims);
        r
    }

    /// The labels of every resource.
    pub fn labels(&self) -> (r: TextMap<String>)
        ensures
            r.deep_view() == labels_of(self.deep_view()),
    {
        let mut m: TextMap<String> = TextMap::new();
        m.insert(LABEL_PKG.to_owned(), self.package.clone());
        m.insert(LABEL_BIN.to_owned(), self.bin.clone());
        m.insert(LABEL_TAG.to_owned(), self.tag.clone());
        m.insert(LABEL_CHANNEL.to_owned(), channel_of(self.tag.as_str()).to_owned());
        insert_some(&mut m, LABEL_VERSION, &self.provenance.version);
        insert_some(&mut m, LABEL_TOOLCHAIN, &self.provenance.toolchain);
        insert_some(&mut m, LABEL_COMMIT, &self.provenance.commit);
        let dirty: Option<String> = match self.provenance.dirty {
            Some(true) => Some("true".to_owned()),
            Some(false) => Some("false".to_owned()),
            None => None,
        };
        insert_some(&mut m, LABEL_DIRTY, &dirty);
        m
    }

    /// The claims that every run makes for itself.
    pub fn claim_templates(&self) -> (r: Vec<PersistentVolumeClaim>)
        ensures
            r.deep_view() == claim_templates(self.deep_view().claims),
    {
        make_claim_templates(&self.claims)
    }

    /// The claims that a body mounts.
    pub fn mounted_claims(&self, own: &Vec<Path>, callees: &Vec<String>) -> (r: Result<
        Vec<&PvcReg>,
        String,
    >)
        ensures
            agrees(r, claims_of(self.deep_view(), own.deep_view(), callees.deep_view())),
    {
        match find_claims(own, &self.spellings) {
            Err(m) => Err(m),
            Ok(names) => {
                let all: Vec<String> = self.resolved(&names, callees, Declares::Claims);
                find_regs(&self.claims, &all)
            },
        }
    }

    pub fn config(&self) -> (r: &AthenaConfig)
        ensures
            r.deep_view() == self.deep_view().config,
    {
        &self.config
    }

    /// The object key of the binary's tarball.
    pub fn artifact_key(&self) -> (r: &str)
        ensures
            r@ == self.deep_view().artifact_key,
    {
        self.artifact_key.as_str()
    }

    fn resolved(&self, own: &Vec<String>, callees: &Vec<String>, which: Declares) -> (r: Vec<
        String,
    >)
        ensures
            r.deep_view() == resolved_of(
                self.deep_view().fragments,
                own.deep_view(),
                callees.deep_view(),
                which,
            ),
    {
        let reached_frags = reach(&self.fragments, callees);
        let ghost fs = reached_frags.deep_view();
        let ghost ownv = own.deep_view();
        let ghost none = Seq::<Seq<char>>::empty();
        let mut out: Vec<String> = Vec::new();
        proof {
            assert(out.deep_view() =~= none);
        }
        add_texts(&mut out, own);
        let mut i: usize = 0;
        proof {
            assert(fs.take(0) =~= Seq::<FragmentView>::empty());
            assert(ownv + all_declared(fs.take(0), which) =~= ownv);
        }
        while i < reached_frags.len()
            invariant
                fs == reached_frags.deep_view(),
                ownv == own.deep_view(),
                none == Seq::<Seq<char>>::empty(),
                i <= reached_frags@.len(),
                out.deep_view() == add_all(
                    none,
                    ownv + all_declared(fs.take(i as int), which),
                ),
            decreases reached_frags@.len() - i,
        {
            let f: &FragmentReg = reached_frags[i];
            let ghost d = declared_by(f.deep_view(), which);
            proof {
                assert(fs.take(i + 1).drop_last() =~= fs.take(i as int));
                assert(fs.take(i + 1).last() == f.deep_view());
                lemma_add_all_cat(none, ownv + all_declared(fs.take(i as int), which), d);
                assert(ownv + all_declared(fs.take(i as int), which) + d =~= ownv + (all_declared(
                    fs.take(i as int),
                    which,
                ) + d));
            }
            match which {
                Declares::HostPaths => add_texts(&mut out, &f.host_paths),
                Declares::InArtifacts => add_texts(&mut out, &f.in_artifacts),
                Declares::OutArtifacts => add_texts(&mut out, &f.out_artifacts),
                Declares::Claims => add_texts(&mut out, &f.pvc_argo_names),
            }
            i = i + 1;
        }
        proof {
            assert(fs.take(i as int) =~= fs);
        }
        out
    }

    /// The host paths that a body needs: its own, and those of the fragments it
    /// reaches.
    pub fn resolved_host_paths(&self, own: &Vec<String>, callees: &Vec<String>) -> (r: Vec<String>)
        ensures
            r.deep_view() == resolved_of(
                self.deep_view().fragments,
                own.deep_view(),
                callees.deep_view(),
                Declares::HostPaths,
            ),
    {
        self.resolved(own, callees, Declares::HostPaths)
    }

    /// The input artifacts that a body needs.
    pub fn resolved_in_artifacts(&self, own: &Vec<String>, callees: &Vec<String>) -> (r: Vec<
        String,
    >)
        ensures
            r.deep_view() == resolved_of(
                self.deep_view().fragments,
                own.deep_view(),
                callees.deep_view(),
                Declares::InArtifacts,
            ),
    {
        self.resolved(own, callees, Declares::InArtifacts)
    }

    /// The output artifacts that a body writes.
    pub fn resolved_out_artifacts(&self, own: &Vec<String>, callees: &Vec<String>) -> (r: Vec<
        String,
    >)
        ensures
            r.deep_view() == resolved_of(
                self.deep_view().fragments,
                own.deep_view(),
                callees.deep_view(),
                Declares::OutArtifacts,
            ),
    {
        self.resolved(own, callees, Declares::OutArtifacts)
    }

    /// The secrets that a body reads, once per name and key.
    pub fn resolved_secrets(
        &self,
        own: &Vec<(String, String, bool)>,
        own_callees: &Vec<String>,
    ) -> (r: Vec<(String, String, bool)>)
        ensures
            r.deep_view() == secrets_of(
                self.deep_view().fragments,
                own.deep_view(),
                own_callees.deep_view(),
            ),
    {
        let reached_frags = reach(&self.fragments, own_callees);
        let ghost fs = reached_frags.deep_view();
        let ghost ownv = own.deep_view();
        let ghost none = Seq::<SecretText>::empty();
        let mut out: Vec<(String, String, bool)> = Vec::new();
        proof {
            assert(out.deep_view() =~= none);
        }
        add_secret_list(&mut out, own);
        let mut i: usize = 0;
        proof {
            assert(fs.take(0) =~= Seq::<FragmentView>::empty());
            assert(ownv + all_secrets(fs.take(0)) =~= ownv);
        }
        while i < reached_frags.len()
            invariant
                fs == reached_frags.deep_view(),
                ownv == own.deep_view(),
                none == Seq::<SecretText>::empty(),
                i <= reached_frags@.len(),
                out.deep_view() == add_secrets(none, ownv + all_secrets(fs.take(i as int))),
            decreases reached_frags@.len() - i,
        {
            let f: &FragmentReg = reached_frags[i];
            let ghost d = f.deep_view().secrets;
            proof {
                assert(fs.take(i + 1).drop_last() =~= fs.take(i as int));
                assert(fs.take(i + 1).last() == f.deep_view());
                lemma_add_secrets_cat(none, ownv + all_secrets(fs.take(i as int)), d);
                assert(ownv + all_secrets(fs.take(i as int)) + d =~= ownv + (all_secrets(
                    fs.take(i as int),
                ) + d));
            }
            add_secret_list(&mut out, &f.secrets);
            i = i + 1;
        }
        proof {
            assert(fs.take(i as int) =~= fs);
        }
        out
    }
}

// ---- laws -----------------------------------------------------------------------
proof fn lemma_fragment_name(frags: Seq<FragmentView>, n: Seq<char>)
    ensures
        fragment_at(frags, n) matches Some(f) ==> f.rust_name == n,
    decreases frags.len(),
{
    if frags.len() > 0 {
        lemma_fragment_name(frags.drop_last(), n);
    }
}

proof fn lemma_reached_closed(
    frags: Seq<FragmentView>,
    queue: Seq<Seq<char>>,
    visited: Seq<Seq<char>>,
)
    ensures
        forall|c: Seq<char>|
            queue.contains(c) && !visited.contains(c) && (#[trigger] fragment_at(frags, c)) is Some
                ==> reached_from(frags, queue, visited).contains(fragment_at(frags, c)->0),
        forall|i: int, c: Seq<char>|
            0 <= i < reached_from(frags, queue, visited).len() && #[trigger]
                reached_from(frags, queue, visited)[i].callees.contains(c) && !visited.contains(c)
                && (#[trigger] fragment_at(frags, c)) is Some ==> reached_from(
                frags,
                queue,
                visited,
            ).contains(fragment_at(frags, c)->0),
        forall|i: int|
            0 <= i < reached_from(frags, queue, visited).len() ==> !visited.contains(
                (#[trigger] reached_from(frags, queue, visited)[i]).rust_name,
            ),
    decreases unvisited(frags, visited), queue.len(),
{
    if queue.len() > 0 {
        let c = queue.last();
        let rest = queue.drop_last();
        let r = reached_from(frags, queue, visited);
        lemma_unvisited(frags, visited, c);
        assert forall|x: Seq<char>| queue.contains(x) implies x == c || rest.contains(x) by {
            let i = choose|i: int| 0 <= i < queue.len() && queue[i] == x;
            if i < queue.len() - 1 {
                assert(rest[i] == x);
            }
        }
        if visited.contains(c) {
            lemma_reached_closed(frags, rest, visited);
            assert(r == reached_from(frags, rest, visited));
        } else {
            let v = visited.push(c);
            assert forall|x: Seq<char>| v.contains(x) implies visited.contains(x) || x == c by {
                let i = choose|i: int| 0 <= i < v.len() && v[i] == x;
                if i < visited.len() {
                    assert(visited[i] == x);
                }
            }
            assert forall|x: Seq<char>| visited.contains(x) || x == c implies v.contains(x) by {
                if visited.contains(x) {
                    let i = choose|i: int| 0 <= i < visited.len() && visited[i] == x;
                    assert(v[i] == x);
                }
                assert(v[visited.len() as int] == c);
            }
            match fragment_at(frags, c) {
                Some(f) => {
                    lemma_fragment_name(frags, c);
                    let q = rest + f.callees;
                    lemma_reached_closed(frags, q, v);
                    let t = reached_from(frags, q, v);
                    assert(r[0] == f);
                    assert forall|x: FragmentView| t.contains(x) implies r.contains(x) by {
                        let i = choose|i: int| 0 <= i < t.len() && t[i] == x;
                        assert(r[i + 1] == x);
                    }
                    assert forall|x: Seq<char>|
                        queue.contains(x) && !visited.contains(x) && (#[trigger] fragment_at(
                            frags,
                            x,
                        )) is Some implies r.contains(fragment_at(frags, x)->0) by {
                        if x != c {
                            let i = choose|i: int| 0 <= i < rest.len() && rest[i] == x;
                            assert(q[i] == x);
                            assert(q.contains(x));
                        }
                    }
                    assert forall|i: int, x: Seq<char>|
                        0 <= i < r.len() && #[trigger] r[i].callees.contains(x)
                            && !visited.contains(x) && (#[trigger] fragment_at(frags, x))
                            is Some implies r.contains(fragment_at(frags, x)->0) by {
                        if x != c {
                            if i == 0 {
                                let k = choose|k: int|
                                    0 <= k < f.callees.len() && f.callees[k] == x;
                                assert(q[rest.len() + k] == x);
                                assert(q.contains(x));
                            } else {
                                assert(t[i - 1] == r[i]);
                                assert(t[i - 1].callees.contains(x));
                            }
                        }
                    }
                    assert forall|i: int| 0 <= i < r.len() implies !visited.contains(
                        (#[trigger] r[i]).rust_name,
                    ) by {
                        if i > 0 {
                            assert(t[i - 1] == r[i]);
                            assert(!v.contains(t[i - 1].rust_name));
                        }
                    }
                },
                None => {
                    lemma_reached_closed(frags, rest, v);
                    let t = reached_from(frags, rest, v);
                    assert(r == t);
                    assert forall|i: int, x: Seq<char>|
                        0 <= i < r.len() && #[trigger] r[i].callees.contains(x)
                            && !visited.contains(x) && (#[trigger] fragment_at(frags, x))
                            is Some implies r.contains(fragment_at(frags, x)->0) by {
                        assert(x != c);
                        assert(!v.contains(x));
                        assert(t[i].callees.contains(x));
                    }
                    assert forall|i: int| 0 <= i < r.len() implies !visited.contains(
                        (#[trigger] r[i]).rust_name,
                    ) by {
                        assert(!v.contains(t[i].rust_name));
                    }
                    assert forall|x: Seq<char>|
                        queue.contains(x) && !visited.contains(x) && (#[trigger] fragment_at(
                            frags,
                            x,
                        )) is Some implies r.contains(fragment_at(frags, x)->0) by {
                        assert(!v.contains(x));
                    }
                },
            }
        }
    }
}

/// A chain of fragments: the first is called by name from `start`, and each later
/// one from the one before it.
pub open spec fn is_chain(
    frags: Seq<FragmentView>,
    start: Seq<Seq<char>>,
    chain: Seq<FragmentView>,
) -> bool {
    &&& chain.len() > 0
    &&& forall|i: int|
        0 <= i < chain.len() ==> fragment_at(frags, (#[trigger] chain[i]).rust_name) == Some(
            chain[i],
        )
    &&& start.contains(chain[0].rust_name)
    &&& forall|i: int|
        0 < i < chain.len() ==> chain[i - 1].callees.contains((#[trigger] chain[i]).rust_name)
}

/// Whether calls lead from `start` to the fragment `f`.
pub open spec fn leads_to(
    frags: Seq<FragmentView>,
    start: Seq<Seq<char>>,
    f: FragmentView,
) -> bool {
    exists|chain: Seq<FragmentView>| #[trigger]
        is_chain(frags, start, chain) && chain.last() == f
}

pub open spec fn called_from(
    frags: Seq<FragmentView>,
    start: Seq<Seq<char>>,
    c: Seq<char>,
) -> bool {
    start.contains(c) || exists|f: FragmentView| #[trigger]
        leads_to(frags, start, f) && f.callees.contains(c)
}

proof fn lemma_called(frags: Seq<FragmentView>, start: Seq<Seq<char>>, c: Seq<char>)
    requires
        called_from(frags, start, c),
        fragment_at(frags, c) is Some,
    ensures
        leads_to(frags, start, fragment_at(frags, c)->0),
{
    let g = fragment_at(frags, c)->0;
    lemma_fragment_name(frags, c);
    if start.contains(c) {
        let chain = seq![g];
        assert(is_chain(frags, start, chain));
        assert(chain.last() == g);
    } else {
        let f = choose|f: FragmentView| #[trigger]
            leads_to(frags, start, f) && f.callees.contains(c);
        let chain = choose|chain: Seq<FragmentView>| #[trigger]
            is_chain(frags, start, chain) && chain.last() == f;
        let longer = chain.push(g);
        assert forall|i: int| 0 <= i < longer.len() implies fragment_at(
            frags,
            (#[trigger] longer[i]).rust_name,
        ) == Some(longer[i]) by {
            if i < chain.len() {
                assert(fragment_at(frags, chain[i].rust_name) == Some(chain[i]));
            }
        }
        assert forall|i: int| 0 < i < longer.len() implies longer[i - 1].callees.contains(
            (#[trigger] longer[i]).rust_name,
        ) by {
            if i < chain.len() {
                assert(chain[i - 1].callees.contains(chain[i].rust_name));
            }
        }
        assert(longer[0] == chain[0]);
        assert(is_chain(frags, start, longer));
        assert(longer.last() == g);
    }
}

proof fn lemma_reached_sound(
    frags: Seq<FragmentView>,
    queue: Seq<Seq<char>>,
    visited: Seq<Seq<char>>,
    start: Seq<Seq<char>>,
)
    requires
        forall|i: int| 0 <= i < queue.len() ==> called_from(frags, start, #[trigger] queue[i]),
    ensures
        forall|i: int|
            0 <= i < reached_from(frags, queue, visited).len() ==> leads_to(
                frags,
                start,
                #[trigger] reached_from(frags, queue, visited)[i],
            ),
    decreases unvisited(frags, visited), queue.len(),
{
    if queue.len() > 0 {
        let c = queue.last();
        let rest = queue.drop_last();
        lemma_unvisited(frags, visited, c);
        assert forall|i: int| 0 <= i < rest.len() implies called_from(
            frags,
            start,
            #[trigger] rest[i],
        ) by {
            assert(called_from(frags, start, queue[i]));
        }
        assert(called_from(frags, start, queue[queue.len() - 1]));
        if visited.contains(c) {
            lemma_reached_sound(frags, rest, visited, start);
            assert(reached_from(frags, queue, visited) == reached_from(frags, rest, visited));
        } else {
            match fragment_at(frags, c) {
                Some(f) => {
                    lemma_called(frags, start, c);
                    let q = rest + f.callees;
                    assert forall|i: int| 0 <= i < q.len() implies called_from(
                        frags,
                        start,
                        #[trigger] q[i],
                    ) by {
                        if i < rest.len() {
                            assert(called_from(frags, start, rest[i]));
                        } else {
                            assert(f.callees[i - rest.len()] == q[i]);
                            assert(leads_to(frags, start, f) && f.callees.contains(q[i]));
                        }
                    }
                    lemma_reached_sound(frags, q, visited.push(c), start);
                    let r = reached_from(frags, queue, visited);
                    let t = reached_from(frags, q, visited.push(c));
                    assert forall|i: int| 0 <= i < r.len() implies leads_to(
                        frags,
                        start,
                        #[trigger] r[i],
                    ) by {
                        if i > 0 {
                            assert(leads_to(frags, start, t[i - 1]));
                            assert(t[i - 1] == r[i]);
                        }
                    }
                },
                None => {
                    lemma_reached_sound(frags, rest, visited.push(c), start);
                    assert(reached_from(frags, queue, visited) == reached_from(
                        frags,
                        rest,
                        visited.push(c),
                    ));
                },
            }
        }
    }
}

proof fn lemma_chain_reached(
    frags: Seq<FragmentView>,
    start: Seq<Seq<char>>,
    chain: Seq<FragmentView>,
    n: int,
)
    requires
        is_chain(frags, start, chain),
        0 <= n < chain.len(),
    ensures
        reached(frags, start).contains(chain[n]),
    decreases n,
{
    let r = reached(frags, start);
    let none = Seq::<Seq<char>>::empty();
    lemma_reached_closed(frags, start, none);
    assert(fragment_at(frags, chain[n].rust_name) == Some(chain[n]));
    assert(!none.contains(chain[n].rust_name));
    if n > 0 {
        lemma_chain_reached(frags, start, chain, n - 1);
        let i = choose|i: int| 0 <= i < r.len() && r[i] == chain[n - 1];
        assert(chain[n - 1].callees.contains(chain[n].rust_name));
        assert(r[i].callees.contains(chain[n].rust_name));
    }
}

/// The fragments that are gathered are exactly those that calls lead to, at any
/// depth and through cycles.
pub proof fn law_reached_is_closure(
    frags: Seq<FragmentView>,
    start: Seq<Seq<char>>,
    f: FragmentView,
)
    ensures
        reached(frags, start).contains(f) <==> leads_to(frags, start, f),
{
    let none = Seq::<Seq<char>>::empty();
    assert forall|i: int| 0 <= i < start.len() implies called_from(
        frags,
        start,
        #[trigger] start[i],
    ) by {
        assert(start.contains(start[i]));
    }
    lemma_reached_sound(frags, start, none, start);
    if leads_to(frags, start, f) {
        let chain = choose|chain: Seq<FragmentView>| #[trigger]
            is_chain(frags, start, chain) && chain.last() == f;
        lemma_chain_reached(frags, start, chain, chain.len() - 1);
    }
    if reached(frags, start).contains(f) {
        let i = choose|i: int|
            0 <= i < reached(frags, start).len() && reached(frags, start)[i] == f;
        assert(leads_to(frags, start, reached(frags, start)[i]));
    }
}

proof fn lemma_all_declared(fs: Seq<FragmentView>, which: Declares, x: Seq<char>)
    ensures
        all_declared(fs, which).contains(x) <==> exists|i: int|
            0 <= i < fs.len() && declared_by(#[trigger] fs[i], which).contains(x),
    decreases fs.len(),
{
    if fs.len() > 0 {
        let front = fs.drop_last();
        let a = all_declared(front, which);
        let b = declared_by(fs.last(), which);
        lemma_all_declared(front, which, x);
        assert((a + b).contains(x) <==> a.contains(x) || b.contains(x)) by {
            if (a + b).contains(x) {
                let i = choose|i: int| 0 <= i < (a + b).len() && (a + b)[i] == x;
                if i < a.len() {
                    assert(a[i] == x);
                } else {
                    assert(b[i - a.len()] == x);
                }
            }
            if a.contains(x) {
                let i = choose|i: int| 0 <= i < a.len() && a[i] == x;
                assert((a + b)[i] == x);
            }
            if b.contains(x) {
                let i = choose|i: int| 0 <= i < b.len() && b[i] == x;
                assert((a + b)[a.len() + i] == x);
            }
        }
        if a.contains(x) {
            let i = choose|i: int|
                0 <= i < front.len() && declared_by(#[trigger] front[i], which).contains(x);
            assert(fs[i] == front[i]);
        }
        if b.contains(x) {
            assert(fs[fs.len() - 1] == fs.last());
        }
        if exists|i: int| 0 <= i < fs.len() && declared_by(#[trigger] fs[i], which).contains(x) {
            let i = choose|i: int|
                0 <= i < fs.len() && declared_by(#[trigger] fs[i], which).contains(x);
            if i < front.len() {
                assert(front[i] == fs[i]);
            }
        }
    } else {
        assert(!all_declared(fs, which).contains(x));
    }
}

/// What a body needs is what it declares itself together with what every
/// fragment declares that its calls lead to, and nothing twice.
pub proof fn law_resolved(
    frags: Seq<FragmentView>,
    own: Seq<Seq<char>>,
    callees: Seq<Seq<char>>,
    which: Declares,
    x: Seq<char>,
)
    ensures
        resolved_of(frags, own, callees, which).no_duplicates(),
        resolved_of(frags, own, callees, which).contains(x) <==> own.contains(x) || exists|
            f: FragmentView,
        | #[trigger]
            leads_to(frags, callees, f) && declared_by(f, which).contains(x),
{
    let fs = reached(frags, callees);
    let more = all_declared(fs, which);
    law_add_all(Seq::<Seq<char>>::empty(), own + more);
    lemma_all_declared(fs, which, x);
    assert((own + more).contains(x) <==> own.contains(x) || more.contains(x)) by {
        let a = own;
        let b = more;
        if (a + b).contains(x) {
            let i = choose|i: int| 0 <= i < (a + b).len() && (a + b)[i] == x;
            if i < a.len() {
                assert(a[i] == x);
            } else {
                assert(b[i - a.len()] == x);
            }
        }
        if a.contains(x) {
            let i = choose|i: int| 0 <= i < a.len() && a[i] == x;
            assert((a + b)[i] == x);
        }
        if b.contains(x) {
            let i = choose|i: int| 0 <= i < b.len() && b[i] == x;
            assert((a + b)[a.len() + i] == x);
        }
    }
    assert(!Seq::<Seq<char>>::empty().contains(x));
    if more.contains(x) {
        let i = choose|i: int|
            0 <= i < fs.len() && declared_by(#[trigger] fs[i], which).contains(x);
        law_reached_is_closure(frags, callees, fs[i]);
        assert(fs.contains(fs[i]));
        assert(leads_to(frags, callees, fs[i]) && declared_by(fs[i], which).contains(x));
    }
    if exists|f: FragmentView| #[trigger]
        leads_to(frags, callees, f) && declared_by(f, which).contains(x) {
        let f = choose|f: FragmentView| #[trigger]
            leads_to(frags, callees, f) && declared_by(f, which).contains(x);
        law_reached_is_closure(frags, callees, f);
        let i = choose|i: int| 0 <= i < fs.len() && fs[i] == f;
        assert(declared_by(fs[i], which).contains(x));
    }
}

proof fn lemma_has_more(a: Seq<SecretText>, b: Seq<SecretText>, n: Seq<char>, k: Seq<char>)
    ensures
        has_secret(a, n, k) || has_secret(b, n, k) ==> has_secret(a + b, n, k),
        has_secret(a + b, n, k) ==> has_secret(a, n, k) || has_secret(b, n, k),
{
    if has_secret(a, n, k) {
        let i = choose|i: int| 0 <= i < a.len() && (#[trigger] a[i]).0 == n && a[i].1 == k;
        assert((a + b)[i] == a[i]);
    }
    if has_secret(b, n, k) {
        let i = choose|i: int| 0 <= i < b.len() && (#[trigger] b[i]).0 == n && b[i].1 == k;
        assert((a + b)[a.len() + i] == b[i]);
    }
    if has_secret(a + b, n, k) {
        let c = a + b;
        let i = choose|i: int| 0 <= i < c.len() && (#[trigger] c[i]).0 == n && c[i].1 == k;
        if i < a.len() {
            assert(a[i] == c[i]);
        } else {
            assert(b[i - a.len()] == c[i]);
        }
    }
}

proof fn lemma_secrets_kept(xs: Seq<SecretText>, n: Seq<char>, k: Seq<char>)
    ensures
        has_secret(add_secrets(Seq::empty(), xs), n, k) <==> has_secret(xs, n, k),
    decreases xs.len(),
{
    if xs.len() > 0 {
        let front = xs.drop_last();
        let x = xs.last();
        lemma_secrets_kept(front, n, k);
        lemma_has_more(front, seq![x], n, k);
        assert(front + seq![x] =~= xs);
        assert(seq![x][0] == x);
        let acc = add_secrets(Seq::empty(), front);
        lemma_has_more(acc, seq![x], n, k);
        assert(acc + seq![x] =~= acc.push(x));
    }
}

proof fn lemma_all_secrets(fs: Seq<FragmentView>, n: Seq<char>, k: Seq<char>)
    ensures
        has_secret(all_secrets(fs), n, k) <==> exists|f: FragmentView| #[trigger]
            fs.contains(f) && has_secret(f.secrets, n, k),
    decreases fs.len(),
{
    if fs.len() > 0 {
        let front = fs.drop_last();
        let l = fs.last();
        lemma_all_secrets(front, n, k);
        lemma_has_more(all_secrets(front), l.secrets, n, k);
        assert(fs[fs.len() - 1] == l);
        assert forall|f: FragmentView| #[trigger] fs.contains(f) <==> front.contains(f) || f == l by {
            if fs.contains(f) && f != l {
                let i = choose|i: int| 0 <= i < fs.len() && fs[i] == f;
                assert(front[i] == f);
            }
            if front.contains(f) {
                let i = choose|i: int| 0 <= i < front.len() && front[i] == f;
                assert(fs[i] == f);
            }
        }
        assert(fs.contains(l));
        if has_secret(all_secrets(front), n, k) {
            let f = choose|f: FragmentView| #[trigger]
                front.contains(f) && has_secret(f.secrets, n, k);
            assert(fs.contains(f));
        }
        if exists|f: FragmentView| #[trigger] fs.contains(f) && has_secret(f.secrets, n, k) {
            let f = choose|f: FragmentView| #[trigger]
                fs.contains(f) && has_secret(f.secrets, n, k);
            assert(front.contains(f) || f == l);
        }
    }
}

/// A container is given exactly the secrets that its body asks for, and those that
/// the fragments it reaches ask for.
pub proof fn law_resolved_secrets(
    frags: Seq<FragmentView>,
    own: Seq<SecretText>,
    callees: Seq<Seq<char>>,
    n: Seq<char>,
    k: Seq<char>,
)
    ensures
        has_secret(secrets_of(frags, own, callees), n, k) <==> has_secret(own, n, k) || exists|
            f: FragmentView,
        | #[trigger]
            leads_to(frags, callees, f) && has_secret(f.secrets, n, k),
{
    let fs = reached(frags, callees);
    lemma_secrets_kept(own + all_secrets(fs), n, k);
    lemma_has_more(own, all_secrets(fs), n, k);
    lemma_all_secrets(fs, n, k);
    if exists|f: FragmentView| #[trigger] fs.contains(f) && has_secret(f.secrets, n, k) {
        let f = choose|f: FragmentView| #[trigger] fs.contains(f) && has_secret(f.secrets, n, k);
        law_reached_is_closure(frags, callees, f);
    }
    if exists|f: FragmentView| #[trigger]
        leads_to(frags, callees, f) && has_secret(f.secrets, n, k) {
        let f = choose|f: FragmentView| #[trigger]
            leads_to(frags, callees, f) && has_secret(f.secrets, n, k);
        law_reached_is_closure(frags, callees, f);
        assert(fs.contains(f));
    }
}

/// Whether no two secrets have one name and key.
pub open spec fn once_each(xs: Seq<SecretText>) -> bool {
    forall|i: int, j: int|
        0 <= i < j < xs.len() ==> !((#[trigger] xs[i]).0 == (#[trigger] xs[j]).0 && xs[i].1
            == xs[j].1)
}

/// Whether `x` is the first of `xs` with its name and key.
pub open spec fn is_first(xs: Seq<SecretText>, x: SecretText) -> bool {
    exists|i: int|
        0 <= i < xs.len() && #[trigger] xs[i] == x && !has_secret(xs.take(i), x.0, x.1)
}

proof fn lemma_first_kept(xs: Seq<SecretText>)
    ensures
        once_each(add_secrets(Seq::empty(), xs)),
        forall|i: int|
            0 <= i < add_secrets(Seq::empty(), xs).len() ==> is_first(
                xs,
                #[trigger] add_secrets(Seq::empty(), xs)[i],
            ),
    decreases xs.len(),
{
    if xs.len() > 0 {
        let front = xs.drop_last();
        let x = xs.last();
        lemma_first_kept(front);
        let acc = add_secrets(Seq::empty(), front);
        let r = add_secrets(Seq::empty(), xs);
        lemma_secrets_kept(front, x.0, x.1);
        assert forall|i: int| 0 <= i < r.len() implies is_first(xs, #[trigger] r[i]) by {
            if i < acc.len() {
                assert(is_first(front, acc[i]));
                let y = acc[i];
                let k = choose|k: int|
                    0 <= k < front.len() && #[trigger] front[k] == y && !has_secret(
                        front.take(k),
                        y.0,
                        y.1,
                    );
                assert(xs[k] == y);
                assert(xs.take(k) =~= front.take(k));
            } else {
                assert(r[i] == x);
                assert(xs[xs.len() - 1] == x);
                assert(xs.take(xs.len() - 1) =~= front);
            }
        }
        assert forall|i: int, j: int| 0 <= i < j < r.len() implies !((#[trigger] r[i]).0 == (
        #[trigger] r[j]).0 && r[i].1 == r[j].1) by {
            if j < acc.len() {
                assert(acc[i] == r[i] && acc[j] == r[j]);
            } else if r[i].0 == x.0 && r[i].1 == x.1 {
                assert(acc[i] == r[i]);
                assert(has_secret(acc, x.0, x.1));
            }
        }
    }
}

/// A container is given a secret of one name and key once, and whether that may be
/// missing is what is said where it is asked for first: in the body itself, wherever
/// the body asks for it.
pub proof fn law_secrets_once(
    frags: Seq<FragmentView>,
    own: Seq<SecretText>,
    callees: Seq<Seq<char>>,
)
    ensures
        once_each(secrets_of(frags, own, callees)),
        forall|i: int|
            0 <= i < secrets_of(frags, own, callees).len() ==> {
                let x = #[trigger] secrets_of(frags, own, callees)[i];
                is_first(own + all_secrets(reached(frags, callees)), x) && (has_secret(
                    own,
                    x.0,
                    x.1,
                ) ==> is_first(own, x))
            },
{
    let more = all_secrets(reached(frags, callees));
    let all = own + more;
    let r = secrets_of(frags, own, callees);
    lemma_first_kept(all);
    assert forall|i: int| 0 <= i < r.len() implies {
        let x = #[trigger] r[i];
        is_first(all, x) && (has_secret(own, x.0, x.1) ==> is_first(own, x))
    } by {
        let x = r[i];
        assert(is_first(all, x));
        if has_secret(own, x.0, x.1) {
            let k = choose|k: int|
                0 <= k < all.len() && #[trigger] all[k] == x && !has_secret(all.take(k), x.0, x.1);
            let j = choose|j: int|
                0 <= j < own.len() && (#[trigger] own[j]).0 == x.0 && own[j].1 == x.1;
            if k > j {
                assert(all.take(k)[j] == own[j]);
                assert(has_secret(all.take(k), x.0, x.1));
            }
            assert(own[k] == x);
            assert(all.take(k) =~= own.take(k));
        }
    }
}

} // verus!
