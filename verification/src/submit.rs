//! `cargo athena submit` and `cargo athena prune`: what is compared, applied,
//! created and deleted on a cluster, and when.

use crate::api::{
    Arguments, ArgumentsView, ObjectMeta, ObjectMetaView, Parameter, ParameterView, Workflow,
    WorkflowSpec, WorkflowSpecView, WorkflowTemplate, WorkflowTemplateRef, WorkflowTemplateRefView,
    WorkflowTemplateView, WorkflowView, API_VERSION, KIND_WORKFLOW,
};
use crate::binsrc::{BinSel, BinSelView, ProbeInfo, ProbeInfoView};
use crate::collector::{
    law_resources, name_of, named, resources_of, CollectorView, Template,
};
use crate::config::S3Repo;
use crate::context::{labels_of, BuildCtxView, Labels};
use crate::emulate::Values;
use crate::gitinfo::{bad_tag, user_tag};
use crate::json::Json;
use crate::ls::{pad, padded};
use crate::maps::{key_list, lists, Data, TextMap};
use crate::munge::{
    binary_key, is_tag, key_of, law_version_tag_is_safe, tag_of, LABEL_BIN, LABEL_CHANNEL,
    LABEL_COMMIT, LABEL_DIRTY, LABEL_PKG, LABEL_TAG, LABEL_TOOLCHAIN, LABEL_VERSION,
};
use crate::node::agrees;
use crate::outside::{debug_str, debug_text};
use crate::run_meta::{
    ArtifactRef, ArtifactRefView, ContainerRunMeta, ContainerRunMetaView, S3Ref, S3RefView,
};
use crate::text::{
    cat2, cat3, cat4, cat5, cat7, contains, dec, decimal, halves, is_char, is_space, lemma_lead,
    not_char, occurs, pieces, split_once, str_eq, trim, trim_by, trim_end_by, trim_end_char,
};
use vstd::prelude::*;

verus! {

/// `cargo athena submit`.
pub struct SubmitArgs {
    pub bin: BinSel,
    pub workflow: Option<String>,
    pub args: Vec<String>,
    pub input_file: Option<String>,
    pub namespace: Option<String>,
    pub service_account: Option<String>,
    pub node_selector: Vec<String>,
    pub priority: Option<i32>,
    pub argo_server: Option<String>,
    pub insecure: bool,
    pub update: bool,
    pub skip_binary_check: bool,
    pub yes: bool,
}

#[verifier::ext_equal]
pub struct SubmitArgsView {
    pub bin: BinSelView,
    pub workflow: Option<Seq<char>>,
    pub args: Seq<Seq<char>>,
    pub input_file: Option<Seq<char>>,
    pub namespace: Option<Seq<char>>,
    pub service_account: Option<Seq<char>>,
    pub node_selector: Seq<Seq<char>>,
    pub priority: Option<i32>,
    pub argo_server: Option<Seq<char>>,
    pub insecure: bool,
    pub update: bool,
    pub skip_binary_check: bool,
    pub yes: bool,
}

impl DeepView for SubmitArgs {
    type V = SubmitArgsView;

    open spec fn deep_view(&self) -> SubmitArgsView {
        SubmitArgsView {
            bin: self.bin.deep_view(),
            workflow: self.workflow.deep_view(),
            args: self.args.deep_view(),
            input_file: self.input_file.deep_view(),
            namespace: self.namespace.deep_view(),
            service_account: self.service_account.deep_view(),
            node_selector: self.node_selector.deep_view(),
            priority: self.priority,
            argo_server: self.argo_server.deep_view(),
            insecure: self.insecure,
            update: self.update,
            skip_binary_check: self.skip_binary_check,
            yes: self.yes,
        }
    }
}

/// `cargo athena prune`.
pub struct PruneArgs {
    pub tag: String,
    pub bin: BinSel,
    pub keep_binary: bool,
    pub namespace: Option<String>,
    pub argo_server: Option<String>,
    pub insecure: bool,
    pub yes: bool,
}

#[verifier::ext_equal]
pub struct PruneArgsView {
    pub tag: Seq<char>,
    pub bin: BinSelView,
    pub keep_binary: bool,
    pub namespace: Option<Seq<char>>,
    pub argo_server: Option<Seq<char>>,
    pub insecure: bool,
    pub yes: bool,
}

impl DeepView for PruneArgs {
    type V = PruneArgsView;

    open spec fn deep_view(&self) -> PruneArgsView {
        PruneArgsView {
            tag: self.tag@,
            bin: self.bin.deep_view(),
            keep_binary: self.keep_binary,
            namespace: self.namespace.deep_view(),
            argo_server: self.argo_server.deep_view(),
            insecure: self.insecure,
            yes: self.yes,
        }
    }
}

// ---- what is submitted -----------------------------------------------------------------
pub open spec fn dev_note_of(info: ProbeInfoView) -> Option<Seq<char>> {
    if info.channel == "dev"@ {
        Some(
            "note: deploying a DEV build (tag `"@ + info.version_tag
                + "`); its WorkflowTemplates are version-suffixed and won't collide with releases."@,
        )
    } else {
        None
    }
}

/// What is said before a development build is submitted.
pub fn dev_note(info: &ProbeInfo) -> (r: Option<String>)
    ensures
        r.deep_view() == dev_note_of(info.deep_view()),
{
    if str_eq(info.channel.as_str(), "dev") {
        Some(
            cat3(
                "note: deploying a DEV build (tag `",
                info.version_tag.as_str(),
                "`); its WorkflowTemplates are version-suffixed and won't collide with releases.",
            ),
        )
    } else {
        None
    }
}

/// Whether a template answers to a name: its whole name, or the name without the
/// package.
pub open spec fn answers_to(m: ContainerRunMetaView, template: Seq<char>) -> bool {
    m.name == template || m.name == m.package + "-"@ + template
}

/// The first template that answers to a name.
pub open spec fn root_named(ms: Seq<ContainerRunMetaView>, template: Seq<char>) -> Option<
    ContainerRunMetaView,
>
    decreases ms.len(),
{
    if ms.len() == 0 {
        None
    } else if answers_to(ms[0], template) {
        Some(ms[0])
    } else {
        root_named(ms.drop_first(), template)
    }
}

/// The template that is submitted: the first that answers to the given name, or to
/// the binary's own.
pub fn find_root<'a>(
    ms: &'a Vec<ContainerRunMeta>,
    workflow: &Option<String>,
    info: &ProbeInfo,
) -> (r: Result<&'a ContainerRunMeta, String>)
    ensures
        ({
            let template = match workflow.deep_view() {
                Some(t) => t,
                None => info.deep_view().default_template,
            };
            match (r, root_named(ms.deep_view(), template)) {
                (Ok(m), Some(v)) => m.deep_view() == v,
                (Err(e), None) => e@ == "no template named "@ + debug_text(template)
                    + " (see `cargo athena ls`)"@,
                _ => false,
            }
        }),
{
    let template: &str = match workflow {
        Some(t) => t.as_str(),
        None => info.default_template.as_str(),
    };
    let ghost all = ms.deep_view();
    let mut i: usize = 0;
    proof {
        assert(all.skip(0) =~= all);
    }
    while i < ms.len()
        invariant
            all == ms.deep_view(),
            template@ == match workflow.deep_view() {
                Some(t) => t,
                None => info.deep_view().default_template,
            },
            i <= ms@.len(),
            root_named(all, template@) == root_named(all.skip(i as int), template@),
        decreases ms@.len() - i,
    {
        proof {
            assert(all.skip(i as int)[0] == ms@[i as int].deep_view());
            assert(all.skip(i as int).drop_first() =~= all.skip(i + 1));
        }
        let full: String = cat3(ms[i].package.as_str(), "-", template);
        if str_eq(ms[i].name.as_str(), template) || str_eq(ms[i].name.as_str(), full.as_str()) {
            return Ok(&ms[i]);
        }
        i = i + 1;
    }
    let q: String = debug_str(template);
    Err(cat3("no template named ", q.as_str(), " (see `cargo athena ls`)"))
}

/// The tarball of the binary: every container of one binary has the same.
pub open spec fn binary_in(ms: Seq<ContainerRunMetaView>) -> Option<ArtifactRefView>
    decreases ms.len(),
{
    if ms.len() == 0 {
        None
    } else {
        match ms[0].binary_artifact {
            Some(a) => Some(a),
            None => binary_in(ms.drop_first()),
        }
    }
}

/// The tarball that must be there before a run can start; none where the check is
/// skipped or no container needs one.
pub fn binary_to_check<'a>(ms: &'a Vec<ContainerRunMeta>, skip: bool) -> (r: Option<
    &'a ArtifactRef,
>)
    ensures
        match r {
            Some(a) => !skip && binary_in(ms.deep_view()) == Some(a.deep_view()),
            None => skip || binary_in(ms.deep_view()) is None,
        },
{
    if skip {
        return None;
    }
    let ghost all = ms.deep_view();
    let mut i: usize = 0;
    proof {
        assert(all.skip(0) =~= all);
    }
    while i < ms.len()
        invariant
            !skip,
            all == ms.deep_view(),
            i <= ms@.len(),
            binary_in(all) == binary_in(all.skip(i as int)),
        decreases ms@.len() - i,
    {
        proof {
            assert(all.skip(i as int)[0] == ms@[i as int].deep_view());
            assert(all.skip(i as int).drop_first() =~= all.skip(i + 1));
        }
        match &ms[i].binary_artifact {
            Some(a) => {
                return Some(a);
            },
            None => {},
        }
        i = i + 1;
    }
    None
}

/// Why nothing is submitted where the tarball is not there.
pub fn missing_binary(s3: &S3Ref) -> (r: String)
    ensures
        r@ == "binary tarball not found at s3://"@ + s3.deep_view().bucket + "/"@
            + s3.deep_view().key
            + " — run `cargo athena build` and upload it first (or pass --skip-binary-check)"@,
{
    cat5(
        "binary tarball not found at s3://",
        s3.bucket.as_str(),
        "/",
        s3.key.as_str(),
        " — run `cargo athena build` and upload it first (or pass --skip-binary-check)",
    )
}

// ---- where it is submitted to ----------------------------------------------------------
pub open spec fn filled(o: Option<Seq<char>>) -> Option<Seq<char>> {
    match o {
        Some(s) => if s.len() > 0 {
            Some(s)
        } else {
            None
        },
        None => None,
    }
}

/// The namespace: that of the command line, of the environment, of the
/// configuration, or `default`.
pub open spec fn namespace_in(
    flag: Option<Seq<char>>,
    env: Option<Seq<char>>,
    config: Option<Seq<char>>,
) -> Seq<char> {
    match flag {
        Some(n) => n,
        None => match filled(env) {
            Some(n) => n,
            None => match config {
                Some(n) => n,
                None => "default"@,
            },
        },
    }
}

/// The namespace: that of the command line, of the environment, of the
/// configuration, or `default`.
pub fn namespace_for(flag: &Option<String>, env: &Option<String>, config: &Option<String>) -> (r:
    String)
    ensures
        r@ == namespace_in(flag.deep_view(), env.deep_view(), config.deep_view()),
{
    match flag {
        Some(n) => {
            return n.clone();
        },
        None => {},
    }
    match env {
        Some(n) => {
            if !n.as_str().is_empty() {
                return n.clone();
            }
        },
        None => {},
    }
    match config {
        Some(n) => n.clone(),
        None => "default".to_owned(),
    }
}

/// The service account of the run.
pub fn service_account_for(flag: &Option<String>, config: &str) -> (r: String)
    ensures
        r@ == match flag.deep_view() {
            Some(s) => s,
            None => config@,
        },
{
    match flag {
        Some(s) => s.clone(),
        None => config.to_owned(),
    }
}

/// The server that is spoken to; none is the Kubernetes API.
pub open spec fn server_in(flag: Option<Seq<char>>, env: Option<Seq<char>>) -> Option<Seq<char>> {
    let s = match flag {
        Some(f) => Some(f),
        None => env,
    };
    match s {
        Some(t) => if trim_by(t, is_space()).len() > 0 {
            Some(t)
        } else {
            None
        },
        None => None,
    }
}

/// The server that is spoken to; none is the Kubernetes API.
pub fn server_for(flag: &Option<String>, env: &Option<String>) -> (r: Option<String>)
    ensures
        r.deep_view() == server_in(flag.deep_view(), env.deep_view()),
{
    let s: &Option<String> = match flag {
        Some(_) => flag,
        None => env,
    };
    match s {
        Some(t) => {
            let trimmed: String = trim(t.as_str());
            if trimmed.as_str().is_empty() {
                None
            } else {
                Some(t.clone())
            }
        },
        None => None,
    }
}

pub open spec fn base_of(server: Seq<char>) -> Seq<char> {
    let s = trim_end_by(server, is_char('/'));
    if occurs(server, "://"@) {
        s
    } else {
        "https://"@ + s
    }
}

/// The URL that requests to a server begin with.
pub fn base_url(server: &str) -> (r: String)
    ensures
        r@ == base_of(server@),
{
    let s: String = trim_end_char(server, '/');
    if contains(server, "://") {
        s
    } else {
        cat2("https://", s.as_str())
    }
}

/// The path of the templates of a namespace.
pub fn templates_path(ns: &str) -> (r: String)
    ensures
        r@ == "/api/v1/workflow-templates/"@ + ns@,
{
    cat2("/api/v1/workflow-templates/", ns)
}

/// The path of one template.
pub fn template_path(ns: &str, name: &str) -> (r: String)
    ensures
        r@ == "/api/v1/workflow-templates/"@ + ns@ + "/"@ + name@,
{
    cat4("/api/v1/workflow-templates/", ns, "/", name)
}

/// The path of the runs of a namespace.
pub fn workflows_path(ns: &str) -> (r: String)
    ensures
        r@ == "/api/v1/workflows/"@ + ns@,
{
    cat2("/api/v1/workflows/", ns)
}

/// What is said of where things go.
pub fn cluster_line(server: &Option<String>, ns: &str) -> (r: String)
    ensures
        r@ == "cluster: "@ + (match server.deep_view() {
            Some(s) => "Argo Server "@ + base_of(s),
            None => "kube API (kubeconfig/in-cluster)"@,
        }) + " (namespace "@ + ns@ + ")"@,
{
    let which: String = match server {
        Some(s) => {
            let b: String = base_url(s.as_str());
            cat2("Argo Server ", b.as_str())
        },
        None => "kube API (kubeconfig/in-cluster)".to_owned(),
    };
    cat5("cluster: ", which.as_str(), " (namespace ", ns, ")")
}

// ---- what is applied -------------------------------------------------------------------
/// Why a template is applied.
#[derive(Clone, Copy, PartialEq, Eq, Debug, Structural)]
pub enum Why {
    /// The cluster does not have it.
    Create,
    /// The cluster has another.
    Drift,
}

/// Why a template is applied, where the cluster has `live`; none where it is not.
pub open spec fn why_apply(
    t: WorkflowTemplateView,
    live: Option<WorkflowSpecView>,
    update: bool,
) -> Option<Why> {
    match live {
        None => Some(Why::Create),
        Some(l) => if update || t.spec != Some(l) {
            Some(Why::Drift)
        } else {
            None
        },
    }
}

/// Why a template is applied, where the cluster has `live`; none where it is not.
pub fn compare(t: &WorkflowTemplate, live: &Option<WorkflowSpec>, update: bool) -> (r: Option<Why>)
    ensures
        r == why_apply(t.deep_view(), live.deep_view(), update),
{
    match live {
        None => Some(Why::Create),
        Some(l) => {
            let same: bool = match &t.spec {
                Some(s) => s.same(l),
                None => false,
            };
            if update || !same {
                Some(Why::Drift)
            } else {
                None
            }
        },
    }
}

/// The templates that are applied, each by its place in the list.
pub open spec fn plan_of(
    ts: Seq<WorkflowTemplateView>,
    live: Seq<Option<WorkflowSpecView>>,
    update: bool,
) -> Seq<(int, Why)>
    decreases ts.len(),
{
    if ts.len() == 0 {
        Seq::empty()
    } else {
        let front = plan_of(ts.drop_last(), live, update);
        let i = ts.len() - 1;
        match why_apply(ts[i], live[i], update) {
            Some(w) => front.push((i, w)),
            None => front,
        }
    }
}

pub open spec fn plan_view(p: Seq<(usize, Why)>) -> Seq<(int, Why)> {
    Seq::new(p.len(), |i: int| (p[i].0 as int, p[i].1))
}

/// The templates that are applied, each by its place in the list. `live` says for
/// each what the cluster has.
pub fn plan_apply(ts: &Vec<WorkflowTemplate>, live: &Vec<Option<WorkflowSpec>>, update: bool) -> (r:
    Vec<(usize, Why)>)
    requires
        ts@.len() == live@.len(),
    ensures
        plan_view(r@) == plan_of(ts.deep_view(), live.deep_view(), update),
{
    let ghost all = ts.deep_view();
    let ghost lv = live.deep_view();
    let mut out: Vec<(usize, Why)> = Vec::new();
    let mut i: usize = 0;
    proof {
        assert(all.take(0) =~= Seq::<WorkflowTemplateView>::empty());
        assert(plan_view(out@) =~= Seq::<(int, Why)>::empty());
    }
    while i < ts.len()
        invariant
            all == ts.deep_view(),
            lv == live.deep_view(),
            ts@.len() == live@.len(),
            i <= ts@.len(),
            plan_view(out@) == plan_of(all.take(i as int), lv, update),
        decreases ts@.len() - i,
    {
        proof {
            assert(all.take(i + 1).drop_last() =~= all.take(i as int));
            assert(all.take(i + 1)[i as int] == ts@[i as int].deep_view());
            assert(lv[i as int] == live@[i as int].deep_view());
        }
        match compare(&ts[i], &live[i], update) {
            Some(w) => {
                let ghost before = plan_view(out@);
                out.push((i, w));
                proof {
                    assert(plan_view(out@) =~= before.push((i as int, w)));
                }
            },
            None => {},
        }
        i = i + 1;
    }
    proof {
        assert(all.take(i as int) =~= all);
    }
    out
}

pub open spec fn why_word(w: Why) -> Seq<char> {
    match w {
        Why::Create => "create"@,
        Why::Drift => "drift"@,
    }
}

/// One line of what is applied.
pub fn plan_line(t: &WorkflowTemplate, w: Why) -> (r: String)
    ensures
        r@ == "  "@ + padded(why_word(w), 6) + " "@ + named(t.deep_view()),
{
    let word: &str = match w {
        Why::Create => "create",
        Why::Drift => "drift",
    };
    let p: String = pad(word, 6);
    let n: String = name_of(t);
    cat4("  ", p.as_str(), " ", n.as_str())
}

// ---- the run ---------------------------------------------------------------------------
pub open spec fn param_for(k: Seq<char>, vals: Values) -> ParameterView {
    ParameterView { name: k, value: Some(vals[k].text), ..ParameterView::empty() }
}

/// The parameters of the run: every value in its JSON form, in the order of the
/// names.
pub open spec fn params_in(vals: Values) -> Seq<ParameterView> {
    let ks = key_list(vals);
    Seq::new(ks.len(), |i: int| param_for(ks[i], vals))
}

/// The parameters of the run.
pub fn run_params(vals: &TextMap<Json>) -> (r: Vec<Parameter>)
    ensures
        r.deep_view() == params_in(vals.deep_view()),
{
    let ks: Vec<String> = vals.keys();
    let ghost want = params_in(vals.deep_view());
    let mut out: Vec<Parameter> = Vec::new();
    let mut i: usize = 0;
    proof {
        assert(out.deep_view() =~= want.take(0));
    }
    while i < ks.len()
        invariant
            ks.deep_view() == key_list(vals.deep_view()),
            lists(vals.deep_view(), ks.deep_view()),
            want == params_in(vals.deep_view()),
            i <= ks@.len(),
            out.deep_view() == want.take(i as int),
        decreases ks@.len() - i,
    {
        proof {
            assert(ks.deep_view()[i as int] == ks@[i as int]@);
            assert(ks.deep_view().contains(ks@[i as int]@));
            assert(vals.deep_view().dom().contains(ks@[i as int]@));
        }
        match vals.get(ks[i].as_str()) {
            Some(v) => {
                let mut p: Parameter = Parameter::default();
                p.name = ks[i].clone();
                p.value = Some(v.text.clone());
                let ghost before = out.deep_view();
                let ghost pv = p.deep_view();
                out.push(p);
                proof {
                    assert(out.deep_view() =~= before.push(pv));
                    assert(pv =~= want[i as int]);
                    assert(want.take(i + 1) =~= want.take(i as int).push(pv));
                }
            },
            None => {},
        }
        i = i + 1;
    }
    proof {
        assert(want.take(i as int) =~= want);
    }
    out
}

pub open spec fn selector_problem(kv: Seq<char>) -> Seq<char> {
    "--node-selector expects k=v, got "@ + debug_text(kv)
}

/// The node selector of the run, from its `k=v` texts.
pub open spec fn selector_of(pairs: Seq<Seq<char>>) -> Result<Map<Seq<char>, Seq<char>>, Seq<char>>
    decreases pairs.len(),
{
    if pairs.len() == 0 {
        Ok(Map::empty())
    } else {
        match selector_of(pairs.drop_last()) {
            Err(e) => Err(e),
            Ok(m) => match halves(pairs.last(), '=') {
                Some((k, v)) => Ok(m.insert(k, v)),
                None => Err(selector_problem(pairs.last())),
            },
        }
    }
}

proof fn lemma_selector_err(pairs: Seq<Seq<char>>, n: int)
    requires
        0 <= n <= pairs.len(),
        selector_of(pairs.take(n)) is Err,
    ensures
        selector_of(pairs) == selector_of(pairs.take(n)),
    decreases pairs.len(),
{
    if n < pairs.len() {
        assert(pairs.drop_last().take(n) =~= pairs.take(n));
        lemma_selector_err(pairs.drop_last(), n);
    } else {
        assert(pairs.take(n) =~= pairs);
    }
}

/// The node selector of the run, from its `k=v` texts.
pub fn node_selector_for(pairs: &Vec<String>) -> (r: Result<TextMap<String>, String>)
    ensures
        agrees(r, selector_of(pairs.deep_view())),
{
    let ghost all = pairs.deep_view();
    let mut m: TextMap<String> = TextMap::new();
    let mut i: usize = 0;
    proof {
        assert(all.take(0) =~= Seq::<Seq<char>>::empty());
    }
    while i < pairs.len()
        invariant
            all == pairs.deep_view(),
            i <= pairs@.len(),
            selector_of(all.take(i as int)) == Ok::<Map<Seq<char>, Seq<char>>, Seq<char>>(
                m.deep_view(),
            ),
        decreases pairs@.len() - i,
    {
        proof {
            assert(all.take(i + 1).drop_last() =~= all.take(i as int));
            assert(all.take(i + 1).last() == pairs@[i as int]@);
        }
        match split_once(pairs[i].as_str(), '=') {
            Some((k, v)) => {
                m.insert(k, v);
            },
            None => {
                let q: String = debug_str(pairs[i].as_str());
                proof {
                    lemma_selector_err(all, i + 1);
                }
                return Err(cat2("--node-selector expects k=v, got ", q.as_str()));
            },
        }
        i = i + 1;
    }
    proof {
        assert(all.take(i as int) =~= all);
    }
    Ok(m)
}

pub open spec fn enters_at(t: WorkflowTemplateView, root: Seq<char>) -> bool {
    t.spec matches Some(s) && s.entrypoint == root
}

/// The name of the resource that enters at the template `root`.
pub open spec fn resource_of(ts: Seq<WorkflowTemplateView>, root: Seq<char>) -> Option<Seq<char>>
    decreases ts.len(),
{
    if ts.len() == 0 {
        None
    } else if enters_at(ts[0], root) {
        match ts[0].metadata {
            Some(m) => Some(m.name),
            None => None,
        }
    } else {
        resource_of(ts.drop_first(), root)
    }
}

pub open spec fn no_root(root: Seq<char>) -> Seq<char> {
    "emitted WorkflowTemplate set has no root entrypoint "@ + debug_text(root)
}

/// The name of the resource that enters at the template `root`. It is taken from
/// the resource itself and not made up anew.
pub fn root_resource(ts: &Vec<WorkflowTemplate>, root: &str) -> (r: Result<String, String>)
    ensures
        match (r, resource_of(ts.deep_view(), root@)) {
            (Ok(n), Some(v)) => n@ == v,
            (Err(e), None) => e@ == no_root(root@),
            _ => false,
        },
{
    let ghost all = ts.deep_view();
    let mut i: usize = 0;
    proof {
        assert(all.skip(0) =~= all);
    }
    while i < ts.len()
        invariant
            all == ts.deep_view(),
            i <= ts@.len(),
            resource_of(all, root@) == resource_of(all.skip(i as int), root@),
        decreases ts@.len() - i,
    {
        proof {
            assert(all.skip(i as int)[0] == ts@[i as int].deep_view());
            assert(all.skip(i as int).drop_first() =~= all.skip(i + 1));
        }
        let found: bool = match &ts[i].spec {
            Some(s) => str_eq(s.entrypoint.as_str(), root),
            None => false,
        };
        if found {
            return match &ts[i].metadata {
                Some(m) => Ok(m.name.clone()),
                None => {
                    let q: String = debug_str(root);
                    Err(cat2("emitted WorkflowTemplate set has no root entrypoint ", q.as_str()))
                },
            };
        }
        i = i + 1;
    }
    let q: String = debug_str(root);
    Err(cat2("emitted WorkflowTemplate set has no root entrypoint ", q.as_str()))
}

pub open spec fn run_of(
    resource: Seq<char>,
    ns: Seq<char>,
    params: Seq<ParameterView>,
    sa: Seq<char>,
    node_selector: Map<Seq<char>, Seq<char>>,
    priority: Option<i32>,
) -> WorkflowView {
    WorkflowView {
        api_version: API_VERSION@,
        kind: KIND_WORKFLOW@,
        metadata: Some(
            ObjectMetaView {
                generate_name: resource + "-"@,
                namespace: ns,
                ..ObjectMetaView::empty()
            },
        ),
        spec: Some(
            WorkflowSpecView {
                workflow_template_ref: Some(
                    WorkflowTemplateRefView { name: resource, cluster_scope: false },
                ),
                arguments: if params.len() == 0 {
                    None
                } else {
                    Some(ArgumentsView { parameters: params, ..ArgumentsView::empty() })
                },
                service_account_name: sa,
                node_selector,
                priority,
                ..WorkflowSpecView::empty()
            },
        ),
    }
}

/// The run that is created: the resource that enters at `root`, with these values.
pub open spec fn submission_of(
    a: SubmitArgsView,
    ts: Seq<WorkflowTemplateView>,
    root: Seq<char>,
    vals: Values,
    ns: Seq<char>,
    sa: Seq<char>,
) -> Result<WorkflowView, Seq<char>> {
    match selector_of(a.node_selector) {
        Err(e) => Err(e),
        Ok(sel) => match resource_of(ts, root) {
            None => Err(no_root(root)),
            Some(n) => Ok(run_of(n, ns, params_in(vals), sa, sel, a.priority)),
        },
    }
}

/// The run that is created: the resource that enters at `root`, with these values.
pub fn submission(
    a: &SubmitArgs,
    ts: &Vec<WorkflowTemplate>,
    root: &str,
    vals: &TextMap<Json>,
    ns: &str,
    sa: &str,
) -> (r: Result<Workflow, String>)
    ensures
        agrees(
            r,
            submission_of(a.deep_view(), ts.deep_view(), root@, vals.deep_view(), ns@, sa@),
        ),
{
    let sel: TextMap<String> = match node_selector_for(&a.node_selector) {
        Ok(m) => m,
        Err(e) => {
            return Err(e);
        },
    };
    let resource: String = match root_resource(ts, root) {
        Ok(n) => n,
        Err(e) => {
            return Err(e);
        },
    };
    let params: Vec<Parameter> = run_params(vals);
    proof {
        assert(params.deep_view().len() == params@.len());
    }
    let mut meta: ObjectMeta = ObjectMeta::default();
    meta.generate_name = cat2(resource.as_str(), "-");
    meta.namespace = ns.to_owned();
    let mut spec: WorkflowSpec = WorkflowSpec::default();
    spec.workflow_template_ref = Some(
        WorkflowTemplateRef { name: resource, cluster_scope: false },
    );
    if params.len() > 0 {
        let mut args: Arguments = Arguments::default();
        args.parameters = params;
        spec.arguments = Some(args);
    }
    spec.service_account_name = sa.to_owned();
    spec.node_selector = sel;
    spec.priority = a.priority;
    Ok(
        Workflow {
            api_version: API_VERSION.to_owned(),
            kind: KIND_WORKFLOW.to_owned(),
            metadata: Some(meta),
            spec: Some(spec),
        },
    )
}

// ---- when it is done -------------------------------------------------------------------
/// How far a submission has come.
#[derive(Clone, Copy, PartialEq, Eq, Debug, Structural)]
pub enum Stage {
    /// The templates have been compared with the cluster.
    Compared,
    /// It was asked whether to apply templates.
    AskedToApply,
    /// Templates are being applied.
    Applying,
    /// It was asked whether to create the run.
    AskedToRun,
    /// The run is being created.
    Creating,
    /// It is over.
    Ended,
}

/// What happened to a submission.
#[derive(Clone, Copy, PartialEq, Eq, Debug, Structural)]
pub enum Event {
    /// The comparison is done; whether templates must be applied.
    Plan { applies: bool },
    /// A question was answered.
    Answer { yes: bool },
    /// The templates were applied.
    Applied,
    /// The run was created; whether the cluster gave it a name.
    Created { named: bool },
}

/// What to do next.
#[derive(Clone, Copy, PartialEq, Eq, Debug, Structural)]
pub enum Action {
    AskToApply,
    Apply,
    AskToRun,
    Create,
    /// Stop: the templates were not to be applied.
    NotApplied,
    /// Stop: the run was not to be created.
    NotSubmitted,
    /// Stop: the cluster gave the run no name.
    NoName,
    /// The run was created.
    Finish,
}

/// Whether an event can happen at a stage.
pub open spec fn can_happen(s: Stage, e: Event) -> bool {
    match s {
        Stage::Compared => e is Plan,
        Stage::AskedToApply => e is Answer,
        Stage::Applying => e is Applied,
        Stage::AskedToRun => e is Answer,
        Stage::Creating => e is Created,
        Stage::Ended => false,
    }
}

pub open spec fn to_run(assume_yes: bool) -> (Stage, Action) {
    if assume_yes {
        (Stage::Creating, Action::Create)
    } else {
        (Stage::AskedToRun, Action::AskToRun)
    }
}

/// What follows an event. `assume_yes` answers every question before it is asked.
pub open spec fn next_of(s: Stage, e: Event, assume_yes: bool) -> (Stage, Action) {
    match (s, e) {
        (Stage::Compared, Event::Plan { applies }) => if !applies {
            to_run(assume_yes)
        } else if assume_yes {
            (Stage::Applying, Action::Apply)
        } else {
            (Stage::AskedToApply, Action::AskToApply)
        },
        (Stage::AskedToApply, Event::Answer { yes }) => if yes {
            (Stage::Applying, Action::Apply)
        } else {
            (Stage::Ended, Action::NotApplied)
        },
        (Stage::Applying, Event::Applied) => to_run(assume_yes),
        (Stage::AskedToRun, Event::Answer { yes }) => if yes {
            (Stage::Creating, Action::Create)
        } else {
            (Stage::Ended, Action::NotSubmitted)
        },
        (Stage::Creating, Event::Created { named }) => if named {
            (Stage::Ended, Action::Finish)
        } else {
            (Stage::Ended, Action::NoName)
        },
        _ => (Stage::Ended, Action::NotSubmitted),
    }
}

/// What follows an event. `assume_yes` answers every question before it is asked.
pub fn advance(s: Stage, e: Event, assume_yes: bool) -> (r: (Stage, Action))
    requires
        can_happen(s, e),
    ensures
        r == next_of(s, e, assume_yes),
{
    let run: (Stage, Action) = if assume_yes {
        (Stage::Creating, Action::Create)
    } else {
        (Stage::AskedToRun, Action::AskToRun)
    };
    match (s, e) {
        (Stage::Compared, Event::Plan { applies }) => if !applies {
            run
        } else if assume_yes {
            (Stage::Applying, Action::Apply)
        } else {
            (Stage::AskedToApply, Action::AskToApply)
        },
        (Stage::AskedToApply, Event::Answer { yes }) => if yes {
            (Stage::Applying, Action::Apply)
        } else {
            (Stage::Ended, Action::NotApplied)
        },
        (Stage::Applying, Event::Applied) => run,
        (Stage::AskedToRun, Event::Answer { yes }) => if yes {
            (Stage::Creating, Action::Create)
        } else {
            (Stage::Ended, Action::NotSubmitted)
        },
        (Stage::Creating, Event::Created { named }) => if named {
            (Stage::Ended, Action::Finish)
        } else {
            (Stage::Ended, Action::NoName)
        },
        _ => (Stage::Ended, Action::NotSubmitted),
    }
}

/// The stage after some events, from the start.
pub open spec fn stage_after(events: Seq<Event>, assume_yes: bool) -> Stage
    decreases events.len(),
{
    if events.len() == 0 {
        Stage::Compared
    } else {
        next_of(stage_after(events.drop_last(), assume_yes), events.last(), assume_yes).0
    }
}

/// Whether the events can happen one after the other.
pub open spec fn is_course(events: Seq<Event>, assume_yes: bool) -> bool {
    forall|i: int|
        0 <= i < events.len() ==> can_happen(
            stage_after(events.take(i), assume_yes),
            #[trigger] events[i],
        )
}

/// What the question before applying says.
pub fn apply_prompt(n: usize, ns: &str) -> (r: String)
    ensures
        r@ == "\napply "@ + dec(n as nat) + " WorkflowTemplate(s) to `"@ + ns@ + "`?"@,
{
    let d: String = decimal(n as u128);
    cat5("\napply ", d.as_str(), " WorkflowTemplate(s) to `", ns, "`?")
}

/// What the question before creating the run says.
pub fn run_prompt(resource: &str, ns: &str, sa: &str) -> (r: String)
    ensures
        r@ == "submit `"@ + resource@ + "` (workflowTemplateRef) in `"@ + ns@
            + "` as serviceAccount `"@ + sa@ + "`?"@,
{
    cat7(
        "submit `",
        resource,
        "` (workflowTemplateRef) in `",
        ns,
        "` as serviceAccount `",
        sa,
        "`?",
    )
}

// ---- prune -----------------------------------------------------------------------------
/// The tag that is pruned: a tag as it is, or that of a version.
pub fn prune_tag(raw: &str) -> (r: Result<String, String>)
    ensures
        match r {
            Ok(t) => t@ == tag_of(raw@) && t@.len() > 0,
            Err(e) => tag_of(raw@).len() == 0 && e@ == bad_tag(raw@),
        },
{
    user_tag(raw)
}

pub open spec fn selector_for(pkg: Seq<char>, tag: Seq<char>) -> Seq<char> {
    LABEL_PKG@ + "="@ + pkg + ","@ + LABEL_TAG@ + "="@ + tag
}

/// The label selector of one version: it names the package and the tag.
pub fn prune_selector(pkg: &str, tag: &str) -> (r: String)
    ensures
        r@ == selector_for(pkg@, tag@),
{
    cat7(LABEL_PKG, "=", pkg, ",", LABEL_TAG, "=", tag)
}

/// The tarball of one version.
pub fn prune_object(repo: &S3Repo, pkg: &str, tag: &str, bin: &str) -> (r: S3Ref)
    ensures
        r.deep_view() == S3RefView::in_repo(repo.deep_view(), key_of(pkg@, tag@, bin@)),
{
    S3Ref::from_repo(repo, binary_key(pkg, tag, bin))
}

pub open spec fn template_lines(names: Seq<Seq<char>>) -> Seq<char>
    decreases names.len(),
{
    if names.len() == 0 {
        Seq::empty()
    } else {
        template_lines(names.drop_last()) + "  WorkflowTemplate  "@ + names.last() + "\n"@
    }
}

/// What is said before anything is deleted.
pub open spec fn prune_text(
    pkg: Seq<char>,
    tag: Seq<char>,
    ns: Seq<char>,
    names: Seq<Seq<char>>,
    keep_binary: bool,
    s3: S3RefView,
) -> Seq<char> {
    ("\nprune `"@ + pkg + "` @ tag `"@ + tag + "` from `"@ + ns + "`:\n"@) + (if names.len() == 0 {
        "  (no matching WorkflowTemplates)\n"@
    } else {
        template_lines(names)
    }) + (if keep_binary {
        Seq::empty()
    } else {
        "  s3 binary         s3://"@ + s3.bucket + "/"@ + s3.key + "\n"@
    })
}

/// What there is to prune: what is said before it is asked, or that there is
/// nothing.
pub enum PrunePlan {
    Nothing(String),
    Ask(String),
}

/// What there is to prune. Where no template bears the labels and the tarball is
/// kept there is nothing.
pub fn plan_prune(
    pkg: &str,
    tag: &str,
    ns: &str,
    names: &Vec<String>,
    keep_binary: bool,
    s3: &S3Ref,
) -> (r: PrunePlan)
    ensures
        match r {
            PrunePlan::Nothing(m) => names@.len() == 0 && keep_binary && m@
                == "nothing to prune: no WorkflowTemplates match "@ + selector_for(pkg@, tag@)
                + "."@,
            PrunePlan::Ask(t) => !(names@.len() == 0 && keep_binary) && t@ == prune_text(
                pkg@,
                tag@,
                ns@,
                names.deep_view(),
                keep_binary,
                s3.deep_view(),
            ),
        },
{
    let ghost all = names.deep_view();
    if names.len() == 0 && keep_binary {
        let sel: String = prune_selector(pkg, tag);
        return PrunePlan::Nothing(
            cat3("nothing to prune: no WorkflowTemplates match ", sel.as_str(), "."),
        );
    }
    let head: String = cat7("\nprune `", pkg, "` @ tag `", tag, "` from `", ns, "`:\n");
    let mut lines: String = String::new();
    let mut i: usize = 0;
    proof {
        assert(all.take(0) =~= Seq::<Seq<char>>::empty());
        assert(lines@ =~= Seq::<char>::empty());
        assert(all.len() == names@.len());
    }
    while i < names.len()
        invariant
            all == names.deep_view(),
            i <= names@.len(),
            lines@ == template_lines(all.take(i as int)),
        decreases names@.len() - i,
    {
        proof {
            assert(all.take(i + 1).drop_last() =~= all.take(i as int));
            assert(all.take(i + 1).last() == names@[i as int]@);
        }
        lines.append("  WorkflowTemplate  ");
        lines.append(names[i].as_str());
        lines.append("\n");
        i = i + 1;
    }
    proof {
        assert(all.take(i as int) =~= all);
    }
    if names.len() == 0 {
        lines = "  (no matching WorkflowTemplates)\n".to_owned();
    }
    let object: String = if keep_binary {
        let s: String = String::new();
        proof {
            assert(s@ =~= Seq::<char>::empty());
        }
        s
    } else {
        cat5(
            "  s3 binary         s3://",
            s3.bucket.as_str(),
            "/",
            s3.key.as_str(),
            "\n",
        )
    };
    PrunePlan::Ask(cat3(head.as_str(), lines.as_str(), object.as_str()))
}

/// What is said in the end.
pub fn pruned_text(n: usize, keep_binary: bool, pkg: &str, tag: &str) -> (r: String)
    ensures
        r@ == "pruned "@ + dec(n as nat) + " WorkflowTemplate(s)"@ + (if keep_binary {
            Seq::empty()
        } else {
            " + the S3 binary"@
        }) + (" for `"@ + pkg@ + "` @ `"@ + tag@ + "`."@),
{
    let d: String = decimal(n as u128);
    let end: String = cat5(" for `", pkg, "` @ `", tag, "`.");
    if keep_binary {
        let r: String = cat4("pruned ", d.as_str(), " WorkflowTemplate(s)", end.as_str());
        proof {
            let head = "pruned "@ + dec(n as nat) + " WorkflowTemplate(s)"@;
            assert(head + Seq::<char>::empty() =~= head);
        }
        r
    } else {
        cat5("pruned ", d.as_str(), " WorkflowTemplate(s)", " + the S3 binary", end.as_str())
    }
}

// ---- laws ------------------------------------------------------------------------------
/// A template that is not applied stands on the cluster just as it was emitted; and
/// without `update` every template that does is left alone.
pub proof fn law_what_is_not_applied_is_there(
    ts: Seq<WorkflowTemplateView>,
    live: Seq<Option<WorkflowSpecView>>,
    update: bool,
    i: int,
)
    requires
        0 <= i < ts.len(),
        ts.len() <= live.len(),
    ensures
        (forall|w: Why| !plan_of(ts, live, update).contains((i, w))) <==> !update && live[i] is Some
            && ts[i].spec == live[i],
    decreases ts.len(),
{
    let plan = plan_of(ts, live, update);
    let front = plan_of(ts.drop_last(), live, update);
    let last = ts.len() - 1;
    lemma_plan_places(ts.drop_last(), live, update);
    if i < last {
        law_what_is_not_applied_is_there(ts.drop_last(), live, update, i);
        assert(ts.drop_last()[i] == ts[i]);
        assert forall|w: Why| plan.contains((i, w)) <==> front.contains((i, w)) by {
            if plan.contains((i, w)) {
                let k = choose|k: int| 0 <= k < plan.len() && plan[k] == (i, w);
                if k < front.len() {
                    assert(front[k] == (i, w));
                }
            }
            if front.contains((i, w)) {
                let k = choose|k: int| 0 <= k < front.len() && front[k] == (i, w);
                assert(plan[k] == (i, w));
            }
        }
    } else {
        match why_apply(ts[i], live[i], update) {
            Some(w) => {
                assert(plan[front.len() as int] == (i, w));
                assert(plan.contains((i, w)));
            },
            None => {
                assert forall|w: Why| !plan.contains((i, w)) by {
                    if plan.contains((i, w)) {
                        let k = choose|k: int| 0 <= k < plan.len() && plan[k] == (i, w);
                        assert(front[k].0 < ts.len() - 1);
                    }
                }
            },
        }
    }
}

proof fn lemma_plan_places(
    ts: Seq<WorkflowTemplateView>,
    live: Seq<Option<WorkflowSpecView>>,
    update: bool,
)
    ensures
        forall|k: int|
            0 <= k < plan_of(ts, live, update).len() ==> 0 <= (#[trigger] plan_of(
                ts,
                live,
                update,
            )[k]).0 < ts.len(),
    decreases ts.len(),
{
    if ts.len() > 0 {
        lemma_plan_places(ts.drop_last(), live, update);
        let front = plan_of(ts.drop_last(), live, update);
        let plan = plan_of(ts, live, update);
        assert forall|k: int| 0 <= k < plan.len() implies 0 <= (#[trigger] plan[k]).0
            < ts.len() by {
            if k < front.len() {
                assert(plan[k] == front[k]);
            }
        }
    }
}

/// Unless every question is answered before it is asked, templates are applied only
/// after a yes to applying them, and a run is created only after a yes to creating
/// it.
pub proof fn law_nothing_without_consent(s: Stage, e: Event)
    requires
        can_happen(s, e),
    ensures
        next_of(s, e, false).1 == Action::Apply ==> s == Stage::AskedToApply && e == (
        Event::Answer { yes: true }),
        next_of(s, e, false).1 == Action::Create ==> s == Stage::AskedToRun && e == (
        Event::Answer { yes: true }),
{
}

/// A run is created only after the templates that differ have been applied: in
/// every course of events that comes to creating it, either nothing differed or
/// they were applied before.
pub proof fn law_applied_before_created(events: Seq<Event>, assume_yes: bool)
    requires
        is_course(events, assume_yes),
    ensures
        ({
            let s = stage_after(events, assume_yes);
            s == Stage::AskedToRun || s == Stage::Creating ==> events[0] == (Event::Plan {
                applies: false,
            }) || events.contains(Event::Applied)
        }),
        events.len() > 0 ==> events[0] is Plan,
        events.len() > 0 ==> stage_after(events, assume_yes) != Stage::Compared,
    decreases events.len(),
{
    if events.len() > 0 {
        let front = events.drop_last();
        let last = events.len() - 1;
        assert forall|i: int| 0 <= i < front.len() implies can_happen(
            stage_after(front.take(i), assume_yes),
            #[trigger] front[i],
        ) by {
            assert(front.take(i) =~= events.take(i));
            assert(events[i] == front[i]);
        }
        law_applied_before_created(front, assume_yes);
        assert(events.take(last) =~= front);
        assert(can_happen(stage_after(events.take(last), assume_yes), events[last]));
        assert(events.last() == events[last]);
        if front.len() > 0 {
            assert(front[0] == events[0]);
            if front.contains(Event::Applied) {
                let k = choose|k: int| 0 <= k < front.len() && front[k] == Event::Applied;
                assert(events[k] == Event::Applied);
            }
        }
        if events.last() == Event::Applied {
            assert(events[last] == Event::Applied);
        }
    }
}

/// A submission never goes on for ever: after at most five events it is over.
pub proof fn law_submission_ends(events: Seq<Event>, assume_yes: bool)
    requires
        is_course(events, assume_yes),
    ensures
        events.len() <= rank(stage_after(events, assume_yes)) <= 5,
    decreases events.len(),
{
    if events.len() > 0 {
        let front = events.drop_last();
        let last = events.len() - 1;
        assert forall|i: int| 0 <= i < front.len() implies can_happen(
            stage_after(front.take(i), assume_yes),
            #[trigger] front[i],
        ) by {
            assert(front.take(i) =~= events.take(i));
            assert(events[i] == front[i]);
        }
        law_submission_ends(front, assume_yes);
        assert(events.take(last) =~= front);
        assert(can_happen(stage_after(events.take(last), assume_yes), events[last]));
        assert(events.last() == events[last]);
    }
}

/// How many events may have happened at a stage.
pub open spec fn rank(s: Stage) -> int {
    match s {
        Stage::Compared => 0,
        Stage::AskedToApply => 1,
        Stage::Applying => 2,
        Stage::AskedToRun => 3,
        Stage::Creating => 4,
        Stage::Ended => 5,
    }
}

/// What is pruned is always one version of one package: the tag is never empty and
/// holds no comma, so the selector cannot be read as another.
pub proof fn law_prune_is_narrow(raw: Seq<char>)
    requires
        tag_of(raw).len() > 0,
    ensures
        forall|i: int| 0 <= i < tag_of(raw).len() ==> #[trigger] tag_of(raw)[i] != ',',
        is_tag(tag_of(raw)),
{
    law_version_tag_is_safe(raw);
}

/// Whether labels meet one requirement of a selector: a label and its value.
pub open spec fn meets(labels: Labels, requirement: Seq<char>) -> bool {
    halves(requirement, '=') matches Some((key, value)) && labels.dom().contains(key)
        && labels[key] == value
}

/// Whether a selector selects what has these labels: they meet each of its
/// requirements, which commas separate.
pub open spec fn selects(selector: Seq<char>, labels: Labels) -> bool {
    forall|i: int|
        0 <= i < pieces(selector, ',').len() ==> meets(labels, #[trigger] pieces(selector, ',')[i])
}

proof fn lemma_halves(a: Seq<char>, c: char, b: Seq<char>)
    requires
        !a.contains(c),
    ensures
        halves(a + seq![c] + b, c) == Some((a, b)),
        halves(a, c) is None,
{
    let s = a + seq![c] + b;
    assert forall|i: int| 0 <= i < a.len() implies s[i] != c by {
        assert(a.contains(a[i]));
    }
    assert forall|i: int| 0 <= i < a.len() implies a[i] != c by {
        assert(a.contains(a[i]));
    }
    lemma_lead(s, not_char(c), a.len() as int);
    lemma_lead(a, not_char(c), a.len() as int);
    assert(s.subrange(0, a.len() as int) =~= a);
    assert(s.subrange((a.len() + 1) as int, s.len() as int) =~= b);
}

/// The selector of a package and a tag selects what has both labels, and nothing
/// else.
pub proof fn law_selector(pkg: Seq<char>, tag: Seq<char>, labels: Labels)
    requires
        !pkg.contains(','),
        !tag.contains(','),
    ensures
        selects(selector_for(pkg, tag), labels) <==> {
            &&& labels.dom().contains(LABEL_PKG@) && labels[LABEL_PKG@] == pkg
            &&& labels.dom().contains(LABEL_TAG@) && labels[LABEL_TAG@] == tag
        },
{
    reveal_strlit("=");
    reveal_strlit(",");
    reveal_strlit("cargo.athena/pkg");
    reveal_strlit("cargo.athena/tag");
    let a = LABEL_PKG@ + seq!['='] + pkg;
    let b = LABEL_TAG@ + seq!['='] + tag;
    assert(selector_for(pkg, tag) =~= a + seq![','] + b);
    assert(!a.contains(',')) by {
        if a.contains(',') {
            let i = choose|i: int| 0 <= i < a.len() && a[i] == ',';
            if i > LABEL_PKG@.len() {
                assert(pkg[i - LABEL_PKG@.len() - 1] == ',');
            }
        }
    }
    assert(!b.contains(',')) by {
        if b.contains(',') {
            let i = choose|i: int| 0 <= i < b.len() && b[i] == ',';
            if i > LABEL_TAG@.len() {
                assert(tag[i - LABEL_TAG@.len() - 1] == ',');
            }
        }
    }
    lemma_halves(a, ',', b);
    lemma_halves(b, ',', seq![]);
    reveal_with_fuel(pieces, 2);
    let ps = pieces(selector_for(pkg, tag), ',');
    assert(ps =~= seq![a, b]);
    assert(!LABEL_PKG@.contains('='));
    assert(!LABEL_TAG@.contains('='));
    lemma_halves(LABEL_PKG@, '=', pkg);
    lemma_halves(LABEL_TAG@, '=', tag);
    if selects(selector_for(pkg, tag), labels) {
        assert(meets(labels, ps[0]));
        assert(meets(labels, ps[1]));
    }
}

/// What is pruned is what was emitted: the selector of a build's package and tag
/// selects every resource of the build.
pub proof fn law_prune_finds_the_build<T: Template>(c: CollectorView<T>, ctx: BuildCtxView)
    requires
        resources_of(c, ctx) is Ok,
        !ctx.package.contains(','),
        !ctx.tag.contains(','),
    ensures
        forall|i: int|
            0 <= i < resources_of(c, ctx)->Ok_0.len() ==> (
            #[trigger] resources_of(c, ctx)->Ok_0[i]).metadata is Some && selects(
                selector_for(ctx.package, ctx.tag),
                resources_of(c, ctx)->Ok_0[i].metadata->0.labels,
            ),
{
    law_resources(c, ctx);
    law_selector(ctx.package, ctx.tag, labels_of(ctx));
    reveal_strlit("cargo.athena/pkg");
    reveal_strlit("cargo.athena/version");
    reveal_strlit("cargo.athena/bin");
    reveal_strlit("cargo.athena/toolchain");
    reveal_strlit("cargo.athena/tag");
    reveal_strlit("cargo.athena/channel");
    reveal_strlit("cargo.athena/commit");
    reveal_strlit("cargo.athena/dirty");
    let pk = LABEL_PKG@;
    let tg = LABEL_TAG@;
    assert(pk[13] == 'p' && tg[13] == 't' && tg[14] == 'a');
    assert(LABEL_VERSION@[13] == 'v' && LABEL_BIN@[13] == 'b' && LABEL_TOOLCHAIN@[14] == 'o'
        && LABEL_TOOLCHAIN@[13] == 't' && LABEL_CHANNEL@[13] == 'c' && LABEL_COMMIT@[13] == 'c'
        && LABEL_DIRTY@[13] == 'd');
}

/// The parameters of a run name each value once, with its JSON text.
pub proof fn law_run_params(vals: Values, ks: Seq<Seq<char>>)
    requires
        lists(vals, ks),
    ensures
        params_in(vals).len() == ks.len(),
        forall|i: int|
            0 <= i < ks.len() ==> (#[trigger] params_in(vals)[i]).name == ks[i] && params_in(
                vals,
            )[i].value == Some(vals[ks[i]].text),
{
    crate::maps::lemma_one_list(vals, ks, key_list(vals));
}

} // verus!
