//! What a workflow binary is asked to do. In a pod it runs one template; elsewhere it
//! tells of its templates.

use crate::api::{Workflow, WorkflowTemplate, WorkflowTemplateView, WorkflowView};
use crate::collector::{emitted_of, found_named, described, describe_fn, resources_of, run_problem, Collector, CollectorView, Template};
use crate::context::{BuildCtx, BuildCtxView};
use crate::folds::map_res;
use crate::node::agrees;
use crate::run_meta::{ContainerRunMeta, ContainerRunMetaView};
use crate::text::str_eq;
use vstd::prelude::*;

verus! {

/// The environment variables that a binary reads: `template` names the one to run and `output` the file for its result; the others ask for a list, a description, or the templates.
pub struct ModeEnv {
    pub template: Option<String>,
    pub output: Option<String>,
    pub list: bool,
    pub describe: Option<String>,
    pub emit_json: bool,
    pub with_workflow: Option<String>,
}

#[verifier::ext_equal]
pub struct ModeEnvView {
    pub template: Option<Seq<char>>,
    pub output: Option<Seq<char>>,
    pub list: bool,
    pub describe: Option<Seq<char>>,
    pub emit_json: bool,
    pub with_workflow: Option<Seq<char>>,
}

impl DeepView for ModeEnv {
    type V = ModeEnvView;

    open spec fn deep_view(&self) -> ModeEnvView {
        ModeEnvView {
            template: self.template.deep_view(),
            output: self.output.deep_view(),
            list: self.list,
            describe: self.describe.deep_view(),
            emit_json: self.emit_json,
            with_workflow: self.with_workflow.deep_view(),
        }
    }
}

/// What a binary is asked to do.
pub enum Mode {
    /// Run one template, and put its result into a file where one is named.
    Run { template: String, output: Option<String> },
    /// Tell of all templates.
    List,
    /// Tell of one template.
    Describe { name: String },
    /// Give the resources.
    Templates,
    /// Print the resources, and a workflow that runs them.
    Emit { with_workflow: bool },
}

pub enum ModeView {
    Run { template: Seq<char>, output: Option<Seq<char>> },
    List,
    Describe { name: Seq<char> },
    Templates,
    Emit { with_workflow: bool },
}

impl DeepView for Mode {
    type V = ModeView;

    open spec fn deep_view(&self) -> ModeView {
        match self {
            Mode::Run { template, output } => ModeView::Run {
                template: template@,
                output: output.deep_view(),
            },
            Mode::List => ModeView::List,
            Mode::Describe { name } => ModeView::Describe { name: name@ },
            Mode::Templates => ModeView::Templates,
            Mode::Emit { with_workflow } => ModeView::Emit { with_workflow: *with_workflow },
        }
    }
}

/// What the environment asks for; a template to run comes before everything else.
pub open spec fn mode_of(env: ModeEnvView) -> ModeView {
    match env.template {
        Some(template) => ModeView::Run { template, output: env.output },
        None => if env.list {
            ModeView::List
        } else {
            match env.describe {
                Some(name) => ModeView::Describe { name },
                None => if env.emit_json {
                    ModeView::Templates
                } else {
                    ModeView::Emit { with_workflow: env.with_workflow == Some("1"@) }
                },
            }
        },
    }
}

fn copied(o: &Option<String>) -> (r: Option<String>)
    ensures
        r.deep_view() == o.deep_view(),
{
    match o {
        Some(s) => Some(s.clone()),
        None => None,
    }
}

impl ModeEnv {
    /// What the environment asks for.
    pub fn mode(&self) -> (r: Mode)
        ensures
            r.deep_view() == mode_of(self.deep_view()),
    {
        match &self.template {
            Some(t) => {
                return Mode::Run { template: t.clone(), output: copied(&self.output) };
            },
            None => {},
        }
        if self.list {
            return Mode::List;
        }
        match &self.describe {
            Some(n) => {
                return Mode::Describe { name: n.clone() };
            },
            None => {},
        }
        if self.emit_json {
            return Mode::Templates;
        }
        let with_workflow: bool = match &self.with_workflow {
            Some(v) => str_eq(v.as_str(), "1"),
            None => false,
        };
        Mode::Emit { with_workflow }
    }

    /// Whether the binary runs a template, in a pod.
    pub fn is_container_run(&self) -> (r: bool)
        ensures
            r == (mode_of(self.deep_view()) is Run),
    {
        self.template.is_some()
    }
}

/// What a binary does.
pub enum Reply {
    /// Run this template.
    Run { template: String, output: Option<String> },
    Listed(Vec<ContainerRunMeta>),
    Described(ContainerRunMeta),
    Templates(Vec<WorkflowTemplate>),
    Emitted(Vec<WorkflowTemplate>, Option<Workflow>),
}

pub enum ReplyView {
    Run { template: Seq<char>, output: Option<Seq<char>> },
    Listed(Seq<ContainerRunMetaView>),
    Described(ContainerRunMetaView),
    Templates(Seq<WorkflowTemplateView>),
    Emitted(Seq<WorkflowTemplateView>, Option<WorkflowView>),
}

impl DeepView for Reply {
    type V = ReplyView;

    open spec fn deep_view(&self) -> ReplyView {
        match self {
            Reply::Run { template, output } => ReplyView::Run {
                template: template@,
                output: output.deep_view(),
            },
            Reply::Listed(ms) => ReplyView::Listed(ms.deep_view()),
            Reply::Described(m) => ReplyView::Described(m.deep_view()),
            Reply::Templates(ts) => ReplyView::Templates(ts.deep_view()),
            Reply::Emitted(ts, w) => ReplyView::Emitted(ts.deep_view(), w.deep_view()),
        }
    }
}

/// What a binary does in a mode. `root` is its root template, and `argc` how many
/// arguments a template to run is given.
pub open spec fn reply_of<T: Template>(
    c: CollectorView<T>,
    mode: ModeView,
    root: Seq<char>,
    krate: Seq<char>,
    ctx: BuildCtxView,
    argc: nat,
) -> Result<ReplyView, Seq<char>> {
    match mode {
        ModeView::Run { template, output } => match run_problem(c, template, argc) {
            Some(m) => Err(m),
            None => Ok(ReplyView::Run { template, output }),
        },
        ModeView::List => match map_res(c.builders, describe_fn(c, ctx, krate)) {
            Ok(ms) => Ok(ReplyView::Listed(ms)),
            Err(m) => Err(m),
        },
        ModeView::Describe { name } => match found_named(c.builders, ctx, krate, name) {
            Ok(t) => Ok(ReplyView::Described(described(c, t, krate))),
            Err(m) => Err(m),
        },
        ModeView::Templates => match resources_of(c, ctx) {
            Ok(ts) => Ok(ReplyView::Templates(ts)),
            Err(m) => Err(m),
        },
        ModeView::Emit { with_workflow } => match emitted_of(c, root, ctx, with_workflow) {
            Ok((ts, w)) => Ok(ReplyView::Emitted(ts, w)),
            Err(m) => Err(m),
        },
    }
}

pub open spec fn ctx_view(ctx: Option<&BuildCtx>) -> BuildCtxView {
    match ctx {
        Some(c) => c.deep_view(),
        None => arbitrary(),
    }
}

/// What a binary does. Only a template that is run needs no context, and with it no
/// configuration.
pub fn entrypoint_impl<T: Template>(
    c: &Collector<T>,
    env: &ModeEnv,
    root: &str,
    krate: &str,
    ctx: Option<&BuildCtx>,
    argc: usize,
) -> (r: Result<Reply, String>)
    requires
        ctx is None ==> mode_of(env.deep_view()) is Run,
    ensures
        agrees(
            r,
            reply_of(c@, mode_of(env.deep_view()), root@, krate@, ctx_view(ctx), argc as nat),
        ),
{
    let mode: Mode = env.mode();
    let ctx: &BuildCtx = match mode {
        Mode::Run { template, output } => {
            return match c.check_run(template.as_str(), argc) {
                Ok(_) => Ok(Reply::Run { template, output }),
                Err(m) => Err(m),
            };
        },
        _ => ctx.unwrap(),
    };
    match mode {
        Mode::List => match c.list(ctx, krate) {
            Ok(ms) => Ok(Reply::Listed(ms)),
            Err(m) => Err(m),
        },
        Mode::Describe { name } => match c.describe(ctx, krate, name.as_str()) {
            Ok(m) => Ok(Reply::Described(m)),
            Err(m) => Err(m),
        },
        Mode::Templates => match c.build_templates(ctx) {
            Ok(ts) => Ok(Reply::Templates(ts)),
            Err(m) => Err(m),
        },
        Mode::Emit { with_workflow } => match c.emit(root, ctx, with_workflow) {
            Ok((ts, w)) => Ok(Reply::Emitted(ts, w)),
            Err(m) => Err(m),
        },
        Mode::Run { template, output } => Ok(Reply::Run { template, output }),
    }
}

// ---- laws ------------------------------------------------------------------------------
/// What a pod runs does not depend on the configuration, nor on what else the
/// environment asks for.
pub proof fn law_a_pod_needs_no_configuration<T: Template>(
    c: CollectorView<T>,
    env: ModeEnvView,
    other: ModeEnvView,
    root: Seq<char>,
    krate: Seq<char>,
    ctx: BuildCtxView,
    other_ctx: BuildCtxView,
    argc: nat,
)
    requires
        env.template is Some,
        other.template == env.template,
        other.output == env.output,
    ensures
        reply_of(c, mode_of(env), root, krate, ctx, argc) == reply_of(
            c,
            mode_of(other),
            root,
            krate,
            other_ctx,
            argc,
        ),
{
}

/// What is described of one template is what the list tells of it: it is one of the
/// list's entries.
pub proof fn law_described_as_listed<T: Template>(
    c: CollectorView<T>,
    root: Seq<char>,
    krate: Seq<char>,
    ctx: BuildCtxView,
    name: Seq<char>,
)
    ensures
        ({
            let one = reply_of(c, ModeView::Describe { name }, root, krate, ctx, 0);
            let all = reply_of(c, ModeView::List, root, krate, ctx, 0);
            one is Ok && all is Ok ==> all->Ok_0->Listed_0.contains(one->Ok_0->Described_0)
        }),
{
    let f = describe_fn(c, ctx, krate);
    if map_res(c.builders, f) is Ok && found_named(c.builders, ctx, krate, name) is Ok {
        lemma_listed(c, c.builders, krate, ctx, name);
    }
}

proof fn lemma_listed<T: Template>(
    c: CollectorView<T>,
    builders: Seq<T>,
    krate: Seq<char>,
    ctx: BuildCtxView,
    name: Seq<char>,
)
    requires
        map_res(builders, describe_fn(c, ctx, krate)) is Ok,
        found_named(builders, ctx, krate, name) is Ok,
    ensures
        map_res(builders, describe_fn(c, ctx, krate))->Ok_0.contains(
            described(c, found_named(builders, ctx, krate, name)->Ok_0, krate),
        ),
    decreases builders.len(),
{
    let f = describe_fn(c, ctx, krate);
    lemma_head(builders, f);
    let t = builders[0].built(ctx)->Ok_0;
    let out = map_res(builders, f)->Ok_0;
    let rest = map_res(builders.drop_first(), f)->Ok_0;
    if t.name == name || t.name == krate + "-"@ + name {
        assert(out[0] == described(c, t, krate));
    } else {
        lemma_listed(c, builders.drop_first(), krate, ctx, name);
        let want = described(c, found_named(builders.drop_first(), ctx, krate, name)->Ok_0, krate);
        let k = choose|k: int| 0 <= k < rest.len() && rest[k] == want;
        assert(out[k + 1] == want);
    }
}

proof fn lemma_head<A, B>(s: Seq<A>, f: spec_fn(A) -> Result<B, Seq<char>>)
    requires
        s.len() > 0,
        map_res(s, f) is Ok,
    ensures
        f(s[0]) is Ok,
        map_res(s.drop_first(), f) is Ok,
        map_res(s, f)->Ok_0 == seq![f(s[0])->Ok_0] + map_res(s.drop_first(), f)->Ok_0,
    decreases s.len(),
{
    if s.len() == 1 {
        assert(s.drop_last() =~= Seq::<A>::empty());
        assert(s.drop_first() =~= Seq::<A>::empty());
        assert(map_res(s, f)->Ok_0 =~= seq![f(s[0])->Ok_0] + map_res(s.drop_first(), f)->Ok_0);
    } else {
        lemma_head(s.drop_last(), f);
        assert(s.drop_last().drop_first() =~= s.drop_first().drop_last());
        assert(s.drop_last()[0] == s[0]);
        assert(s.drop_first().last() == s.last());
        assert(map_res(s, f)->Ok_0 =~= seq![f(s[0])->Ok_0] + map_res(s.drop_first(), f)->Ok_0);
    }
}

} // verus!
