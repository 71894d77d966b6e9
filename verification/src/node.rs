//! What a workflow body is analyzed into: tasks, their arguments, their hooks,
//! and the workflows that `if` synthesizes.

use crate::ast::{Path, PathView};
use vstd::prelude::*;

verus! {

/// What a task's argument refers to.
pub enum Arg {
    /// A literal, as JSON.
    Lit(String),
    /// The result of an earlier task.
    Ref(String),
    /// An input of the workflow.
    Input(String),
    /// A field of a value.
    Json { src: JsonSrc, path: Vec<String> },
    /// The item of a fan-out, or a field of it.
    Item { path: Vec<String> },
    /// The collected results of a fan-out.
    FanAgg(String),
    /// The result of a task that may fail.
    RefFallible(String),
    /// The collected results of a fan-out that may fail, and its list.
    FanAggFallible { task: String, list: FanSrc },
}

/// Where the value of a field access comes from.
pub enum JsonSrc {
    Task(String),
    Input(String),
}

/// The list that a fan-out walks.
pub enum FanSrc {
    Task(String),
    Input(String),
}

/// When a hook fires.
pub enum HookWhen {
    Exit,
    Success,
    Failure,
    Error,
    /// An Argo expression as it was written.
    Raw(String),
}

#[verifier::ext_equal]
pub enum ArgView {
    Lit(Seq<char>),
    Ref(Seq<char>),
    Input(Seq<char>),
    Json { src: JsonSrcView, path: Seq<Seq<char>> },
    Item { path: Seq<Seq<char>> },
    FanAgg(Seq<char>),
    RefFallible(Seq<char>),
    FanAggFallible { task: Seq<char>, list: FanSrcView },
}

#[verifier::ext_equal]
pub enum JsonSrcView {
    Task(Seq<char>),
    Input(Seq<char>),
}

#[verifier::ext_equal]
pub enum FanSrcView {
    Task(Seq<char>),
    Input(Seq<char>),
}

#[verifier::ext_equal]
pub enum HookWhenView {
    Exit,
    Success,
    Failure,
    Error,
    Raw(Seq<char>),
}

impl DeepView for JsonSrc {
    type V = JsonSrcView;

    open spec fn deep_view(&self) -> JsonSrcView {
        match self {
            JsonSrc::Task(t) => JsonSrcView::Task(t@),
            JsonSrc::Input(n) => JsonSrcView::Input(n@),
        }
    }
}

impl DeepView for FanSrc {
    type V = FanSrcView;

    open spec fn deep_view(&self) -> FanSrcView {
        match self {
            FanSrc::Task(t) => FanSrcView::Task(t@),
            FanSrc::Input(n) => FanSrcView::Input(n@),
        }
    }
}

impl DeepView for HookWhen {
    type V = HookWhenView;

    open spec fn deep_view(&self) -> HookWhenView {
        match self {
            HookWhen::Exit => HookWhenView::Exit,
            HookWhen::Success => HookWhenView::Success,
            HookWhen::Failure => HookWhenView::Failure,
            HookWhen::Error => HookWhenView::Error,
            HookWhen::Raw(s) => HookWhenView::Raw(s@),
        }
    }
}

impl DeepView for Arg {
    type V = ArgView;

    open spec fn deep_view(&self) -> ArgView {
        match self {
            Arg::Lit(v) => ArgView::Lit(v@),
            Arg::Ref(t) => ArgView::Ref(t@),
            Arg::Input(n) => ArgView::Input(n@),
            Arg::Json { src, path } => ArgView::Json {
                src: src.deep_view(),
                path: path.deep_view(),
            },
            Arg::Item { path } => ArgView::Item { path: path.deep_view() },
            Arg::FanAgg(t) => ArgView::FanAgg(t@),
            Arg::RefFallible(t) => ArgView::RefFallible(t@),
            Arg::FanAggFallible { task, list } => ArgView::FanAggFallible {
                task: task@,
                list: list.deep_view(),
            },
        }
    }
}

impl FanSrc {
    pub fn copy(&self) -> (r: FanSrc)
        ensures
            r.deep_view() == self.deep_view(),
    {
        match self {
            FanSrc::Task(t) => FanSrc::Task(t.clone()),
            FanSrc::Input(n) => FanSrc::Input(n.clone()),
        }
    }
}

impl HookWhen {
    pub fn copy(&self) -> (r: HookWhen)
        ensures
            r.deep_view() == self.deep_view(),
    {
        match self {
            HookWhen::Exit => HookWhen::Exit,
            HookWhen::Success => HookWhen::Success,
            HookWhen::Failure => HookWhen::Failure,
            HookWhen::Error => HookWhen::Error,
            HookWhen::Raw(s) => HookWhen::Raw(s.clone()),
        }
    }
}

/// A hook of a task: when it fires, and which template it runs on what.
pub struct Hook {
    pub when: HookWhen,
    pub template: Path,
    pub args: Vec<Arg>,
}

#[verifier::ext_equal]
pub struct HookView {
    pub when: HookWhenView,
    pub template: PathView,
    pub args: Seq<ArgView>,
}

impl DeepView for Hook {
    type V = HookView;

    open spec fn deep_view(&self) -> HookView {
        HookView {
            when: self.when.deep_view(),
            template: self.template.deep_view(),
            args: self.args.deep_view(),
        }
    }
}

/// One task: the template it calls, on what, and under which conditions.
/// `continue_on` holds whether to go on after an error and after a failure.
pub struct Node {
    pub task: String,
    pub callee: Path,
    pub args: Vec<Arg>,
    pub continue_on: Option<(bool, bool)>,
    pub hooks: Vec<Hook>,
    pub fan: Option<FanSrc>,
    pub when: Option<String>,
}

#[verifier::ext_equal]
pub struct NodeView {
    pub task: Seq<char>,
    pub callee: PathView,
    pub args: Seq<ArgView>,
    pub continue_on: Option<(bool, bool)>,
    pub hooks: Seq<HookView>,
    pub fan: Option<FanSrcView>,
    pub when: Option<Seq<char>>,
}

impl DeepView for Node {
    type V = NodeView;

    open spec fn deep_view(&self) -> NodeView {
        NodeView {
            task: self.task@,
            callee: self.callee.deep_view(),
            args: self.args.deep_view(),
            continue_on: self.continue_on,
            hooks: self.hooks.deep_view(),
            fan: self.fan.deep_view(),
            when: self.when.deep_view(),
        }
    }
}

/// What a synthesized workflow returns.
pub enum SynthOut {
    Nothing,
    /// The result of a task, by its name.
    Terminal(String),
    /// The result of the arm that succeeded.
    Select(Vec<String>),
}

#[verifier::ext_equal]
pub enum SynthOutView {
    Nothing,
    Terminal(Seq<char>),
    Select(Seq<Seq<char>>),
}

impl DeepView for SynthOut {
    type V = SynthOutView;

    open spec fn deep_view(&self) -> SynthOutView {
        match self {
            SynthOut::Nothing => SynthOutView::Nothing,
            SynthOut::Terminal(t) => SynthOutView::Terminal(t@),
            SynthOut::Select(v) => SynthOutView::Select(v.deep_view()),
        }
    }
}

/// A workflow that stands for an `if`, or for one of its arms.
pub struct SynthWf {
    pub ident: String,
    pub argo_name: String,
    pub inputs: Vec<String>,
    pub nodes: Vec<Node>,
    pub callees: Vec<Path>,
    pub output: SynthOut,
}

#[verifier::ext_equal]
pub struct SynthWfView {
    pub ident: Seq<char>,
    pub argo_name: Seq<char>,
    pub inputs: Seq<Seq<char>>,
    pub nodes: Seq<NodeView>,
    pub callees: Seq<PathView>,
    pub output: SynthOutView,
}

impl DeepView for SynthWf {
    type V = SynthWfView;

    open spec fn deep_view(&self) -> SynthWfView {
        SynthWfView {
            ident: self.ident@,
            argo_name: self.argo_name@,
            inputs: self.inputs.deep_view(),
            nodes: self.nodes.deep_view(),
            callees: self.callees.deep_view(),
            output: self.output.deep_view(),
        }
    }
}

/// Whether a result is the one that a contract names: the same value, or the
/// same message.
pub open spec fn agrees<T: DeepView>(r: Result<T, String>, s: Result<T::V, Seq<char>>) -> bool {
    match (r, s) {
        (Ok(a), Ok(b)) => a.deep_view() == b,
        (Err(m), Err(n)) => m@ == n,
        _ => false,
    }
}

} // verus!
