//! A program: its declared templates, the names they go by, and what a root
//! brings along.

use crate::api;
use crate::api::{DagTaskView, TemplateRefView, TemplateView};
use crate::ast::{Path, PathView};
use crate::collector::{
    run_problem, Collector, CollectorView, Identity, IdentityView, RootAttrs, RootAttrsView, Template,
    TemplateKind,
};
use crate::container::{build_container, container_template_of, ContainerDecl, ContainerDeclView};
use crate::context::{BuildCtx, BuildCtxView};
use crate::delivery::CARGO_ATHENA_TEMPLATE_ENV;
use crate::folds::{lemma_map_res_all, lemma_map_res_len, lemma_map_res_step, map_res};
use crate::lower::{hook_key, hooks_upto, IoKind, TemplateInfo, TemplateInfoView};
use crate::maps::Data;
use crate::node::{agrees, HookView, NodeView, SynthWf, SynthWfView};
use crate::signature::{Signature, SignatureView};
use crate::text::{cat3, str_eq};
use crate::workflow::{
    build_workflow, copy_pairs, copy_tolerations, emit_synth, hook_info_fn, known_as, node_wire,
    node_wire_fn, one_each, synth_template_of, unknown_template, workflow_template_of, Known,
    Registry, WorkflowDecl, WorkflowDeclView,
};
use vstd::prelude::*;

verus! {

/// A declared template.
pub enum Body {
    Container(ContainerDecl),
    Workflow(WorkflowDecl),
    /// An `if` of a workflow, or one of its arms.
    Synth(SynthWf),
}

#[verifier::ext_equal]
pub enum BodyView {
    Container(ContainerDeclView),
    Workflow(WorkflowDeclView),
    Synth(SynthWfView),
}

impl DeepView for Body {
    type V = BodyView;

    open spec fn deep_view(&self) -> BodyView {
        match self {
            Body::Container(d) => BodyView::Container(d.deep_view()),
            Body::Workflow(d) => BodyView::Workflow(d.deep_view()),
            Body::Synth(s) => BodyView::Synth(s.deep_view()),
        }
    }
}

/// A declared template and the place of the declaration that it belongs to.
pub struct Unit {
    pub owner: usize,
    pub body: Body,
}

#[verifier::ext_equal]
pub struct UnitView {
    pub owner: usize,
    pub body: BodyView,
}

impl DeepView for Unit {
    type V = UnitView;

    open spec fn deep_view(&self) -> UnitView {
        UnitView { owner: self.owner, body: self.body.deep_view() }
    }
}

impl UnitView {
    pub open spec fn argo_name(self) -> Seq<char> {
        match self.body {
            BodyView::Container(d) => d.argo_name,
            BodyView::Workflow(d) => d.argo_name,
            BodyView::Synth(s) => s.argo_name,
        }
    }

    /// The templates that it names.
    pub open spec fn callees(self) -> Seq<PathView> {
        match self.body {
            BodyView::Container(d) => match d.on_exit_if_root {
                Some(p) => seq![p],
                None => Seq::empty(),
            },
            BodyView::Workflow(d) => d.callees,
            BodyView::Synth(s) => s.callees,
        }
    }

    /// What a caller has to know of it.
    pub open spec fn info(self) -> TemplateInfoView {
        match self.body {
            BodyView::Container(d) => TemplateInfoView {
                argo_name: d.argo_name,
                inputs: d.signature.inputs,
                input_kinds: d.signature.input_kinds,
            },
            BodyView::Workflow(d) => TemplateInfoView {
                argo_name: d.argo_name,
                inputs: d.signature.inputs,
                input_kinds: d.signature.input_kinds,
            },
            BodyView::Synth(s) => TemplateInfoView {
                argo_name: s.argo_name,
                inputs: s.inputs,
                input_kinds: Seq::empty(),
            },
        }
    }

    /// Whether it is the `if` or arm `ident` of the declaration at `owner`.
    pub open spec fn is_part(self, owner: usize, ident: Seq<char>) -> bool {
        match self.body {
            BodyView::Synth(s) => self.owner == owner && s.ident == ident,
            _ => false,
        }
    }
}

impl Unit {
    fn name(&self) -> (r: &str)
        ensures
            r@ == self.deep_view().argo_name(),
    {
        match &self.body {
            Body::Container(d) => d.argo_name.as_str(),
            Body::Workflow(d) => d.argo_name.as_str(),
            Body::Synth(s) => s.argo_name.as_str(),
        }
    }

    fn callee_list(&self) -> (r: Vec<Path>)
        ensures
            r.deep_view() == self.deep_view().callees(),
    {
        match &self.body {
            Body::Container(d) => {
                let mut out: Vec<Path> = Vec::new();
                match &d.on_exit_if_root {
                    Some(p) => {
                        out.push(p.dup());
                        proof {
                            assert(out.deep_view() =~= seq![p.deep_view()]);
                        }
                    },
                    None => {
                        proof {
                            assert(out.deep_view() =~= Seq::<PathView>::empty());
                        }
                    },
                }
                out
            },
            Body::Workflow(d) => d.callees.dup(),
            Body::Synth(s) => s.callees.dup(),
        }
    }

    fn information(&self) -> (r: TemplateInfo)
        ensures
            r.deep_view() == self.deep_view().info(),
    {
        match &self.body {
            Body::Container(d) => TemplateInfo {
                argo_name: d.argo_name.clone(),
                inputs: d.signature.inputs.dup(),
                input_kinds: copy_kinds(&d.signature.input_kinds),
            },
            Body::Workflow(d) => TemplateInfo {
                argo_name: d.argo_name.clone(),
                inputs: d.signature.inputs.dup(),
                input_kinds: copy_kinds(&d.signature.input_kinds),
            },
            Body::Synth(s) => TemplateInfo {
                argo_name: s.argo_name.clone(),
                inputs: s.inputs.dup(),
                input_kinds: Vec::new(),
            },
        }
    }

    fn part(&self, owner: usize, ident: &str) -> (r: bool)
        ensures
            r == self.deep_view().is_part(owner, ident@),
    {
        match &self.body {
            Body::Synth(s) => self.owner == owner && str_eq(s.ident.as_str(), ident),
            _ => false,
        }
    }
}

fn copy_kinds(v: &Vec<IoKind>) -> (r: Vec<IoKind>)
    ensures
        r@ == v@,
{
    let mut out: Vec<IoKind> = Vec::new();
    let mut i: usize = 0;
    while i < v.len()
        invariant
            i <= v@.len(),
            out@ == v@.take(i as int),
        decreases v@.len() - i,
    {
        out.push(v[i]);
        i = i + 1;
        proof {
            assert(out@ =~= v@.take(i as int));
        }
    }
    proof {
        assert(out@ =~= v@);
    }
    out
}

// ---- declaring ---------------------------------------------------------------------------
/// The declared templates of a program, and the places that paths stand for.
pub struct Program {
    units: Vec<Unit>,
    names: Vec<(String, usize)>,
}

#[verifier::ext_equal]
pub struct ProgramView {
    pub units: Seq<UnitView>,
    pub names: Seq<(Seq<char>, usize)>,
}

impl DeepView for Program {
    type V = ProgramView;

    closed spec fn deep_view(&self) -> ProgramView {
        ProgramView { units: self.units.deep_view(), names: self.names.deep_view() }
    }
}

/// The workflows of the `if`s of the declaration at `owner`.
pub open spec fn parts_of(owner: usize, synths: Seq<SynthWfView>) -> Seq<UnitView> {
    Seq::new(synths.len(), |i: int| UnitView { owner, body: BodyView::Synth(synths[i]) })
}

/// The first declaration in `units` that is part `ident` of the one at `owner`.
pub open spec fn part_at(units: Seq<UnitView>, owner: usize, ident: Seq<char>) -> Option<usize>
    decreases units.len(),
{
    if units.len() == 0 {
        None
    } else {
        match part_at(units.drop_last(), owner, ident) {
            Some(i) => Some(i),
            None => if units.last().is_part(owner, ident) {
                Some((units.len() - 1) as usize)
            } else {
                None
            },
        }
    }
}

/// The place that `text` was last given to.
pub open spec fn place_of(names: Seq<(Seq<char>, usize)>, text: Seq<char>) -> Option<usize>
    decreases names.len(),
{
    if names.len() == 0 {
        None
    } else if names.last().0 == text {
        Some(names.last().1)
    } else {
        place_of(names.drop_last(), text)
    }
}

impl ProgramView {
    pub open spec fn empty() -> ProgramView {
        ProgramView { units: Seq::empty(), names: Seq::empty() }
    }

    /// The declaration that a path stands for, written in the declaration at
    /// `owner`: a part of that one, or what the program calls so.
    pub open spec fn resolved(self, owner: usize, text: Seq<char>) -> Option<usize> {
        match part_at(self.units, owner, text) {
            Some(i) => Some(i),
            None => self.called(text),
        }
    }

    /// The declaration that the program calls `text`.
    pub open spec fn called(self, text: Seq<char>) -> Option<usize> {
        match place_of(self.names, text) {
            Some(i) => if i < self.units.len() {
                Some(i)
            } else {
                None
            },
            None => None,
        }
    }

    pub open spec fn resolve_fn(self, owner: usize) -> spec_fn(PathView) -> Result<
        usize,
        Seq<char>,
    > {
        |p: PathView|
            match self.resolved(owner, p.text) {
                Some(i) => Ok(i),
                None => Err(unknown_template(p.text)),
            }
    }

    /// The declarations that the one at `i` names.
    pub open spec fn callees_at(self, i: usize) -> Result<Seq<usize>, Seq<char>> {
        map_res(self.units[i as int].callees(), self.resolve_fn(self.units[i as int].owner))
    }

    pub open spec fn name_at(self, i: usize) -> Seq<char> {
        self.units[i as int].argo_name()
    }

    pub open spec fn names_at(self, at: Seq<usize>) -> Seq<Seq<char>> {
        Seq::new(at.len(), |i: int| self.name_at(at[i]))
    }
}

proof fn lemma_part_bound(units: Seq<UnitView>, owner: usize, ident: Seq<char>)
    requires
        units.len() <= usize::MAX,
    ensures
        part_at(units, owner, ident) matches Some(i) ==> i < units.len() && units[i as int].is_part(
            owner,
            ident,
        ),
    decreases units.len(),
{
    if units.len() > 0 {
        lemma_part_bound(units.drop_last(), owner, ident);
    }
}

impl Program {
    /// A program that declares nothing.
    pub fn new() -> (r: Program)
        ensures
            r.deep_view() == ProgramView::empty(),
    {
        let r: Program = Program { units: Vec::new(), names: Vec::new() };
        proof {
            assert(r.deep_view() =~= ProgramView::empty());
        }
        r
    }

    fn give_name(&mut self, path: String, at: usize)
        ensures
            final(self).deep_view() == (ProgramView {
                names: old(self).deep_view().names.push((path@, at)),
                ..old(self).deep_view()
            }),
    {
        let ghost before = self.names.deep_view();
        let ghost pv = path@;
        self.names.push((path, at));
        proof {
            assert(self.names.deep_view() =~= before.push((pv, at)));
        }
    }

    fn push_unit(&mut self, u: Unit)
        ensures
            final(self).deep_view() == (ProgramView {
                units: old(self).deep_view().units.push(u.deep_view()),
                ..old(self).deep_view()
            }),
    {
        let ghost before = self.units.deep_view();
        let ghost uv = u.deep_view();
        self.units.push(u);
        proof {
            assert(self.units.deep_view() =~= before.push(uv));
        }
    }

    /// Declares a container under a path.
    pub fn declare_container(&mut self, path: String, d: ContainerDecl)
        ensures
            final(self).deep_view() == (ProgramView {
                units: old(self).deep_view().units.push(
                    UnitView {
                        owner: old(self).deep_view().units.len() as usize,
                        body: BodyView::Container(d.deep_view()),
                    },
                ),
                names: old(self).deep_view().names.push(
                    (path@, old(self).deep_view().units.len() as usize),
                ),
            }),
    {
        let at: usize = self.units.len();
        proof {
            assert(self.deep_view().units.len() == at);
        }
        self.push_unit(Unit { owner: at, body: Body::Container(d) });
        self.give_name(path, at);
    }

    /// Declares a workflow under a path, and behind it, as declarations of their
    /// own, the workflows that its `if`s became.
    pub fn declare_workflow(&mut self, path: String, d: WorkflowDecl)
        ensures
            final(self).deep_view() == (ProgramView {
                units: old(self).deep_view().units.push(
                    UnitView {
                        owner: old(self).deep_view().units.len() as usize,
                        body: BodyView::Workflow(
                            WorkflowDeclView { synths: Seq::empty(), ..d.deep_view() },
                        ),
                    },
                ) + parts_of(old(self).deep_view().units.len() as usize, d.deep_view().synths),
                names: old(self).deep_view().names.push(
                    (path@, old(self).deep_view().units.len() as usize),
                ),
            }),
    {
        let at: usize = self.units.len();
        proof {
            assert(self.deep_view().units.len() == at);
        }
        let ghost sv = d.deep_view().synths;
        let mut own: WorkflowDecl = d;
        let mut rest: Vec<SynthWf> = Vec::new();
        proof {
            assert(rest.deep_view() =~= Seq::<SynthWfView>::empty());
        }
        std::mem::swap(&mut own.synths, &mut rest);
        self.push_unit(Unit { owner: at, body: Body::Workflow(own) });
        self.give_name(path, at);
        let ghost base = self.deep_view();
        let ghost want = parts_of(at, sv);
        proof {
            assert(base.units + want.take(0) =~= base.units);
            assert(sv.skip(0) =~= sv);
        }
        let ghost mut n: int = 0;
        while rest.len() > 0
            invariant
                0 <= n <= sv.len(),
                want == parts_of(at, sv),
                rest.deep_view() == sv.skip(n),
                rest@.len() == sv.len() - n,
                self.deep_view() == (ProgramView { units: base.units + want.take(n), ..base }),
            decreases rest@.len(),
        {
            let ghost r0 = rest.deep_view();
            let s: SynthWf = rest.remove(0);
            proof {
                assert(rest.deep_view() =~= r0.drop_first());
                assert(s.deep_view() == r0[0]);
                assert(sv.skip(n).drop_first() =~= sv.skip(n + 1));
            }
            self.push_unit(Unit { owner: at, body: Body::Synth(s) });
            proof {
                assert((base.units + want.take(n)).push(want[n]) =~= base.units + want.take(
                    n + 1,
                ));
                n = n + 1;
            }
        }
        proof {
            assert(want.take(n) =~= want);
        }
    }

    /// Gives a path to a declared template that another path stands for.
    pub fn alias(&mut self, path: String, known: &str) -> (r: bool)
        ensures
            match place_of(old(self).deep_view().names, known@) {
                Some(i) => r && final(self).deep_view() == (ProgramView {
                    names: old(self).deep_view().names.push((path@, i)),
                    ..old(self).deep_view()
                }),
                None => !r && final(self).deep_view() == old(self).deep_view(),
            },
    {
        match self.find_place(known) {
            Some(i) => {
                self.give_name(path, i);
                true
            },
            None => false,
        }
    }

    fn find_place(&self, text: &str) -> (r: Option<usize>)
        ensures
            r == place_of(self.deep_view().names, text@),
    {
        let ghost all = self.names.deep_view();
        let mut i: usize = self.names.len();
        proof {
            assert(all.take(i as int) =~= all);
        }
        while i > 0
            invariant
                all == self.names.deep_view(),
                i <= self.names@.len(),
                place_of(all, text@) == place_of(all.take(i as int), text@),
            decreases i,
        {
            i = i - 1;
            proof {
                assert(all.take(i + 1).drop_last() =~= all.take(i as int));
                assert(all.take(i + 1).last() == self.names@[i as int].deep_view());
            }
            if str_eq(self.names[i].0.as_str(), text) {
                return Some(self.names[i].1);
            }
        }
        None
    }

    fn find_part(&self, owner: usize, ident: &str) -> (r: Option<usize>)
        ensures
            r == part_at(self.deep_view().units, owner, ident@),
    {
        let ghost all = self.units.deep_view();
        let mut i: usize = 0;
        proof {
            assert(all.take(0) =~= Seq::<UnitView>::empty());
        }
        while i < self.units.len()
            invariant
                all == self.units.deep_view(),
                i <= self.units@.len(),
                part_at(all.take(i as int), owner, ident@) is None,
            decreases self.units@.len() - i,
        {
            proof {
                assert(all.take(i + 1).drop_last() =~= all.take(i as int));
                assert(all.take(i + 1).last() == self.units@[i as int].deep_view());
            }
            if self.units[i].part(owner, ident) {
                proof {
                    lemma_part_kept(all, owner, ident@, i + 1);
                }
                return Some(i);
            }
            i = i + 1;
        }
        proof {
            assert(all.take(i as int) =~= all);
        }
        None
    }

    /// The declaration that a path stands for, written in the declaration at
    /// `owner`.
    pub fn resolve(&self, owner: usize, text: &str) -> (r: Option<usize>)
        ensures
            r == self.deep_view().resolved(owner, text@),
    {
        proof {
            assert(self.deep_view().units.len() == self.units@.len());
        }
        match self.find_part(owner, text) {
            Some(i) => Some(i),
            None => self.find(text),
        }
    }

    /// The declaration that the program calls `text`.
    pub fn find(&self, text: &str) -> (r: Option<usize>)
        ensures
            r == self.deep_view().called(text@),
    {
        proof {
            assert(self.deep_view().units.len() == self.units@.len());
        }
        match self.find_place(text) {
            Some(i) => if i < self.units.len() {
                Some(i)
            } else {
                None
            },
            None => None,
        }
    }

    fn resolve_all(&self, i: usize) -> (r: Result<Vec<usize>, String>)
        requires
            i < self.deep_view().units.len(),
        ensures
            agrees(r, self.deep_view().callees_at(i)),
    {
        let ghost p = self.deep_view();
        proof {
            assert(p.units[i as int] == self.units@[i as int].deep_view());
        }
        let owner: usize = self.units[i].owner;
        let paths: Vec<Path> = self.units[i].callee_list();
        let ghost f = p.resolve_fn(owner);
        let ghost all = paths.deep_view();
        let mut out: Vec<usize> = Vec::new();
        let mut k: usize = 0;
        proof {
            lemma_map_res_all(all, f);
            assert(out.deep_view() =~= Seq::<usize>::empty());
        }
        while k < paths.len()
            invariant
                p == self.deep_view(),
                f == p.resolve_fn(owner),
                all == paths.deep_view(),
                p.callees_at(i) == map_res(all, f),
                k <= paths@.len(),
                map_res(all.take(k as int), f) == Ok::<Seq<usize>, Seq<char>>(out.deep_view()),
            decreases paths@.len() - k,
        {
            proof {
                lemma_map_res_step(all, f, k as int);
                assert(all[k as int] == paths@[k as int].deep_view());
            }
            let ghost before = out.deep_view();
            match self.resolve(owner, paths[k].text.as_str()) {
                Some(j) => {
                    out.push(j);
                    proof {
                        assert(out.deep_view() =~= before.push(j));
                    }
                },
                None => {
                    return Err(cat3("cannot find template `", paths[k].text.as_str(), "`"));
                },
            }
            k = k + 1;
        }
        proof {
            lemma_map_res_all(all, f);
        }
        Ok(out)
    }
}

proof fn lemma_part_kept(units: Seq<UnitView>, owner: usize, ident: Seq<char>, n: int)
    requires
        0 <= n <= units.len(),
        part_at(units.take(n), owner, ident) is Some,
    ensures
        part_at(units, owner, ident) == part_at(units.take(n), owner, ident),
    decreases units.len(),
{
    if n < units.len() {
        assert(units.drop_last().take(n) =~= units.take(n));
        lemma_part_kept(units.drop_last(), owner, ident, n);
    } else {
        assert(units.take(n) =~= units);
    }
}

// ---- what a root brings along ------------------------------------------------------------
/// How many declarations have names that are not in `seen`.
pub open spec fn unseen(units: Seq<UnitView>, seen: Seq<Seq<char>>) -> nat
    decreases units.len(),
{
    if units.len() == 0 {
        0
    } else {
        unseen(units.drop_last(), seen) + if seen.contains(units.last().argo_name()) {
            0nat
        } else {
            1nat
        }
    }
}

pub proof fn lemma_unseen(units: Seq<UnitView>, seen: Seq<Seq<char>>, n: Seq<char>)
    ensures
        unseen(units, seen.push(n)) <= unseen(units, seen),
        !seen.contains(n) && (exists|i: int|
            0 <= i < units.len() && (#[trigger] units[i]).argo_name() == n) ==> unseen(
            units,
            seen.push(n),
        ) < unseen(units, seen),
    decreases units.len(),
{
    if units.len() > 0 {
        let front = units.drop_last();
        lemma_unseen(front, seen, n);
        let m = units.last().argo_name();
        assert(seen.push(n).contains(m) <==> seen.contains(m) || m == n) by {
            if seen.contains(m) {
                let i = choose|i: int| 0 <= i < seen.len() && seen[i] == m;
                assert(seen.push(n)[i] == m);
            }
            assert(seen.push(n)[seen.len() as int] == n);
            if seen.push(n).contains(m) && m != n {
                let i = choose|i: int| 0 <= i < seen.push(n).len() && seen.push(n)[i] == m;
                assert(seen[i] == m);
            }
        }
        if exists|i: int| 0 <= i < units.len() && (#[trigger] units[i]).argo_name() == n {
            let i = choose|i: int| 0 <= i < units.len() && (#[trigger] units[i]).argo_name() == n;
            if i < front.len() {
                assert(front[i].argo_name() == n);
            }
        }
    }
}

/// The declarations that are met from those on `stack`, taken from its end, behind
/// those of `done`: each before those that it names, and no name twice.
pub open spec fn walk(p: ProgramView, stack: Seq<usize>, done: Seq<usize>) -> Result<
    Seq<usize>,
    Seq<char>,
>
    decreases unseen(p.units, p.names_at(done)), stack.len(),
{
    if stack.len() == 0 {
        Ok(done)
    } else {
        let u = stack.last();
        let rest = stack.drop_last();
        if u >= p.units.len() || p.names_at(done).contains(p.name_at(u)) {
            walk(p, rest, done)
        } else {
            proof {
                lemma_unseen(p.units, p.names_at(done), p.name_at(u));
                assert(p.units[u as int].argo_name() == p.name_at(u));
                assert(p.names_at(done.push(u)) =~= p.names_at(done).push(p.name_at(u)));
            }
            match p.callees_at(u) {
                Err(m) => Err(m),
                Ok(cs) => walk(p, rest + cs.reverse(), done.push(u)),
            }
        }
    }
}

/// The templates that the one that `root` stands for brings along, in the order
/// in which they are met.
pub open spec fn closure_of(p: ProgramView, root: Seq<char>) -> Result<Seq<usize>, Seq<char>> {
    match p.called(root) {
        None => Err(unknown_template(root)),
        Some(u) => walk(p, seq![u], Seq::empty()),
    }
}

impl Program {
    fn is_done(&self, done: &Vec<usize>, u: usize) -> (r: bool)
        requires
            u < self.deep_view().units.len(),
            forall|i: int| 0 <= i < done@.len() ==> (#[trigger] done@[i]) < self.deep_view().units.len(),
        ensures
            r == self.deep_view().names_at(done@).contains(self.deep_view().name_at(u)),
    {
        let ghost p = self.deep_view();
        let mut i: usize = 0;
        while i < done.len()
            invariant
                p == self.deep_view(),
                u < p.units.len(),
                i <= done@.len(),
                forall|k: int| 0 <= k < done@.len() ==> (#[trigger] done@[k]) < p.units.len(),
                forall|k: int| 0 <= k < i ==> p.name_at(#[trigger] done@[k]) != p.name_at(u),
            decreases done@.len() - i,
        {
            proof {
                assert(done@[i as int] < p.units.len());
                assert(p.units[u as int] == self.units@[u as int].deep_view());
                assert(p.units[done@[i as int] as int]
                    == self.units@[done@[i as int] as int].deep_view());
            }
            if str_eq(self.units[done[i]].name(), self.units[u].name()) {
                proof {
                    assert(p.names_at(done@)[i as int] == p.name_at(u));
                }
                return true;
            }
            i = i + 1;
        }
        proof {
            if p.names_at(done@).contains(p.name_at(u)) {
                let k = choose|k: int|
                    0 <= k < p.names_at(done@).len() && p.names_at(done@)[k] == p.name_at(u);
                assert(p.name_at(done@[k]) == p.name_at(u));
            }
        }
        false
    }

    /// The templates that `root` brings along, by place.
    pub fn closure(&self, root: &str) -> (r: Result<Vec<usize>, String>)
        ensures
            match (r, closure_of(self.deep_view(), root@)) {
                (Ok(v), Ok(s)) => v@ == s && forall|i: int|
                    0 <= i < v@.len() ==> (#[trigger] v@[i]) < self.deep_view().units.len(),
                (Err(m), Err(n)) => m@ == n,
                _ => false,
            },
    {
        let ghost p = self.deep_view();
        proof {
            assert(p.units.len() == self.units@.len());
        }
        let first: usize = match self.find(root) {
            Some(u) => u,
            None => {
                return Err(cat3("cannot find template `", root, "`"));
            },
        };
        let mut stack: Vec<usize> = Vec::new();
        stack.push(first);
        let mut done: Vec<usize> = Vec::new();
        proof {
            assert(stack@ =~= seq![first]);
            assert(done@ =~= Seq::<usize>::empty());
        }
        while stack.len() > 0
            invariant
                p == self.deep_view(),
                p.units.len() == self.units@.len(),
                closure_of(p, root@) == walk(p, stack@, done@),
                forall|i: int| 0 <= i < done@.len() ==> (#[trigger] done@[i]) < p.units.len(),
            decreases unseen(p.units, p.names_at(done@)), stack@.len(),
        {
            let ghost s0 = stack@;
            let ghost d0 = done@;
            let u: usize = match stack.pop() {
                Some(u) => u,
                None => 0,
            };
            proof {
                assert(stack@ =~= s0.drop_last());
                assert(u == s0.last());
            }
            if u >= self.units.len() || self.is_done(&done, u) {
            } else {
                match self.resolve_all(u) {
                    Err(m) => {
                        return Err(m);
                    },
                    Ok(cs) => {
                        let ghost cv = cs.deep_view();
                        proof {
                            assert(cv =~= cs@);
                        }
                        let mut k: usize = cs.len();
                        let ghost base = stack@;
                        proof {
                            assert(base + cv.reverse().take(0) =~= base);
                        }
                        while k > 0
                            invariant
                                k <= cs@.len(),
                                cv == cs@,
                                stack@ == base + cv.reverse().take(cs@.len() - k),
                            decreases k,
                        {
                            k = k - 1;
                            stack.push(cs[k]);
                            proof {
                                assert(cv.reverse()[cs@.len() - 1 - k] == cv[k as int]);
                                assert(stack@ =~= base + cv.reverse().take(cs@.len() - k));
                            }
                        }
                        done.push(u);
                        proof {
                            assert(cv.reverse().take(cv.len() as int) =~= cv.reverse());
                            lemma_unseen(p.units, p.names_at(d0), p.name_at(u));
                            assert(p.units[u as int].argo_name() == p.name_at(u));
                            assert(p.names_at(d0.push(u)) =~= p.names_at(d0).push(p.name_at(u)));
                            assert(done@ =~= d0.push(u));
                        }
                    },
                }
            }
        }
        Ok(done)
    }
}

// ---- templates with their names resolved ---------------------------------------------------
/// A declared template with what it has to know of the templates it names.
pub struct Linked<'a> {
    pub unit: &'a Unit,
    pub scope: Registry,
}

#[verifier::ext_equal]
pub struct LinkedView {
    pub unit: UnitView,
    pub scope: Known,
}

impl<'a> DeepView for Linked<'a> {
    type V = LinkedView;

    open spec fn deep_view(&self) -> LinkedView {
        LinkedView { unit: self.unit.deep_view(), scope: self.scope.deep_view() }
    }
}

/// The name of the template that handles the end of a run.
pub open spec fn handler_of(on_exit: Option<PathView>, scope: Known) -> Option<Seq<char>> {
    match on_exit {
        Some(p) => match known_as(scope, p.text) {
            Some(i) => Some(i.argo_name),
            None => None,
        },
        None => None,
    }
}

pub open spec fn container_root(d: ContainerDeclView, scope: Known) -> RootAttrsView {
    RootAttrsView {
        on_exit: handler_of(d.on_exit_if_root, scope),
        ttl: d.limits.ttl_if_root,
        pod_gc: d.limits.pod_gc_if_root,
        active_deadline: d.limits.active_deadline_if_root,
        mutexes: d.texts.mutexes_if_root,
        tolerations: d.texts.tolerations_if_root,
        affinity: d.texts.affinity_if_root,
        pod_spec_patch: d.texts.pod_spec_patch_if_root,
        image_pull_secrets: d.image_pull_secrets_if_root,
        ..RootAttrsView::empty()
    }
}

pub open spec fn workflow_root(d: WorkflowDeclView, scope: Known) -> RootAttrsView {
    RootAttrsView {
        on_exit: handler_of(d.on_exit_if_root, scope),
        ttl: d.limits.ttl_if_root,
        pod_gc: d.limits.pod_gc_if_root,
        active_deadline: d.limits.active_deadline_if_root,
        node_selector: d.texts.node_selector_if_root,
        mutexes: d.texts.mutexes_if_root,
        tolerations: d.texts.tolerations_if_root,
        affinity: d.texts.affinity_if_root,
        pod_spec_patch: d.texts.pod_spec_patch_if_root,
        image_pull_secrets: d.image_pull_secrets_if_root,
        parallelism: d.parallelism_if_root,
    }
}

pub open spec fn identity_with(
    name: Seq<char>,
    sig: SignatureView,
    output_kind: IoKind,
    kind: TemplateKind,
    root: RootAttrsView,
) -> IdentityView {
    IdentityView {
        argo_name: name,
        inputs: sig.inputs,
        input_types: sig.input_types,
        input_kinds: sig.input_kinds,
        output_kind,
        synthetic: false,
        kind,
        root,
    }
}

impl LinkedView {
    /// What the template is known by.
    pub open spec fn id(self) -> IdentityView {
        match self.unit.body {
            BodyView::Container(d) => identity_with(
                d.argo_name,
                d.signature,
                d.output_kind,
                TemplateKind::Container,
                container_root(d, self.scope),
            ),
            BodyView::Workflow(d) => identity_with(
                d.argo_name,
                d.signature,
                d.output_kind,
                TemplateKind::Workflow,
                workflow_root(d, self.scope),
            ),
            BodyView::Synth(s) => IdentityView {
                argo_name: s.argo_name,
                inputs: s.inputs,
                input_types: Seq::empty(),
                input_kinds: Seq::empty(),
                output_kind: IoKind::Parameter,
                synthetic: true,
                kind: TemplateKind::Workflow,
                root: RootAttrsView::empty(),
            },
        }
    }

    /// What the template is built into.
    pub open spec fn object(self, ctx: BuildCtxView) -> Result<TemplateView, Seq<char>> {
        match self.unit.body {
            BodyView::Container(d) => container_template_of(ctx, d),
            BodyView::Workflow(d) => workflow_template_of(d, self.scope),
            BodyView::Synth(s) => synth_template_of(s, self.scope),
        }
    }
}

fn find_handler(on_exit: &Option<Path>, scope: &Registry) -> (r: Option<String>)
    ensures
        r.deep_view() == handler_of(on_exit.deep_view(), scope.deep_view()),
{
    match on_exit {
        Some(p) => match scope.find(p.text.as_str()) {
            Some(i) => Some(i.argo_name.clone()),
            None => None,
        },
        None => None,
    }
}

fn identity_from(
    name: &String,
    sig: &Signature,
    output_kind: IoKind,
    kind: TemplateKind,
    root: RootAttrs,
) -> (r: Identity)
    ensures
        r.deep_view() == identity_with(
            name@,
            sig.deep_view(),
            output_kind,
            kind,
            root.deep_view(),
        ),
{
    Identity {
        argo_name: name.clone(),
        inputs: sig.inputs.dup(),
        input_types: sig.input_types.dup(),
        input_kinds: copy_kinds(&sig.input_kinds),
        output_kind,
        synthetic: false,
        kind,
        root,
    }
}

fn root_of_container(d: &ContainerDecl, scope: &Registry) -> (r: RootAttrs)
    ensures
        r.deep_view() == container_root(d.deep_view(), scope.deep_view()),
{
    let mut r: RootAttrs = RootAttrs::default();
    r.on_exit = find_handler(&d.on_exit_if_root, scope);
    r.ttl = d.limits.ttl_if_root.dup();
    r.pod_gc = d.limits.pod_gc_if_root.dup();
    r.active_deadline = d.limits.active_deadline_if_root;
    r.mutexes = copy_pairs(&d.texts.mutexes_if_root);
    r.tolerations = copy_tolerations(&d.texts.tolerations_if_root);
    r.affinity = d.texts.affinity_if_root.dup();
    r.pod_spec_patch = d.texts.pod_spec_patch_if_root.dup();
    r.image_pull_secrets = d.image_pull_secrets_if_root.dup();
    r
}

fn root_of_workflow(d: &WorkflowDecl, scope: &Registry) -> (r: RootAttrs)
    ensures
        r.deep_view() == workflow_root(d.deep_view(), scope.deep_view()),
{
    RootAttrs {
        on_exit: find_handler(&d.on_exit_if_root, scope),
        ttl: d.limits.ttl_if_root.dup(),
        pod_gc: d.limits.pod_gc_if_root.dup(),
        active_deadline: d.limits.active_deadline_if_root,
        node_selector: copy_pairs(&d.texts.node_selector_if_root),
        mutexes: copy_pairs(&d.texts.mutexes_if_root),
        tolerations: copy_tolerations(&d.texts.tolerations_if_root),
        affinity: d.texts.affinity_if_root.dup(),
        pod_spec_patch: d.texts.pod_spec_patch_if_root.dup(),
        image_pull_secrets: d.image_pull_secrets_if_root.dup(),
        parallelism: d.parallelism_if_root,
    }
}

impl<'a> Template for Linked<'a> {
    open spec fn identity(&self) -> IdentityView {
        self.deep_view().id()
    }

    open spec fn built(&self, ctx: BuildCtxView) -> Result<TemplateView, Seq<char>> {
        self.deep_view().object(ctx)
    }

    fn identify(&self) -> (r: Identity) {
        match &self.unit.body {
            Body::Container(d) => identity_from(
                &d.argo_name,
                &d.signature,
                d.output_kind,
                TemplateKind::Container,
                root_of_container(d, &self.scope),
            ),
            Body::Workflow(d) => identity_from(
                &d.argo_name,
                &d.signature,
                d.output_kind,
                TemplateKind::Workflow,
                root_of_workflow(d, &self.scope),
            ),
            Body::Synth(s) => {
                let r: Identity = Identity {
                    argo_name: s.argo_name.clone(),
                    inputs: s.inputs.dup(),
                    input_types: Vec::new(),
                    input_kinds: Vec::new(),
                    output_kind: IoKind::Parameter,
                    synthetic: true,
                    kind: TemplateKind::Workflow,
                    root: RootAttrs::default(),
                };
                proof {
                    assert(r.deep_view().input_types =~= Seq::<Seq<char>>::empty());
                    assert(r.deep_view() =~= self.deep_view().id());
                }
                r
            },
        }
    }

    fn build(&self, ctx: &BuildCtx) -> (r: Result<api::Template, String>) {
        match &self.unit.body {
            Body::Container(d) => build_container(ctx, d),
            Body::Workflow(d) => build_workflow(d, &self.scope),
            Body::Synth(s) => emit_synth(s, &self.scope),
        }
    }
}

impl ProgramView {
    /// What the declaration at `i` has to know of the templates it names, where
    /// those are at `at`.
    pub open spec fn scope_at(self, i: usize, at: Seq<usize>) -> Known {
        Seq::new(
            at.len(),
            |k: int| (self.units[i as int].callees()[k].text, self.units[at[k] as int].info()),
        )
    }

    /// The declaration at `i` with its names resolved.
    pub open spec fn linked(self, i: usize) -> LinkedView {
        LinkedView {
            unit: self.units[i as int],
            scope: match self.callees_at(i) {
                Ok(at) => self.scope_at(i, at),
                Err(_) => Seq::empty(),
            },
        }
    }
}

/// The collection of the declarations at these places.
pub open spec fn gathered(p: ProgramView, at: Seq<usize>) -> CollectorView<LinkedView>
    decreases at.len(),
{
    if at.len() == 0 {
        CollectorView::empty()
    } else {
        let c = gathered(p, at.drop_last());
        let l = p.linked(at.last());
        let more = c.entered(p.name_at(at.last())).added(l, l.id());
        match l.unit.body {
            BodyView::Container(d) => more.runs(d.argo_name, d.signature.argv.len() as usize),
            _ => more,
        }
    }
}

/// A collection of linked templates by what they are.
pub open spec fn by_view<'a>(c: CollectorView<Linked<'a>>) -> CollectorView<LinkedView> {
    CollectorView {
        seen: c.seen,
        builders: Seq::new(c.builders.len(), |i: int| c.builders[i].deep_view()),
        runners: c.runners,
        roots: c.roots,
        types: c.types,
        synthetic: c.synthetic,
    }
}

impl Program {
    /// The declaration at `i` with its names resolved.
    pub fn link(&self, i: usize) -> (r: Result<Linked<'_>, String>)
        requires
            i < self.deep_view().units.len(),
        ensures
            agrees(
                r,
                match self.deep_view().callees_at(i) {
                    Err(m) => Err(m),
                    Ok(_) => Ok(self.deep_view().linked(i)),
                },
            ),
    {
        let ghost p = self.deep_view();
        let at: Vec<usize> = match self.resolve_all(i) {
            Ok(v) => v,
            Err(m) => {
                return Err(m);
            },
        };
        let ghost av = at.deep_view();
        let ghost want = p.scope_at(i, av);
        proof {
            assert(av =~= at@);
            assert(p.units.len() == self.units.len());
            assert(p.units[i as int] == self.units@[i as int].deep_view());
            lemma_callees_bound(p, i);
        }
        let paths: Vec<Path> = self.units[i].callee_list();
        let mut entries: Vec<(String, TemplateInfo)> = Vec::new();
        let mut k: usize = 0;
        proof {
            assert(entries.deep_view() =~= want.take(0));
            assert(paths@.len() == paths.deep_view().len());
        }
        while k < at.len()
            invariant
                p == self.deep_view(),
                av == at@,
                want == p.scope_at(i, av),
                paths.deep_view() == p.units[i as int].callees(),
                paths@.len() == at@.len(),
                forall|j: int| 0 <= j < at@.len() ==> (#[trigger] at@[j]) < p.units.len(),
                k <= at@.len(),
                entries.deep_view() == want.take(k as int),
            decreases at@.len() - k,
        {
            proof {
                assert(at@[k as int] < p.units.len());
                assert(p.units[at@[k as int] as int]
                    == self.units@[at@[k as int] as int].deep_view());
                assert(paths.deep_view()[k as int] == paths@[k as int].deep_view());
            }
            let ghost before = entries.deep_view();
            let e: (String, TemplateInfo) = (
                paths[k].text.clone(),
                self.units[at[k]].information(),
            );
            let ghost ev = e.deep_view();
            entries.push(e);
            proof {
                assert(entries.deep_view() =~= before.push(ev));
                assert(ev == want[k as int]);
                assert(entries.deep_view() =~= want.take(k + 1));
            }
            k = k + 1;
        }
        proof {
            assert(want.take(k as int) =~= want);
        }
        Ok(Linked { unit: &self.units[i], scope: Registry { entries } })
    }

    /// Collects the template that `root` stands for and all it brings along.
    pub fn collect(&self, root: &str) -> (r: Result<Collector<Linked<'_>>, String>)
        ensures
            match (r, closure_of(self.deep_view(), root@)) {
                (Ok(c), Ok(at)) => by_view(c@) == gathered(self.deep_view(), at),
                (Err(m), Err(n)) => m@ == n,
                _ => false,
            },
    {
        let ghost p = self.deep_view();
        let at: Vec<usize> = match self.closure(root) {
            Ok(v) => v,
            Err(m) => {
                return Err(m);
            },
        };
        proof {
            assert(p.units.len() == self.units.len());
            lemma_closure_resolved(p, root@);
        }
        let mut c: Collector<Linked<'_>> = Collector::new();
        let mut i: usize = 0;
        proof {
            assert(at@.take(0) =~= Seq::<usize>::empty());
            assert(by_view(c@) =~= gathered(p, at@.take(0)));
        }
        while i < at.len()
            invariant
                p == self.deep_view(),
                closure_of(p, root@) == Ok::<Seq<usize>, Seq<char>>(at@),
                forall|k: int| 0 <= k < at@.len() ==> (#[trigger] at@[k]) < p.units.len(),
                forall|k: int| 0 <= k < at@.len() ==> p.callees_at(#[trigger] at@[k]) is Ok,
                i <= at@.len(),
                by_view(c@) == gathered(p, at@.take(i as int)),
            decreases at@.len() - i,
        {
            proof {
                assert(at@.take(i + 1).drop_last() =~= at@.take(i as int));
                assert(at@.take(i + 1).last() == at@[i as int]);
                assert(at@[i as int] < p.units.len());
                assert(p.callees_at(at@[i as int]) is Ok);
                assert(p.units[at@[i as int] as int]
                    == self.units@[at@[i as int] as int].deep_view());
            }
            let ghost c0 = c@;
            let u: usize = at[i];
            match self.link(u) {
                Err(m) => {
                    return Err(m);
                },
                Ok(l) => {
                    let ghost lv = l.deep_view();
                    c.enter(self.units[u].name());
                    let ghost c1 = c@;
                    c.add(l);
                    let ghost c2 = c@;
                    proof {
                        let want = by_view(c0).entered(p.name_at(u)).added(lv, lv.id());
                        assert(by_view(c1) =~= by_view(c0).entered(p.name_at(u)));
                        assert(by_view(c2).builders =~= by_view(c1).builders.push(lv));
                        assert(by_view(c2) =~= want);
                    }
                    match &self.units[u].body {
                        Body::Container(d) => {
                            proof {
                                assert(d.deep_view().signature.argv.len()
                                    == d.signature.argv@.len());
                            }
                            c.add_runner(d.argo_name.as_str(), d.signature.argv.len());
                            proof {
                                assert(by_view(c@) =~= by_view(c2).runs(
                                    d.argo_name@,
                                    d.signature.argv@.len() as usize,
                                ));
                            }
                        },
                        _ => {},
                    }
                },
            }
            i = i + 1;
        }
        proof {
            assert(at@.take(i as int) =~= at@);
        }
        Ok(c)
    }
}

proof fn lemma_callees_bound(p: ProgramView, i: usize)
    requires
        p.units.len() <= usize::MAX,
        i < p.units.len(),
    ensures
        p.callees_at(i) matches Ok(at) ==> {
            &&& at.len() == p.units[i as int].callees().len()
            &&& forall|k: int| 0 <= k < at.len() ==> (#[trigger] at[k]) < p.units.len()
            &&& forall|k: int|
                0 <= k < at.len() ==> p.resolved(
                    p.units[i as int].owner,
                    p.units[i as int].callees()[k].text,
                ) == Some(#[trigger] at[k])
        },
{
    let u = p.units[i as int];
    let f = p.resolve_fn(u.owner);
    lemma_map_res_len(u.callees(), f);
    if p.callees_at(i) is Ok {
        let at = p.callees_at(i)->Ok_0;
        assert forall|k: int| 0 <= k < at.len() implies (#[trigger] at[k]) < p.units.len()
            && p.resolved(u.owner, u.callees()[k].text) == Some(at[k]) by {
            assert(f(u.callees()[k]) == Ok::<usize, Seq<char>>(at[k]));
            lemma_part_bound(p.units, u.owner, u.callees()[k].text);
        }
    }
}

// ---- laws -------------------------------------------------------------------------------------
/// Whether a name is among those of these places.
pub open spec fn named_in(p: ProgramView, at: Seq<usize>, n: Seq<char>) -> bool {
    exists|i: int| 0 <= i < at.len() && p.name_at(#[trigger] at[i]) == n
}

/// Whether all that the declaration at `u` names is among these places, or still
/// to come.
pub open spec fn covered(p: ProgramView, u: usize, stack: Seq<usize>, done: Seq<usize>) -> bool {
    p.callees_at(u) matches Ok(cs) && forall|k: int|
        0 <= k < cs.len() ==> named_in(p, done, p.name_at(#[trigger] cs[k])) || named_in(
            p,
            stack,
            p.name_at(cs[k]),
        )
}

pub open spec fn distinct_names(p: ProgramView, at: Seq<usize>) -> bool {
    forall|i: int, j: int|
        0 <= i < j < at.len() ==> p.name_at(#[trigger] at[i]) != p.name_at(#[trigger] at[j])
}

proof fn lemma_named_more(p: ProgramView, a: Seq<usize>, b: Seq<usize>, n: Seq<char>)
    ensures
        named_in(p, a + b, n) <==> named_in(p, a, n) || named_in(p, b, n),
{
    if named_in(p, a, n) {
        let i = choose|i: int| 0 <= i < a.len() && p.name_at(#[trigger] a[i]) == n;
        assert((a + b)[i] == a[i]);
    }
    if named_in(p, b, n) {
        let i = choose|i: int| 0 <= i < b.len() && p.name_at(#[trigger] b[i]) == n;
        assert((a + b)[a.len() + i] == b[i]);
    }
    if named_in(p, a + b, n) {
        let i = choose|i: int| 0 <= i < (a + b).len() && p.name_at(#[trigger] (a + b)[i]) == n;
        if i < a.len() {
            assert(a[i] == (a + b)[i]);
        } else {
            assert(b[i - a.len()] == (a + b)[i]);
        }
    }
}

proof fn lemma_names_at(p: ProgramView, at: Seq<usize>, n: Seq<char>)
    ensures
        p.names_at(at).contains(n) <==> named_in(p, at, n),
{
    if p.names_at(at).contains(n) {
        let i = choose|i: int| 0 <= i < at.len() && p.names_at(at)[i] == n;
        assert(p.name_at(at[i]) == n);
    }
    if named_in(p, at, n) {
        let i = choose|i: int| 0 <= i < at.len() && p.name_at(#[trigger] at[i]) == n;
        assert(p.names_at(at)[i] == n);
    }
}

proof fn lemma_walk(p: ProgramView, stack: Seq<usize>, done: Seq<usize>)
    requires
        p.units.len() <= usize::MAX,
        distinct_names(p, done),
        forall|i: int| 0 <= i < stack.len() ==> (#[trigger] stack[i]) < p.units.len(),
        forall|i: int| 0 <= i < done.len() ==> (#[trigger] done[i]) < p.units.len(),
        forall|i: int| 0 <= i < done.len() ==> covered(p, #[trigger] done[i], stack, done),
    ensures
        walk(p, stack, done) matches Ok(r) ==> {
            &&& done.len() <= r.len()
            &&& r.take(done.len() as int) == done
            &&& distinct_names(p, r)
            &&& forall|i: int| 0 <= i < r.len() ==> (#[trigger] r[i]) < p.units.len()
            &&& forall|i: int|
                0 <= i < r.len() ==> covered(p, #[trigger] r[i], Seq::empty(), r)
            &&& forall|i: int| 0 <= i < stack.len() ==> named_in(p, r, p.name_at(#[trigger] stack[i]))
        },
    decreases unseen(p.units, p.names_at(done)), stack.len(),
{
    if stack.len() == 0 {
        assert(done.take(done.len() as int) =~= done);
        assert(stack =~= Seq::<usize>::empty());
    } else {
        let u = stack.last();
        let rest = stack.drop_last();
        assert(stack =~= rest + seq![u]);
        assert(u < p.units.len()) by {
            assert(stack[stack.len() - 1] < p.units.len());
        }
        assert(seq![u][0] == u);
        lemma_names_at(p, done, p.name_at(u));
        assert forall|i: int| 0 <= i < rest.len() implies (#[trigger] rest[i])
            < p.units.len() by {
            assert(stack[i] == rest[i]);
        }
        if p.names_at(done).contains(p.name_at(u)) {
            assert forall|i: int| 0 <= i < done.len() implies covered(
                p,
                #[trigger] done[i],
                rest,
                done,
            ) by {
                assert(covered(p, done[i], stack, done));
                let cs = p.callees_at(done[i])->Ok_0;
                assert forall|k: int| 0 <= k < cs.len() implies named_in(
                    p,
                    done,
                    p.name_at(#[trigger] cs[k]),
                ) || named_in(p, rest, p.name_at(cs[k])) by {
                    let n = p.name_at(cs[k]);
                    lemma_named_more(p, rest, seq![u], n);
                    if named_in(p, seq![u], n) {
                        assert(n == p.name_at(u));
                    }
                }
            }
            lemma_walk(p, rest, done);
            if walk(p, stack, done) is Ok {
                let r = walk(p, stack, done)->Ok_0;
                assert forall|i: int| 0 <= i < stack.len() implies named_in(
                    p,
                    r,
                    p.name_at(#[trigger] stack[i]),
                ) by {
                    if i < rest.len() {
                        assert(rest[i] == stack[i]);
                    } else {
                        let j = choose|j: int|
                            0 <= j < done.len() && p.name_at(#[trigger] done[j]) == p.name_at(u);
                        assert(r.take(done.len() as int)[j] == r[j]);
                    }
                }
            }
        } else if p.callees_at(u) is Ok {
            let cs = p.callees_at(u)->Ok_0;
            let s2 = rest + cs.reverse();
            let d2 = done.push(u);
            lemma_unseen(p.units, p.names_at(done), p.name_at(u));
            assert(p.units[u as int].argo_name() == p.name_at(u));
            assert(p.names_at(d2) =~= p.names_at(done).push(p.name_at(u)));
            lemma_callees_bound(p, u);
            assert(d2 =~= done + seq![u]);
            assert forall|i: int| 0 <= i < s2.len() implies (#[trigger] s2[i]) < p.units.len() by {
                if i < rest.len() {
                    assert(s2[i] == rest[i]);
                } else {
                    assert(s2[i] == cs[cs.len() - 1 - (i - rest.len())]);
                }
            }
            assert forall|i: int, j: int| 0 <= i < j < d2.len() implies p.name_at(#[trigger] d2[i])
                != p.name_at(#[trigger] d2[j]) by {
                if j == done.len() {
                    assert(d2[i] == done[i]);
                } else {
                    assert(d2[i] == done[i] && d2[j] == done[j]);
                }
            }
            assert forall|i: int| 0 <= i < d2.len() implies covered(p, #[trigger] d2[i], s2, d2) by {
                let c = p.callees_at(d2[i]);
                if i < done.len() {
                    assert(d2[i] == done[i]);
                    assert(covered(p, done[i], stack, done));
                    let v = c->Ok_0;
                    assert forall|k: int| 0 <= k < v.len() implies named_in(
                        p,
                        d2,
                        p.name_at(#[trigger] v[k]),
                    ) || named_in(p, s2, p.name_at(v[k])) by {
                        let n = p.name_at(v[k]);
                        lemma_named_more(p, rest, seq![u], n);
                        lemma_named_more(p, done, seq![u], n);
                        lemma_named_more(p, rest, cs.reverse(), n);
                    }
                } else {
                    assert forall|k: int| 0 <= k < cs.len() implies named_in(
                        p,
                        s2,
                        p.name_at(#[trigger] cs[k]),
                    ) by {
                        assert(cs.reverse()[cs.len() - 1 - k] == cs[k]);
                        lemma_named_more(p, rest, cs.reverse(), p.name_at(cs[k]));
                    }
                }
            }
            assert forall|i: int| 0 <= i < d2.len() implies (#[trigger] d2[i]) < p.units.len() by {
                if i < done.len() {
                    assert(d2[i] == done[i]);
                }
            }
            lemma_walk(p, s2, d2);
            if walk(p, stack, done) is Ok {
                let r = walk(p, s2, d2)->Ok_0;
                assert(walk(p, stack, done) == Ok::<Seq<usize>, Seq<char>>(r));
                assert(r.take(done.len() as int) =~= d2.take(done.len() as int)) by {
                    assert forall|i: int| 0 <= i < done.len() implies r[i] == d2[i] by {
                        assert(r.take(d2.len() as int)[i] == r[i]);
                    }
                }
                assert(d2.take(done.len() as int) =~= done);
                assert(r[done.len() as int] == u) by {
                    assert(r.take(d2.len() as int)[done.len() as int] == r[done.len() as int]);
                }
                assert forall|i: int| 0 <= i < stack.len() implies named_in(
                    p,
                    r,
                    p.name_at(#[trigger] stack[i]),
                ) by {
                    if i < rest.len() {
                        assert(s2[i] == stack[i]);
                    }
                }
            }
        }
    }
}

proof fn lemma_closure_resolved(p: ProgramView, root: Seq<char>)
    requires
        p.units.len() <= usize::MAX,
    ensures
        closure_of(p, root) matches Ok(at) ==> forall|i: int|
            0 <= i < at.len() ==> p.callees_at(#[trigger] at[i]) is Ok,
{
    if closure_of(p, root) is Ok {
        law_closure(p, root);
        let at = closure_of(p, root)->Ok_0;
        assert forall|i: int| 0 <= i < at.len() implies p.callees_at(#[trigger] at[i]) is Ok by {
            assert(covered(p, at[i], Seq::empty(), at));
        }
    }
}

/// The templates that a root brings along are closed under naming: with each of
/// them, every template that it names is among them, under whatever path; the
/// root is the first; and no name is there twice.
pub proof fn law_closure(p: ProgramView, root: Seq<char>)
    requires
        p.units.len() <= usize::MAX,
        closure_of(p, root) is Ok,
    ensures
        ({
            let at = closure_of(p, root)->Ok_0;
            &&& at.len() > 0
            &&& Some(at[0]) == p.called(root)
            &&& distinct_names(p, at)
            &&& forall|i: int| 0 <= i < at.len() ==> (#[trigger] at[i]) < p.units.len()
            &&& forall|i: int|
                0 <= i < at.len() ==> covered(p, #[trigger] at[i], Seq::empty(), at)
        }),
{
    let u = p.called(root)->0;
    let none = Seq::<usize>::empty();
    assert(seq![u][0] == u);
    lemma_walk(p, seq![u], none);
    assert(seq![u].drop_last() =~= none);
    assert(p.names_at(none) =~= Seq::<Seq<char>>::empty());
    let cs = p.callees_at(u)->Ok_0;
    assert(seq![u].last() == u);
    assert(!p.names_at(none).contains(p.name_at(u)));
    let s2 = seq![u].drop_last() + cs.reverse();
    let d2 = none.push(u);
    assert(walk(p, seq![u], none) == walk(p, s2, d2));
    lemma_walk_prefix(p, s2, d2);
    let at = closure_of(p, root)->Ok_0;
    assert(at.take(1)[0] == at[0]);
    assert(d2[0] == u);
}

proof fn lemma_walk_prefix(p: ProgramView, stack: Seq<usize>, done: Seq<usize>)
    ensures
        walk(p, stack, done) matches Ok(r) ==> done.len() <= r.len() && r.take(done.len() as int)
            == done,
    decreases unseen(p.units, p.names_at(done)), stack.len(),
{
    if stack.len() == 0 {
        assert(done.take(done.len() as int) =~= done);
    } else {
        let u = stack.last();
        let rest = stack.drop_last();
        if u >= p.units.len() || p.names_at(done).contains(p.name_at(u)) {
            lemma_walk_prefix(p, rest, done);
        } else if p.callees_at(u) is Ok {
            let cs = p.callees_at(u)->Ok_0;
            lemma_unseen(p.units, p.names_at(done), p.name_at(u));
            assert(p.units[u as int].argo_name() == p.name_at(u));
            assert(p.names_at(done.push(u)) =~= p.names_at(done).push(p.name_at(u)));
            lemma_walk_prefix(p, rest + cs.reverse(), done.push(u));
            if walk(p, stack, done) is Ok {
                let r = walk(p, stack, done)->Ok_0;
                assert forall|i: int| 0 <= i < done.len() implies r[i] == done[i] by {
                    assert(r.take(done.push(u).len() as int)[i] == r[i]);
                    assert(done.push(u)[i] == done[i]);
                }
                assert(r.take(done.len() as int) =~= done);
            }
        }
    }
}

/// Whether the declaration at `u` names the one at `v`.
pub open spec fn names(p: ProgramView, u: usize, v: usize) -> bool {
    p.callees_at(u) matches Ok(cs) && cs.contains(v)
}

pub open spec fn names_next(p: ProgramView, t: Seq<usize>, i: int) -> bool {
    names(p, t[i], t[i + 1])
}

/// A chain of declarations, each named by the one before it.
pub open spec fn is_trail(p: ProgramView, t: Seq<usize>) -> bool {
    t.len() > 0 && forall|i: int| 0 <= i < t.len() - 1 ==> #[trigger] names_next(p, t, i)
}

/// Whether names lead from one declaration to another.
pub open spec fn brings(p: ProgramView, from: usize, to: usize) -> bool {
    exists|t: Seq<usize>| #[trigger] is_trail(p, t) && t[0] == from && t.last() == to
}

proof fn lemma_brings_more(p: ProgramView, from: usize, u: usize, v: usize)
    requires
        brings(p, from, u),
        names(p, u, v),
    ensures
        brings(p, from, v),
{
    let t = choose|t: Seq<usize>| #[trigger] is_trail(p, t) && t[0] == from && t.last() == u;
    let t2 = t.push(v);
    assert forall|i: int| 0 <= i < t2.len() - 1 implies #[trigger] names_next(p, t2, i) by {
        if i < t.len() - 1 {
            assert(names_next(p, t, i));
        }
    }
    assert(is_trail(p, t2));
    assert(t2[0] == from && t2.last() == v);
}

proof fn lemma_walk_sound(p: ProgramView, stack: Seq<usize>, done: Seq<usize>, from: usize)
    requires
        forall|i: int| 0 <= i < stack.len() ==> brings(p, from, #[trigger] stack[i]),
        forall|i: int| 0 <= i < done.len() ==> brings(p, from, #[trigger] done[i]),
    ensures
        walk(p, stack, done) matches Ok(r) ==> forall|i: int|
            0 <= i < r.len() ==> brings(p, from, #[trigger] r[i]),
    decreases unseen(p.units, p.names_at(done)), stack.len(),
{
    if stack.len() > 0 {
        let u = stack.last();
        let rest = stack.drop_last();
        assert(brings(p, from, stack[stack.len() - 1]));
        assert forall|i: int| 0 <= i < rest.len() implies brings(p, from, #[trigger] rest[i]) by {
            assert(stack[i] == rest[i]);
        }
        if u >= p.units.len() || p.names_at(done).contains(p.name_at(u)) {
            lemma_walk_sound(p, rest, done, from);
        } else if p.callees_at(u) is Ok {
            let cs = p.callees_at(u)->Ok_0;
            let s2 = rest + cs.reverse();
            let d2 = done.push(u);
            lemma_unseen(p.units, p.names_at(done), p.name_at(u));
            assert(p.units[u as int].argo_name() == p.name_at(u));
            assert(p.names_at(d2) =~= p.names_at(done).push(p.name_at(u)));
            assert forall|i: int| 0 <= i < s2.len() implies brings(p, from, #[trigger] s2[i]) by {
                if i < rest.len() {
                    assert(s2[i] == rest[i]);
                } else {
                    let k = cs.len() - 1 - (i - rest.len());
                    assert(s2[i] == cs[k]);
                    assert(cs.contains(s2[i]));
                    lemma_brings_more(p, from, u, s2[i]);
                }
            }
            assert forall|i: int| 0 <= i < d2.len() implies brings(p, from, #[trigger] d2[i]) by {
                if i < done.len() {
                    assert(d2[i] == done[i]);
                }
            }
            lemma_walk_sound(p, s2, d2, from);
            assert(walk(p, stack, done) == walk(p, s2, d2));
        }
    }
}

/// A root brings along no template that it does not name, by itself or through
/// others.
pub proof fn law_closure_is_minimal(p: ProgramView, root: Seq<char>, i: int)
    requires
        closure_of(p, root) is Ok,
        0 <= i < closure_of(p, root)->Ok_0.len(),
    ensures
        p.called(root) is Some,
        brings(p, p.called(root)->0, closure_of(p, root)->Ok_0[i]),
{
    let u = p.called(root)->0;
    assert(is_trail(p, seq![u]));
    assert(seq![u][0] == u && seq![u].last() == u);
    lemma_walk_sound(p, seq![u], Seq::empty(), u);
}

/// The tasks of a template, of a graph or of steps.
pub open spec fn tasks_in(t: TemplateView) -> Seq<DagTaskView> {
    match t.dag {
        Some(d) => d.tasks,
        None => t.steps.flatten(),
    }
}

/// Whether a reference to a template leads to one of these places.
pub open spec fn leads_into(p: ProgramView, at: Seq<usize>, r: Option<TemplateRefView>) -> bool {
    r matches Some(x) && x.name == x.template && !x.cluster_scope && named_in(p, at, x.name)
}

/// Whether the template of a task, and those of its hooks, are at these places.
pub open spec fn task_leads_into(p: ProgramView, at: Seq<usize>, t: DagTaskView) -> bool {
    &&& leads_into(p, at, t.template_ref)
    &&& forall|k: Seq<char>|
        t.hooks.dom().contains(k) ==> leads_into(p, at, (#[trigger] t.hooks[k]).template_ref)
}

/// Whether every template that is known in a scope is at one of these places.
pub open spec fn scope_within(p: ProgramView, at: Seq<usize>, scope: Known) -> bool {
    forall|k: int| 0 <= k < scope.len() ==> named_in(p, at, (#[trigger] scope[k]).1.argo_name)
}

proof fn lemma_known_within(p: ProgramView, at: Seq<usize>, scope: Known, text: Seq<char>)
    requires
        scope_within(p, at, scope),
    ensures
        known_as(scope, text) matches Some(i) ==> named_in(p, at, i.argo_name),
    decreases scope.len(),
{
    if scope.len() > 0 {
        assert(named_in(p, at, scope[0].1.argo_name));
        let rest = scope.drop_first();
        assert forall|k: int| 0 <= k < rest.len() implies named_in(
            p,
            at,
            (#[trigger] rest[k]).1.argo_name,
        ) by {
            assert(rest[k] == scope[k + 1]);
        }
        lemma_known_within(p, at, rest, text);
    }
}

proof fn lemma_hooks_within(
    p: ProgramView,
    at: Seq<usize>,
    hooks: Seq<HookView>,
    infos: Seq<TemplateInfoView>,
    n: nat,
    task: Seq<char>,
    steps: bool,
)
    requires
        n <= hooks.len(),
        infos.len() == hooks.len(),
        forall|k: int| 0 <= k < infos.len() ==> named_in(p, at, (#[trigger] infos[k]).argo_name),
    ensures
        forall|k: Seq<char>|
            hooks_upto(hooks, infos, n, task, steps).dom().contains(k) ==> leads_into(
                p,
                at,
                (#[trigger] hooks_upto(hooks, infos, n, task, steps)[k]).template_ref,
            ),
    decreases n,
{
    if n > 0 {
        lemma_hooks_within(p, at, hooks, infos, (n - 1) as nat, task, steps);
        let front = hooks_upto(hooks, infos, (n - 1) as nat, task, steps);
        let all = hooks_upto(hooks, infos, n, task, steps);
        let key = hook_key(hooks, n - 1);
        assert(named_in(p, at, infos[n - 1].argo_name));
        assert forall|k: Seq<char>| all.dom().contains(k) implies leads_into(
            p,
            at,
            (#[trigger] all[k]).template_ref,
        ) by {
            if k != key {
                assert(front.dom().contains(k));
                assert(all[k] == front[k]);
            }
        }
    }
}

proof fn lemma_task_within(
    p: ProgramView,
    at: Seq<usize>,
    n: NodeView,
    scope: Known,
    steps: bool,
)
    requires
        scope_within(p, at, scope),
    ensures
        node_wire(n, scope, steps) matches Ok(t) ==> task_leads_into(p, at, t),
{
    if node_wire(n, scope, steps) is Ok {
        lemma_known_within(p, at, scope, n.callee.text);
        let f = hook_info_fn(scope);
        lemma_map_res_len(n.hooks, f);
        let infos = map_res(n.hooks, f)->Ok_0;
        assert forall|k: int| 0 <= k < infos.len() implies named_in(
            p,
            at,
            (#[trigger] infos[k]).argo_name,
        ) by {
            assert(f(n.hooks[k]) == Ok::<TemplateInfoView, Seq<char>>(infos[k]));
            lemma_known_within(p, at, scope, n.hooks[k].template.text);
        }
        lemma_hooks_within(p, at, n.hooks, infos, n.hooks.len(), n.task, steps);
    }
}

proof fn lemma_tasks_within(
    p: ProgramView,
    at: Seq<usize>,
    nodes: Seq<NodeView>,
    scope: Known,
    steps: bool,
)
    requires
        scope_within(p, at, scope),
    ensures
        map_res(nodes, node_wire_fn(scope, steps)) matches Ok(ts) ==> forall|i: int|
            0 <= i < ts.len() ==> task_leads_into(p, at, #[trigger] ts[i]),
{
    let f = node_wire_fn(scope, steps);
    lemma_map_res_len(nodes, f);
    if map_res(nodes, f) is Ok {
        let ts = map_res(nodes, f)->Ok_0;
        assert forall|i: int| 0 <= i < ts.len() implies task_leads_into(p, at, #[trigger] ts[i]) by {
            assert(f(nodes[i]) == Ok::<DagTaskView, Seq<char>>(ts[i]));
            lemma_task_within(p, at, nodes[i], scope, steps);
        }
    }
}

proof fn lemma_one_each(tasks: Seq<DagTaskView>)
    ensures
        one_each(tasks).flatten() == tasks,
    decreases tasks.len(),
{
    let groups = one_each(tasks);
    if tasks.len() == 0 {
        assert(groups.flatten() =~= tasks);
    } else {
        let rest = tasks.drop_first();
        lemma_one_each(rest);
        assert(groups.drop_first() =~= one_each(rest));
        assert(groups.first() == seq![tasks[0]]);
        assert(seq![tasks[0]] + rest =~= tasks);
    }
}

/// What is emitted holds together: every template that a root brings along is built
/// under its own name, and each of its tasks, and each hook of a task, refers to a
/// template that the root brings along too.
pub proof fn law_references_lead_somewhere(p: ProgramView, root: Seq<char>, ctx: BuildCtxView, i: int)
    requires
        p.units.len() <= usize::MAX,
        closure_of(p, root) is Ok,
        0 <= i < closure_of(p, root)->Ok_0.len(),
    ensures
        ({
            let at = closure_of(p, root)->Ok_0;
            p.linked(at[i]).object(ctx) matches Ok(t) ==> {
                &&& t.name == p.name_at(at[i])
                &&& forall|k: int|
                    0 <= k < tasks_in(t).len() ==> task_leads_into(p, at, #[trigger] tasks_in(t)[k])
            }
        }),
{
    law_closure(p, root);
    let at = closure_of(p, root)->Ok_0;
    let u = at[i];
    let l = p.linked(u);
    assert(covered(p, u, Seq::empty(), at));
    let cs = p.callees_at(u)->Ok_0;
    lemma_callees_bound(p, u);
    assert forall|k: int| 0 <= k < l.scope.len() implies named_in(
        p,
        at,
        (#[trigger] l.scope[k]).1.argo_name,
    ) by {
        assert(named_in(p, at, p.name_at(cs[k])) || named_in(p, Seq::empty(), p.name_at(cs[k])));
        assert(l.scope[k].1.argo_name == p.name_at(cs[k]));
    }
    if l.object(ctx) is Ok {
        match l.unit.body {
            BodyView::Container(d) => {
                assert(tasks_in(l.object(ctx)->Ok_0) =~= Seq::<DagTaskView>::empty());
            },
            BodyView::Workflow(d) => {
                lemma_tasks_within(p, at, d.nodes, l.scope, d.steps);
                let tasks = map_res(d.nodes, node_wire_fn(l.scope, d.steps))->Ok_0;
                lemma_one_each(tasks);
                assert(tasks_in(l.object(ctx)->Ok_0) == tasks);
            },
            BodyView::Synth(s) => {
                lemma_tasks_within(p, at, s.nodes, l.scope, false);
            },
        }
    }
}

/// What a declaration runs with: the number of its command-line arguments, where it
/// is a container.
pub open spec fn arity_of(u: UnitView) -> Option<usize> {
    match u.body {
        BodyView::Container(d) => Some(d.signature.argv.len() as usize),
        _ => None,
    }
}

proof fn lemma_runners(p: ProgramView, at: Seq<usize>, i: int)
    requires
        distinct_names(p, at),
        0 <= i < at.len(),
    ensures
        arity_of(p.units[at[i] as int]) matches Some(n) ==> gathered(
            p,
            at,
        ).runners.dom().contains(p.name_at(at[i])) && gathered(p, at).runners[p.name_at(at[i])]
            == n,
    decreases at.len(),
{
    let front = at.drop_last();
    if i < front.len() {
        assert(front[i] == at[i]);
        assert forall|a: int, b: int| 0 <= a < b < front.len() implies p.name_at(
            #[trigger] front[a],
        ) != p.name_at(#[trigger] front[b]) by {
            assert(p.name_at(at[a]) != p.name_at(at[b]));
        }
        lemma_runners(p, front, i);
        assert(p.name_at(at[i]) != p.name_at(at[at.len() - 1]));
    }
}

/// A pod starts what the binary runs: the template of a container names that
/// container in its environment, and what it passes behind the bootstrap script is
/// as many arguments as the binary expects for it.
pub proof fn law_pods_start_what_runs(p: ProgramView, root: Seq<char>, ctx: BuildCtxView, i: int)
    requires
        p.units.len() <= usize::MAX,
        closure_of(p, root) is Ok,
        0 <= i < closure_of(p, root)->Ok_0.len(),
        p.units[closure_of(p, root)->Ok_0[i] as int].body is Container,
        p.units[closure_of(p, root)->Ok_0[i] as int].body->Container_0.signature.argv.len()
            <= usize::MAX,
        p.linked(closure_of(p, root)->Ok_0[i]).object(ctx) is Ok,
    ensures
        ({
            let at = closure_of(p, root)->Ok_0;
            let t = p.linked(at[i]).object(ctx)->Ok_0;
            &&& t.container is Some
            &&& t.container->0.env.len() > 0
            &&& t.container->0.env[0].name == CARGO_ATHENA_TEMPLATE_ENV@
            &&& t.container->0.env[0].value == p.name_at(at[i])
            &&& t.container->0.args.len() >= 2
            &&& run_problem(
                gathered(p, at),
                p.name_at(at[i]),
                (t.container->0.args.len() - 2) as nat,
            ) is None
        }),
{
    law_closure(p, root);
    lemma_runners(p, closure_of(p, root)->Ok_0, i);
}

} // verus!
