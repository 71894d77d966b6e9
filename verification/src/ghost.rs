//! The calls that a workflow body makes, stripped of the builders on them, for a
//! type check.

use crate::ast::{core_of, unwrap_expr, Expr};
use crate::text::str_eq;
use vstd::prelude::*;

verus! {

/// Whether a method is a builder on a task call.
pub open spec fn is_builder(m: Seq<char>) -> bool {
    m == "continue_on"@ || m == "on_exit"@ || m == "on_success"@ || m == "on_failure"@ || m
        == "on_error"@ || m == "hook_if"@
}

/// Whether a method is a builder on a task call.
pub fn is_builder_method(m: &str) -> (r: bool)
    ensures
        r == is_builder(m@),
{
    str_eq(m, "continue_on") || str_eq(m, "on_exit") || str_eq(m, "on_success") || str_eq(
        m,
        "on_failure",
    ) || str_eq(m, "on_error") || str_eq(m, "hook_if")
}

/// Whether an expression can be the target of a hook: a call, or a template by
/// its name.
pub open spec fn is_target(e: Expr) -> bool {
    core_of(e) is Call || core_of(e) is Path
}

/// Whether an expression can be the target of a hook.
pub fn hook_call(e: &Expr) -> (r: bool)
    ensures
        r == is_target(*e),
{
    match unwrap_expr(e) {
        Expr::Call { func: _, args: _, text: _ } => true,
        Expr::Path(_) => true,
        _ => false,
    }
}

/// The target of a hook that an argument of a builder gives: the argument itself,
/// or in an entry of `.hook_if` what stands on the right.
pub open spec fn target_in(arg: Expr, entries: bool) -> Option<Expr> {
    if entries {
        match core_of(arg) {
            Expr::Assign { left: _, right } => if is_target(*right) {
                Some(*right)
            } else {
                None
            },
            _ => None,
        }
    } else if is_target(arg) {
        Some(arg)
    } else {
        None
    }
}

/// The target of a hook that an argument of a builder gives.
pub fn hook_target<'a>(arg: &'a Expr, entries: bool) -> (r: Option<&'a Expr>)
    ensures
        pointed(r) == target_in(*arg, entries),
{
    if entries {
        match unwrap_expr(arg) {
            Expr::Assign { left: _, right } => if hook_call(right) {
                Some(&**right)
            } else {
                None
            },
            _ => None,
        }
    } else if hook_call(arg) {
        Some(arg)
    } else {
        None
    }
}

pub open spec fn pointed(o: Option<&Expr>) -> Option<Expr> {
    match o {
        Some(e) => Some(*e),
        None => None,
    }
}

/// A builder: whether its arguments are the entries of a `.hook_if`, and for each
/// argument the target it gives. The arguments of `.continue_on` give none.
#[verifier::ext_equal]
pub struct BuilderView {
    pub entries: bool,
    pub targets: Seq<Option<Expr>>,
}

pub open spec fn builder_of(method: Seq<char>, args: Seq<Expr>) -> BuilderView {
    let entries = method == "hook_if"@;
    BuilderView {
        entries,
        targets: if method == "continue_on"@ {
            Seq::empty()
        } else {
            Seq::new(args.len(), |i: int| target_in(args[i], entries))
        },
    }
}

/// A task call without its builders, the builders from the inside out, and whether
/// the call goes on after a failure.
#[verifier::ext_equal]
pub struct PartsView {
    pub base: Expr,
    pub builders: Seq<BuilderView>,
    pub fallible: bool,
}

/// What a chain of builders stands on, and the builders.
pub open spec fn parts_of(e: Expr) -> PartsView
    decreases e,
{
    match e {
        Expr::MethodCall { receiver, method, args } => if is_builder(method@) {
            let inner = parts_of(*receiver);
            PartsView {
                base: inner.base,
                builders: inner.builders.push(builder_of(method@, args@)),
                fallible: inner.fallible || method@ == "continue_on"@,
            }
        } else {
            PartsView { base: e, builders: Seq::empty(), fallible: false }
        },
        _ => PartsView { base: e, builders: Seq::empty(), fallible: false },
    }
}

/// The targets that are there, in order.
pub open spec fn given(targets: Seq<Option<Expr>>) -> Seq<Expr>
    decreases targets.len(),
{
    if targets.len() == 0 {
        Seq::empty()
    } else {
        match targets.last() {
            Some(e) => given(targets.drop_last()).push(e),
            None => given(targets.drop_last()),
        }
    }
}

/// The targets of all hooks, in the order in which they are written.
pub open spec fn hooks_of(builders: Seq<BuilderView>) -> Seq<Expr>
    decreases builders.len(),
{
    if builders.len() == 0 {
        Seq::empty()
    } else {
        hooks_of(builders.drop_last()) + given(builders.last().targets)
    }
}

/// A builder: whether its arguments are the entries of a `.hook_if`, and for each
/// argument the target it gives.
pub struct Builder<'a> {
    pub entries: bool,
    pub targets: Vec<Option<&'a Expr>>,
}

impl<'a> DeepView for Builder<'a> {
    type V = BuilderView;

    open spec fn deep_view(&self) -> BuilderView {
        BuilderView {
            entries: self.entries,
            targets: Seq::new(self.targets@.len(), |i: int| pointed(self.targets@[i])),
        }
    }
}

/// A task call without its builders, the builders from the inside out, and whether
/// the call goes on after a failure.
pub struct Parts<'a> {
    pub base: &'a Expr,
    pub builders: Vec<Builder<'a>>,
    pub fallible: bool,
}

impl<'a> DeepView for Parts<'a> {
    type V = PartsView;

    open spec fn deep_view(&self) -> PartsView {
        PartsView {
            base: *self.base,
            builders: self.builders.deep_view(),
            fallible: self.fallible,
        }
    }
}

spec fn pointees(v: Seq<&Expr>) -> Seq<Expr> {
    Seq::new(v.len(), |i: int| *v[i])
}

impl<'a> Parts<'a> {
    /// The targets of all hooks, in the order in which they are written.
    pub fn hooks(&self) -> (r: Vec<&'a Expr>)
        ensures
            Seq::new(r@.len(), |i: int| *r@[i]) == hooks_of(self.deep_view().builders),
    {
        let ghost all = self.builders.deep_view();
        let mut out: Vec<&'a Expr> = Vec::new();
        let mut i: usize = 0;
        proof {
            assert(pointees(out@) =~= hooks_of(all.take(0)));
        }
        while i < self.builders.len()
            invariant
                all == self.builders.deep_view(),
                i <= self.builders@.len(),
                pointees(out@) == hooks_of(all.take(i as int)),
            decreases self.builders@.len() - i,
        {
            let ghost o0 = pointees(out@);
            let b: &Builder<'a> = &self.builders[i];
            let ghost ts = b.deep_view().targets;
            let mut k: usize = 0;
            proof {
                assert(o0 + given(ts.take(0)) =~= o0);
            }
            while k < b.targets.len()
                invariant
                    ts == b.deep_view().targets,
                    k <= b.targets@.len(),
                    pointees(out@) == o0 + given(ts.take(k as int)),
                decreases b.targets@.len() - k,
            {
                let ghost before = pointees(out@);
                proof {
                    assert(ts.take(k + 1).drop_last() =~= ts.take(k as int));
                    assert(ts.take(k + 1).last() == pointed(b.targets@[k as int]));
                }
                match b.targets[k] {
                    Some(e) => {
                        out.push(e);
                        proof {
                            assert(pointees(out@) =~= before.push(*e));
                            assert(pointees(out@) =~= o0 + given(ts.take(k as int)).push(*e));
                        }
                    },
                    None => {},
                }
                k = k + 1;
            }
            proof {
                assert(ts.take(k as int) =~= ts);
                assert(all.take(i + 1).drop_last() =~= all.take(i as int));
                assert(all.take(i + 1).last() == b.deep_view());
            }
            i = i + 1;
        }
        proof {
            assert(all.take(i as int) =~= all);
            assert(pointees(out@) =~= Seq::new(out@.len(), |i: int| *out@[i]));
        }
        out
    }
}

fn read_builder<'a>(method: &str, args: &'a Vec<Expr>) -> (r: Builder<'a>)
    ensures
        r.deep_view() == builder_of(method@, args@),
{
    let entries: bool = str_eq(method, "hook_if");
    let mut targets: Vec<Option<&'a Expr>> = Vec::new();
    if !str_eq(method, "continue_on") {
        let mut i: usize = 0;
        while i < args.len()
            invariant
                i <= args@.len(),
                targets@.len() == i,
                forall|k: int|
                    0 <= k < i ==> pointed(#[trigger] targets@[k]) == target_in(args@[k], entries),
            decreases args@.len() - i,
        {
            targets.push(hook_target(&args[i], entries));
            i = i + 1;
        }
    }
    let r: Builder<'a> = Builder { entries, targets };
    proof {
        assert(r.deep_view() =~= builder_of(method@, args@));
    }
    r
}

/// Takes a task call apart: what its builders stand on, the builders with the
/// targets of their hooks, and whether the call goes on after a failure.
pub fn ghost_parts<'a>(e: &'a Expr) -> (r: Parts<'a>)
    ensures
        r.deep_view() == parts_of(*e),
    decreases *e,
{
    match e {
        Expr::MethodCall { receiver, method, args } => {
            if is_builder_method(method.as_str()) {
                let inner: Parts<'a> = ghost_parts(receiver);
                let mut builders: Vec<Builder<'a>> = inner.builders;
                let ghost b0 = builders.deep_view();
                let b: Builder<'a> = read_builder(method.as_str(), args);
                let ghost bv = b.deep_view();
                builders.push(b);
                proof {
                    assert(builders.deep_view() =~= b0.push(bv));
                }
                return Parts {
                    base: inner.base,
                    builders,
                    fallible: inner.fallible || str_eq(method.as_str(), "continue_on"),
                };
            }
        },
        _ => {},
    }
    let builders: Vec<Builder<'a>> = Vec::new();
    proof {
        assert(builders.deep_view() =~= Seq::<BuilderView>::empty());
    }
    Parts { base: e, builders, fallible: false }
}

// ---- laws -----------------------------------------------------------------------------
proof fn lemma_given(targets: Seq<Option<Expr>>)
    requires
        forall|i: int|
            0 <= i < targets.len() ==> ((#[trigger] targets[i]) matches Some(e) ==> is_target(e)),
    ensures
        forall|i: int| 0 <= i < given(targets).len() ==> is_target(#[trigger] given(targets)[i]),
    decreases targets.len(),
{
    if targets.len() > 0 {
        let front = targets.drop_last();
        assert forall|i: int| 0 <= i < front.len() implies ((#[trigger] front[i]) matches Some(
            e,
        ) ==> is_target(e)) by {
            assert(front[i] == targets[i]);
        }
        lemma_given(front);
        assert(targets[targets.len() - 1] matches Some(e) ==> is_target(e));
        let r = given(targets);
        assert forall|i: int| 0 <= i < r.len() implies is_target(#[trigger] r[i]) by {
            if i < given(front).len() {
                assert(r[i] == given(front)[i]);
            }
        }
    }
}

proof fn lemma_parts(e: Expr)
    ensures
        parts_of(e).base matches Expr::MethodCall { method, .. } ==> !is_builder(method@),
        forall|i: int|
            0 <= i < hooks_of(parts_of(e).builders).len() ==> is_target(
                #[trigger] hooks_of(parts_of(e).builders)[i],
            ),
    decreases e,
{
    match e {
        Expr::MethodCall { receiver, method, args } => {
            if is_builder(method@) {
                lemma_parts(*receiver);
                let inner = parts_of(*receiver).builders;
                let b = builder_of(method@, args@);
                let all = parts_of(e).builders;
                assert(all.drop_last() =~= inner);
                assert(all.last() == b);
                lemma_given(b.targets);
                let r = hooks_of(all);
                assert forall|i: int| 0 <= i < r.len() implies is_target(#[trigger] r[i]) by {
                    if i < hooks_of(inner).len() {
                        assert(r[i] == hooks_of(inner)[i]);
                    } else {
                        assert(r[i] == given(b.targets)[i - hooks_of(inner).len()]);
                    }
                }
            }
        },
        _ => {},
    }
}

/// No builder is left on what is checked, and every hook that is checked is a
/// call or a template.
pub proof fn law_ghost_parts(e: Expr)
    ensures
        parts_of(e).base matches Expr::MethodCall { method, .. } ==> !is_builder(method@),
        forall|i: int|
            0 <= i < hooks_of(parts_of(e).builders).len() ==> is_target(
                #[trigger] hooks_of(parts_of(e).builders)[i],
            ),
{
    lemma_parts(e);
}

} // verus!
