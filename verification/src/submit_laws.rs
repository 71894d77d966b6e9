//! What a submission does: which template is run, with which values, where, and
//! after which questions.

use crate::api::{WorkflowSpecView, WorkflowTemplateView};
use crate::emulate::Values;
use crate::maps::lists;
use crate::run_meta::ContainerRunMetaView;
use crate::submit::{
    base_of, binary_in, can_happen, law_run_params, namespace_in, next_of, plan_of, resource_of,
    root_named, selector_of, server_in, submission_of, Action, Event, Stage, SubmitArgsView, Why,
};
use crate::text::{has_prefix, is_char, is_space, lemma_tail_bounds, occurs, trim_by};
use vstd::prelude::*;

verus! {

/// The template that is run is the first whose name is the one that is given, or
/// that name behind the package's; where there is none, none is run.
pub proof fn law_the_named_template_is_run(ms: Seq<ContainerRunMetaView>, template: Seq<char>)
    ensures
        match root_named(ms, template) {
            Some(m) => exists|i: int|
                {
                    &&& 0 <= i < ms.len()
                    &&& #[trigger] ms[i] == m
                    &&& goes_by(m, template)
                    &&& forall|j: int| 0 <= j < i ==> !goes_by(#[trigger] ms[j], template)
                },
            None => forall|i: int| 0 <= i < ms.len() ==> !goes_by(#[trigger] ms[i], template),
        },
    decreases ms.len(),
{
    if ms.len() > 0 {
        let r = ms.drop_first();
        law_the_named_template_is_run(r, template);
        if goes_by(ms[0], template) {
            assert(root_named(ms, template) == Some(ms[0]));
        } else {
            match root_named(ms, template) {
                Some(m) => {
                    let i = choose|i: int|
                        {
                            &&& 0 <= i < r.len()
                            &&& #[trigger] r[i] == m
                            &&& goes_by(m, template)
                            &&& forall|j: int| 0 <= j < i ==> !goes_by(#[trigger] r[j], template)
                        };
                    assert(ms[i + 1] == m);
                    assert forall|j: int| 0 <= j < i + 1 implies !goes_by(
                        #[trigger] ms[j],
                        template,
                    ) by {
                        if j > 0 {
                            assert(r[j - 1] == ms[j]);
                        }
                    }
                },
                None => {
                    assert forall|i: int| 0 <= i < ms.len() implies !goes_by(
                        #[trigger] ms[i],
                        template,
                    ) by {
                        if i > 0 {
                            assert(r[i - 1] == ms[i]);
                        }
                    }
                },
            }
        }
    }
}

/// Whether a template goes by a name.
pub open spec fn goes_by(m: ContainerRunMetaView, template: Seq<char>) -> bool {
    m.name == template || m.name == m.package + "-"@ + template
}

/// The tarball that is looked for is that of the first template that has one.
pub proof fn law_the_binary_is_found(ms: Seq<ContainerRunMetaView>)
    ensures
        match binary_in(ms) {
            Some(a) => exists|i: int|
                0 <= i < ms.len() && (#[trigger] ms[i]).binary_artifact == Some(a) && forall|j: int|
                    0 <= j < i ==> (#[trigger] ms[j]).binary_artifact is None,
            None => forall|i: int|
                0 <= i < ms.len() ==> (#[trigger] ms[i]).binary_artifact is None,
        },
    decreases ms.len(),
{
    if ms.len() > 0 {
        let r = ms.drop_first();
        law_the_binary_is_found(r);
        if ms[0].binary_artifact is Some {
            assert(ms[0].binary_artifact == binary_in(ms));
        } else {
            match binary_in(ms) {
                Some(a) => {
                    let i = choose|i: int|
                        0 <= i < r.len() && (#[trigger] r[i]).binary_artifact == Some(a) && forall|
                            j: int,
                        |
                            0 <= j < i ==> (#[trigger] r[j]).binary_artifact is None;
                    assert(ms[i + 1] == r[i]);
                    assert forall|j: int| 0 <= j < i + 1 implies (
                    #[trigger] ms[j]).binary_artifact is None by {
                        if j > 0 {
                            assert(r[j - 1] == ms[j]);
                        }
                    }
                },
                None => {
                    assert forall|i: int| 0 <= i < ms.len() implies (
                    #[trigger] ms[i]).binary_artifact is None by {
                        if i > 0 {
                            assert(r[i - 1] == ms[i]);
                        }
                    }
                },
            }
        }
    }
}

/// The nearest word on the namespace counts: the command line, then an environment
/// that is not empty, then the configuration, and `default` where all are silent.
pub proof fn law_the_nearest_namespace_counts(
    flag: Option<Seq<char>>,
    env: Option<Seq<char>>,
    config: Option<Seq<char>>,
    n: Seq<char>,
)
    ensures
        namespace_in(Some(n), env, config) == n,
        n.len() > 0 ==> namespace_in(None, Some(n), config) == n,
        namespace_in(None, Some(Seq::empty()), config) == namespace_in(None, None, config),
        namespace_in(None, None, Some(n)) == n,
        namespace_in(None, None, None) == "default"@,
{
}

/// The server is that of the command line, else that of the environment; a blank
/// one is none, and then the cluster's own interface is spoken to.
pub proof fn law_the_nearest_server_counts(flag: Option<Seq<char>>, env: Option<Seq<char>>, s: Seq<char>)
    ensures
        trim_by(s, is_space()).len() > 0 ==> server_in(Some(s), env) == Some(s) && server_in(
            None,
            Some(s),
        ) == Some(s),
        trim_by(s, is_space()).len() == 0 ==> server_in(Some(s), env) is None,
        server_in(None, None) is None,
{
}

/// The base of a server's addresses names a scheme, which is the secure one where
/// none is given, and does not end in a slash unless it is nothing else.
pub proof fn law_addresses_have_a_scheme(server: Seq<char>)
    ensures
        occurs(server, "://"@) ==> has_prefix(server, base_of(server)),
        !occurs(server, "://"@) ==> has_prefix(base_of(server), "https://"@) && has_prefix(
            server,
            base_of(server).skip(8),
        ),
        base_of(server).len() > 8 ==> base_of(server).last() != '/',
{
    let f = is_char('/');
    lemma_tail_bounds(server, f);
    let s = crate::text::trim_end_by(server, f);
    reveal_strlit("https://");
    assert(server.subrange(0, s.len() as int) =~= s);
    let b = base_of(server);
    if !occurs(server, "://"@) {
        assert(b.subrange(0, 8) =~= "https://"@);
        assert(b.skip(8) =~= s);
        if b.len() > 8 {
            assert(b.last() == s.last());
        }
    }
}

/// A template is applied exactly where the cluster does not have it, or has
/// another, or where everything is to be applied again; what is new is created.
pub proof fn law_what_is_applied(
    ts: Seq<WorkflowTemplateView>,
    live: Seq<Option<WorkflowSpecView>>,
    update: bool,
    i: int,
    w: Why,
)
    requires
        0 <= i < ts.len(),
        ts.len() <= live.len(),
    ensures
        plan_of(ts, live, update).contains((i, w)) <==> match w {
            Why::Create => live[i] is None,
            Why::Drift => live[i] is Some && (update || ts[i].spec != live[i]),
        },
    decreases ts.len(),
{
    let plan = plan_of(ts, live, update);
    let f = ts.drop_last();
    let front = plan_of(f, live, update);
    lemma_places(f, live, update);
    if i < f.len() {
        law_what_is_applied(f, live, update, i, w);
        assert(f[i] == ts[i]);
        if front.contains((i, w)) {
            let k = choose|k: int| 0 <= k < front.len() && front[k] == (i, w);
            assert(plan[k] == (i, w));
        }
        if plan.contains((i, w)) {
            let k = choose|k: int| 0 <= k < plan.len() && plan[k] == (i, w);
            if k < front.len() {
                assert(front[k] == (i, w));
            }
        }
    } else {
        if plan.len() > front.len() {
            assert(plan.last() == plan[front.len() as int]);
        }
        if plan.contains((i, w)) {
            let k = choose|k: int| 0 <= k < plan.len() && plan[k] == (i, w);
            if k < front.len() {
                assert(front[k].0 < f.len());
            }
        }
        if plan.len() > front.len() && plan.last() == (i, w) {
            assert(plan.contains((i, w)));
        }
    }
}

proof fn lemma_places(
    ts: Seq<WorkflowTemplateView>,
    live: Seq<Option<WorkflowSpecView>>,
    update: bool,
)
    ensures
        forall|k: int|
            0 <= k < plan_of(ts, live, update).len() ==> (#[trigger] plan_of(
                ts,
                live,
                update,
            )[k]).0 < ts.len(),
    decreases ts.len(),
{
    if ts.len() > 0 {
        lemma_places(ts.drop_last(), live, update);
        let front = plan_of(ts.drop_last(), live, update);
        let plan = plan_of(ts, live, update);
        assert forall|k: int| 0 <= k < plan.len() implies (#[trigger] plan[k]).0 < ts.len() by {
            if k < front.len() {
                assert(plan[k] == front[k]);
            }
        }
    }
}

/// The resource that is run is the first that enters at the chosen template.
pub proof fn law_the_entered_resource_is_run(ts: Seq<WorkflowTemplateView>, root: Seq<char>, i: int)
    requires
        0 <= i < ts.len(),
        ts[i].spec matches Some(s) && s.entrypoint == root,
        ts[i].metadata is Some,
        forall|j: int|
            0 <= j < i ==> !((#[trigger] ts[j]).spec matches Some(s) && s.entrypoint == root),
    ensures
        resource_of(ts, root) == Some(ts[i].metadata->0.name),
    decreases ts.len(),
{
    if i > 0 {
        let r = ts.drop_first();
        assert(!(ts[0].spec matches Some(s) && s.entrypoint == root));
        assert(r[i - 1] == ts[i]);
        assert forall|j: int| 0 <= j < i - 1 implies !((#[trigger] r[j]).spec matches Some(s)
            && s.entrypoint == root) by {
            assert(r[j] == ts[j + 1]);
        }
        law_the_entered_resource_is_run(r, root, i - 1);
    }
}

/// A run refers to the resource of its template and is given every value that was
/// set, under its name and as JSON. Its name begins with the resource's. The
/// namespace, the account, the node selector and the priority are those that were
/// asked for.
pub proof fn law_a_run_gets_what_was_given(
    a: SubmitArgsView,
    ts: Seq<WorkflowTemplateView>,
    root: Seq<char>,
    vals: Values,
    ns: Seq<char>,
    sa: Seq<char>,
    ks: Seq<Seq<char>>,
)
    requires
        lists(vals, ks),
    ensures
        submission_of(a, ts, root, vals, ns, sa) matches Ok(w) ==> {
            &&& w.kind == "Workflow"@
            &&& w.metadata matches Some(m) && m.namespace == ns && m.generate_name == resource_of(
                ts,
                root,
            )->0 + "-"@
            &&& w.spec matches Some(s) && {
                &&& s.workflow_template_ref matches Some(r) && resource_of(ts, root) == Some(r.name)
                    && !r.cluster_scope
                &&& s.service_account_name == sa
                &&& s.priority == a.priority
                &&& selector_of(a.node_selector) matches Ok(sel) && s.node_selector == sel
                &&& match s.arguments {
                    None => ks.len() == 0,
                    Some(g) => {
                        &&& g.artifacts.len() == 0
                        &&& g.parameters.len() == ks.len()
                        &&& forall|i: int|
                            0 <= i < ks.len() ==> (#[trigger] g.parameters[i]).name == ks[i]
                                && g.parameters[i].value == Some(vals[ks[i]].text)
                    },
                }
            }
        },
        submission_of(a, ts, root, vals, ns, sa) is Ok <==> selector_of(a.node_selector) is Ok
            && resource_of(ts, root) is Some,
{
    law_run_params(vals, ks);
}

/// A `k=v` text of the node selector sets `k` to `v`, unless a text behind it sets
/// it again; a text without an equals sign is refused.
pub proof fn law_node_selectors(pairs: Seq<Seq<char>>, k: Seq<char>, v: Seq<char>)
    requires
        !k.contains('='),
    ensures
        selector_of(pairs) matches Ok(m) ==> selector_of(pairs.push(k + seq!['='] + v)) == Ok::<
            Map<Seq<char>, Seq<char>>,
            Seq<char>,
        >(m.insert(k, v)),
        selector_of(pairs.push(k)) is Err,
        selector_of(Seq::empty()) == Ok::<Map<Seq<char>, Seq<char>>, Seq<char>>(Map::empty()),
{
    let p = k + seq!['='] + v;
    assert(pairs.push(p).drop_last() =~= pairs);
    assert(pairs.push(k).drop_last() =~= pairs);
    assert forall|i: int| 0 <= i < k.len() implies #[trigger] k[i] != '=' by {
        assert(k.contains(k[i]));
    }
    crate::option_laws::law_pairs_split_at_the_first_sign(k, v);
    crate::text::lemma_lead(k, crate::text::not_char('='), k.len() as int);
}

/// What comes next: templates that differ are applied before the run is created,
/// every question may be answered beforehand, a no ends it, and a yes does what was
/// asked.
pub proof fn law_a_submission_goes_on(s: Stage, e: Event, assume_yes: bool)
    requires
        can_happen(s, e),
    ensures
        ({
            let (to, act) = next_of(s, e, assume_yes);
            &&& assume_yes ==> act != Action::AskToApply && act != Action::AskToRun
            &&& e matches Event::Plan { applies } ==> (if applies {
                act == if assume_yes {
                    Action::Apply
                } else {
                    Action::AskToApply
                }
            } else {
                act == if assume_yes {
                    Action::Create
                } else {
                    Action::AskToRun
                }
            })
            &&& e == (Event::Answer { yes: false }) ==> to == Stage::Ended && (act
                == Action::NotApplied || act == Action::NotSubmitted)
            &&& e == (Event::Answer { yes: true }) ==> act == if s == Stage::AskedToApply {
                Action::Apply
            } else {
                Action::Create
            }
            &&& e == Event::Applied ==> act == if assume_yes {
                Action::Create
            } else {
                Action::AskToRun
            }
            &&& e matches Event::Created { named } ==> to == Stage::Ended && act == if named {
                Action::Finish
            } else {
                Action::NoName
            }
            &&& act == Action::Apply <==> to == Stage::Applying
            &&& act == Action::Create <==> to == Stage::Creating
            &&& act == Action::AskToApply <==> to == Stage::AskedToApply
            &&& act == Action::AskToRun <==> to == Stage::AskedToRun
        }),
{
}

} // verus!
