//! What the attributes of a container ask for and its template brings: from what is
//! written in the attribute to the fields of the template.

use crate::api::{ArtifactView, MutexView, RetryStrategyView, TemplateView, TolerationView};
use crate::argo_expr::{lemma_steps_into, steps_into};
use crate::ast::{chain_of, BinOp, Chain, Expr, FnDecl, FnParam, Lit};
use crate::attrs::{
    inject_in, mutex_fn, opt_inject_in, pair_fn, parallelism_of, pod_gc_of, retry_fields,
    secs_i32_of, secs_i64_of, timeout_of, toleration_fn, ttl_fields, whole_seconds_of, InjectView,
    MutexArg, TolerationArg, TolerationText,
};
use crate::config::S3RepoView;
use crate::container::{
    container_decl_of, container_template_of, opt_retry, pairs_map, texts_from, texts_of,
    ContainerArgs, ContainerDeclView,
};
use crate::context::{resolved_of, secrets_of, BuildCtxView, Declares};
use crate::delivery::{
    arm_for, arms_for, chosen_mounts, chosen_volumes, mounts_of, script_for, volumes_of,
};
use crate::folds::{lemma_map_res_len, map_res};
use crate::lower::IoKind;
use crate::signature::{
    args_of, first_param_problem, law_signature_counts, shape_problem, signature_of, FnArgView,
};
use crate::text::{all_digits, dec, dec_value, lead, lemma_lead_bounds, not_char, occurs, stands_at};
use vstd::prelude::*;

verus! {

// ---- fields of a group -------------------------------------------------------------
/// Whether the field `key` of a group is given last at `i`.
pub open spec fn given_at(fields: Seq<(String, Expr)>, key: Seq<char>, i: int) -> bool {
    &&& 0 <= i < fields.len()
    &&& fields[i].0@ == key
    &&& forall|j: int| i < j < fields.len() ==> (#[trigger] fields[j]).0@ != key
}

/// Whether the field `key` of a group is not given.
pub open spec fn not_given(fields: Seq<(String, Expr)>, key: Seq<char>) -> bool {
    forall|j: int| 0 <= j < fields.len() ==> (#[trigger] fields[j]).0@ != key
}

/// What a field of a group says: what it is given as last.
pub open spec fn field_says(fields: Seq<(String, Expr)>, key: Seq<char>, v: Option<Expr>) -> bool {
    match v {
        Some(e) => exists|i: int| #[trigger] given_at(fields, key, i) && fields[i].1 == e,
        None => not_given(fields, key),
    }
}

proof fn lemma_field_step(
    fields: Seq<(String, Expr)>,
    key: Seq<char>,
    before: Option<Expr>,
    after: Option<Expr>,
)
    requires
        fields.len() > 0,
        field_says(fields.drop_last(), key, before),
        if fields.last().0@ == key {
            after == Some(fields.last().1)
        } else {
            after == before
        },
    ensures
        field_says(fields, key, after),
{
    let f = fields.drop_last();
    if fields.last().0@ == key {
        assert(given_at(fields, key, fields.len() - 1));
    } else {
        match before {
            Some(e) => {
                let i = choose|i: int| #[trigger] given_at(f, key, i) && f[i].1 == e;
                assert(fields[i] == f[i]);
                assert forall|j: int| i < j < fields.len() implies (#[trigger] fields[j]).0@
                    != key by {
                    if j < f.len() {
                        assert(f[j] == fields[j]);
                    }
                }
                assert(given_at(fields, key, i));
            },
            None => {
                assert forall|j: int| 0 <= j < fields.len() implies (#[trigger] fields[j]).0@
                    != key by {
                    if j < f.len() {
                        assert(f[j] == fields[j]);
                    }
                }
            },
        }
    }
}

/// The fields of `retry(…)` are read by their names; no other field is accepted.
pub proof fn law_retry_fields(fields: Seq<(String, Expr)>)
    ensures
        retry_fields(fields) matches Ok(r) ==> {
            &&& field_says(fields, "limit"@, r.limit)
            &&& field_says(fields, "backoff"@, r.backoff)
            &&& match r.policy {
                Some(s) => exists|i: int| #[trigger]
                    given_at(fields, "policy"@, i) && (fields[i].1 matches Expr::Lit(Lit::Str(x))
                        && x@ == s),
                None => not_given(fields, "policy"@),
            }
        },
    decreases fields.len(),
{
    reveal_strlit("limit");
    reveal_strlit("policy");
    reveal_strlit("backoff");
    assert("limit"@.len() == 5 && "policy"@.len() == 6 && "backoff"@.len() == 7);
    assert("limit"@ != "policy"@ && "limit"@ != "backoff"@ && "policy"@ != "backoff"@);
    if fields.len() > 0 {
        let f = fields.drop_last();
        law_retry_fields(f);
        if retry_fields(fields) is Ok {
            let r = retry_fields(fields)->Ok_0;
            let r0 = retry_fields(f)->Ok_0;
            lemma_field_step(fields, "limit"@, r0.limit, r.limit);
            lemma_field_step(fields, "backoff"@, r0.backoff, r.backoff);
            if fields.last().0@ == "policy"@ {
                assert(given_at(fields, "policy"@, fields.len() - 1));
            } else {
                match r0.policy {
                    Some(s) => {
                        let i = choose|i: int| #[trigger]
                            given_at(f, "policy"@, i) && (f[i].1 matches Expr::Lit(Lit::Str(x))
                                && x@ == s);
                        let e = f[i].1;
                        assert(field_says(f, "policy"@, Some(e)));
                        assert(given_at(fields, "policy"@, i)) by {
                            assert forall|j: int| i < j < fields.len() implies (
                            #[trigger] fields[j]).0@ != "policy"@ by {
                                if j < f.len() {
                                    assert(f[j] == fields[j]);
                                }
                            }
                        }
                        assert(fields[i] == f[i]);
                        assert(r.policy == Some(s));
                    },
                    None => {
                        assert(field_says(f, "policy"@, None));
                        lemma_field_step(fields, "policy"@, None, None);
                    },
                }
            }
        }
    }
}

/// The fields of `ttl_if_root(…)` are read by their names.
pub proof fn law_ttl_fields(fields: Seq<(String, Expr)>)
    ensures
        ttl_fields(fields) matches Ok(r) ==> {
            &&& field_says(fields, "after_completion"@, r.after_completion)
            &&& field_says(fields, "after_success"@, r.after_success)
            &&& field_says(fields, "after_failure"@, r.after_failure)
        },
    decreases fields.len(),
{
    reveal_strlit("after_completion");
    reveal_strlit("after_success");
    reveal_strlit("after_failure");
    assert("after_success"@[6] == 's' && "after_failure"@[6] == 'f');
    if fields.len() > 0 {
        let f = fields.drop_last();
        law_ttl_fields(f);
        if ttl_fields(fields) is Ok {
            let r = ttl_fields(fields)->Ok_0;
            let r0 = ttl_fields(f)->Ok_0;
            lemma_field_step(fields, "after_completion"@, r0.after_completion, r.after_completion);
            lemma_field_step(fields, "after_success"@, r0.after_success, r.after_success);
            lemma_field_step(fields, "after_failure"@, r0.after_failure, r.after_failure);
        }
    }
}

// ---- durations -----------------------------------------------------------------------
/// The seconds that a duration attribute writes as a number.
pub open spec fn seconds_written(e: Expr) -> Option<nat> {
    match e {
        Expr::Lit(Lit::Int(d)) => if all_digits(d@) && 0 < dec_value(d@) <= u64::MAX {
            Some(dec_value(d@))
        } else {
            None
        },
        _ => None,
    }
}

/// A duration that is written as a number counts seconds: the timeout is that
/// number followed by `s`, and the other limits are the number itself. A duration
/// that is not written sets no limit, and none is zero.
pub proof fn law_seconds_are_kept(e: Option<Expr>, attr: Seq<char>)
    ensures
        e is None ==> {
            &&& timeout_of(e) == Ok::<Seq<char>, Seq<char>>(Seq::empty())
            &&& secs_i32_of(e, attr) == Ok::<Option<i32>, Seq<char>>(None)
            &&& secs_i64_of(e, attr) == Ok::<Option<i64>, Seq<char>>(None)
        },
        e matches Some(x) && seconds_written(x) is Some ==> {
            let n = seconds_written(e->0)->0;
            &&& timeout_of(e) == Ok::<Seq<char>, Seq<char>>(dec(n).push('s'))
            &&& match secs_i32_of(e, attr) {
                Ok(v) => v matches Some(s) && s == n,
                Err(_) => n > i32::MAX,
            }
            &&& match secs_i64_of(e, attr) {
                Ok(v) => v matches Some(s) && s == n,
                Err(_) => n > i64::MAX,
            }
        },
        e matches Some(x) ==> (secs_i32_of(e, attr) matches Ok(v) ==> v matches Some(s) && s > 0),
        e matches Some(x) ==> (secs_i64_of(e, attr) matches Ok(v) ==> v matches Some(s) && s > 0),
        e matches Some(Expr::Lit(Lit::Int(d))) && seconds_written(e->0) is None ==> {
            &&& timeout_of(e) is Err
            &&& secs_i32_of(e, attr) is Err
            &&& secs_i64_of(e, attr) is Err
        },
{
    reveal_strlit("s");
    if e matches Some(x) && seconds_written(x) is Some {
        let n = seconds_written(e->0)->0;
        assert(dec(n) + "s"@ =~= dec(n).push('s'));
    }
}

// ---- retries ----------------------------------------------------------------------
/// Whether a retry strategy is what `retry(…)` asks for: as many retries as the
/// limit says, or without end where it is `unlimited`, under the policy that is
/// written, and with a backoff of the seconds that are written.
pub open spec fn retries_as_asked(r: RetryStrategyView, fields: Seq<(String, Expr)>) -> bool {
    &&& exists|i: int| #[trigger]
        given_at(fields, "limit"@, i) && match fields[i].1 {
            Expr::Lit(Lit::Int(d)) => r.limit matches Some(n) && n == dec_value(d@),
            Expr::Path(p) => r.limit is None && p.plain && p.segments@.len() == 1
                && p.segments@[0]@ == "unlimited"@,
            _ => false,
        }
    &&& if r.retry_policy.len() == 0 {
        not_given(fields, "policy"@)
    } else {
        exists|i: int| #[trigger]
            given_at(fields, "policy"@, i) && (fields[i].1 matches Expr::Lit(Lit::Str(x)) && x@
                == r.retry_policy)
    }
    &&& match r.backoff {
        None => not_given(fields, "backoff"@),
        Some(b) => exists|i: int| #[trigger]
            given_at(fields, "backoff"@, i) && (seconds_written(fields[i].1) matches Some(n)
                ==> b.duration == dec(n).push('s')),
    }
}

/// `retry(…)` becomes the retry strategy that it asks for; without it there is none.
pub proof fn law_retries_are_as_asked(f: Option<Vec<(String, Expr)>>)
    ensures
        match (f, opt_retry(f)) {
            (None, r) => r == Ok::<Option<RetryStrategyView>, Seq<char>>(None),
            (Some(v), Ok(r)) => r matches Some(s) && retries_as_asked(s, v@) && (
            s.retry_policy.len() == 0 || s.retry_policy == "Always"@ || s.retry_policy
                == "OnFailure"@ || s.retry_policy == "OnError"@ || s.retry_policy
                == "OnTransientError"@),
            _ => true,
        },
{
    reveal_strlit("Always");
    reveal_strlit("OnFailure");
    reveal_strlit("OnError");
    reveal_strlit("OnTransientError");
    if let Some(v) = f {
        law_retry_fields(v@);
        if opt_retry(f) is Ok {
            let a = retry_fields(v@)->Ok_0;
            let r = opt_retry(f)->Ok_0->0;
            let i = choose|i: int| #[trigger]
                given_at(v@, "limit"@, i) && v@[i].1 == a.limit->0;
            assert(given_at(v@, "limit"@, i));
            if let Some(x) = a.backoff {
                law_seconds_are_kept(Some(x), "retry(backoff)"@);
                let k = choose|k: int| #[trigger] given_at(v@, "backoff"@, k) && v@[k].1 == x;
                assert(given_at(v@, "backoff"@, k));
                reveal_strlit("s");
                if seconds_written(x) is Some {
                    let n = seconds_written(x)->0;
                    assert(dec(n) + "s"@ =~= dec(n).push('s'));
                }
            }
        }
    }
}

/// A retry with a limit that fits, and with nothing else, is accepted.
pub proof fn law_plain_retries_are_accepted(f: Vec<(String, Expr)>)
    requires
        f@.len() == 1,
        f@[0].0@ == "limit"@,
        f@[0].1 matches Expr::Lit(Lit::Int(d)) && all_digits(d@) && dec_value(d@) <= i32::MAX,
    ensures
        opt_retry(Some(f)) is Ok,
{
    assert(f@.drop_last().len() == 0);
    reveal_with_fuel(retry_fields, 2);
}

// ---- values ------------------------------------------------------------------------
/// The text of an attribute value: a string as it is, a sum as its parts one after
/// the other, and an argument, or a field of one, as the expression that decodes
/// it.
pub open spec fn value_text(e: Expr, scope: Seq<char>, t: Seq<char>) -> bool
    decreases e,
{
    match e {
        Expr::Paren { expr } => value_text(*expr, scope, t),
        Expr::Group { expr } => value_text(*expr, scope, t),
        Expr::Reference { mutable: _, expr } => value_text(*expr, scope, t),
        Expr::Lit(Lit::Str(s)) => t == s@,
        Expr::Binary { op, left, right } => op == BinOp::Add && exists|l: Seq<char>, r: Seq<char>|
            #![trigger l + r]
            t == l + r && value_text(*left, scope, l) && value_text(*right, scope, r),
        Expr::Path(p) => p.segments@.len() == 1 && t == "{{=fromJSON("@ + scope + "['"@
            + p.segments@[0]@ + "'])}}"@,
        Expr::Field { base: _, member: _ } => match chain_of(e) {
            Chain::Root(Expr::Path(p), path) => p.segments@.len() == 1 && t == "{{=fromJSON("@
                + scope + "['"@ + p.segments@[0]@ + "'])"@ + steps_into(path) + "}}"@,
            _ => false,
        },
        _ => false,
    }
}

/// An attribute value that is accepted has the text of what is written.
pub proof fn law_values_are_written(e: Expr, c: InjectView)
    ensures
        inject_in(e, c) matches Ok(t) ==> value_text(e, c.scope, t),
    decreases e,
{
    match e {
        Expr::Paren { expr } => law_values_are_written(*expr, c),
        Expr::Group { expr } => law_values_are_written(*expr, c),
        Expr::Reference { mutable: _, expr } => law_values_are_written(*expr, c),
        Expr::Binary { op, left, right } => {
            law_values_are_written(*left, c);
            law_values_are_written(*right, c);
            if inject_in(e, c) is Ok {
                let l = inject_in(*left, c)->Ok_0;
                let r = inject_in(*right, c)->Ok_0;
                assert(inject_in(e, c)->Ok_0 == l + r);
            }
        },
        Expr::Field { base: _, member: _ } => {
            if let Chain::Root(Expr::Path(_), path) = chain_of(e) {
                lemma_steps_into(path);
            }
        },
        _ => {},
    }
}

/// A string is accepted as an attribute value and stands for itself; so does an
/// argument of the function.
pub proof fn law_plain_values_are_accepted(e: Expr, c: InjectView)
    ensures
        e matches Expr::Lit(Lit::Str(s)) ==> inject_in(e, c) == Ok::<Seq<char>, Seq<char>>(s@),
        e matches Expr::Path(p) && p.segments@.len() == 1 && c.args.contains(p.segments@[0]@)
            ==> inject_in(e, c) is Ok,
        e matches Expr::Path(p) && p.segments@.len() == 1 && !c.args.contains(p.segments@[0]@)
            ==> inject_in(e, c) is Err,
{
}

/// What a list of pairs says of a key: the value that it is given last.
pub open spec fn pairs_say(
    pairs: Seq<(Seq<char>, Seq<char>)>,
    m: Map<Seq<char>, Seq<char>>,
) -> bool {
    &&& forall|k: Seq<char>| #[trigger]
        m.dom().contains(k) <==> exists|i: int| 0 <= i < pairs.len() && (#[trigger] pairs[i]).0 == k
    &&& forall|i: int|
        0 <= i < pairs.len() && (forall|j: int|
            i < j < pairs.len() ==> (#[trigger] pairs[j]).0 != pairs[i].0) ==> m[(
        #[trigger] pairs[i]).0] == pairs[i].1
}

pub proof fn law_pairs_become_a_map(pairs: Seq<(Seq<char>, Seq<char>)>)
    ensures
        pairs_say(pairs, pairs_map(pairs)),
    decreases pairs.len(),
{
    let m = pairs_map(pairs);
    if pairs.len() > 0 {
        let f = pairs.drop_last();
        law_pairs_become_a_map(f);
        let m0 = pairs_map(f);
        assert forall|k: Seq<char>| #[trigger] m.dom().contains(k) <==> exists|i: int|
            0 <= i < pairs.len() && (#[trigger] pairs[i]).0 == k by {
            if m0.dom().contains(k) {
                let i = choose|i: int| 0 <= i < f.len() && (#[trigger] f[i]).0 == k;
                assert(pairs[i] == f[i]);
            }
            if k == pairs.last().0 {
                assert(pairs[pairs.len() - 1].0 == k);
            }
            if exists|i: int| 0 <= i < pairs.len() && (#[trigger] pairs[i]).0 == k {
                let i = choose|i: int| 0 <= i < pairs.len() && (#[trigger] pairs[i]).0 == k;
                if i < f.len() {
                    assert(f[i].0 == k);
                    assert(m0.dom().contains(k));
                }
            }
        }
        assert forall|i: int|
            0 <= i < pairs.len() && (forall|j: int|
                i < j < pairs.len() ==> (#[trigger] pairs[j]).0 != pairs[i].0) implies m[(
        #[trigger] pairs[i]).0] == pairs[i].1 by {
            if i < f.len() {
                assert(f[i] == pairs[i]);
                assert(pairs[pairs.len() - 1].0 != pairs[i].0);
                assert forall|j: int| i < j < f.len() implies (#[trigger] f[j]).0 != f[i].0 by {
                    assert(f[j] == pairs[j]);
                }
            }
        }
    }
}

// ---- the template ----------------------------------------------------------------------
/// Whether an optional value is as written: absent where it is not written.
pub open spec fn opt_as_written(e: Option<Expr>, scope: Seq<char>, t: Option<Seq<char>>) -> bool {
    match (e, t) {
        (None, None) => true,
        (Some(x), Some(s)) => value_text(x, scope, s),
        _ => false,
    }
}

/// Whether pairs are as written, each key with the text of its value.
pub open spec fn pairs_as_written(
    list: Seq<(String, Expr)>,
    scope: Seq<char>,
    t: Seq<(Seq<char>, Seq<char>)>,
) -> bool {
    &&& t.len() == list.len()
    &&& forall|i: int|
        0 <= i < list.len() ==> (#[trigger] t[i]).0 == list[i].0@ && value_text(
            list[i].1,
            scope,
            t[i].1,
        )
}

/// Whether mutexes are as written: a mutex without a namespace is in that of the
/// run.
pub open spec fn mutexes_as_written(
    list: Seq<MutexArg>,
    scope: Seq<char>,
    t: Seq<(Seq<char>, Seq<char>)>,
) -> bool {
    &&& t.len() == list.len()
    &&& forall|i: int|
        0 <= i < list.len() ==> value_text(list[i].name, scope, (#[trigger] t[i]).0) && match list[
        i].namespace {
            Some(n) => value_text(n, scope, t[i].1),
            None => t[i].1.len() == 0,
        }
}

/// Whether tolerations are as written.
pub open spec fn tolerations_as_written(
    list: Seq<TolerationArg>,
    scope: Seq<char>,
    t: Seq<TolerationText>,
) -> bool {
    &&& t.len() == list.len()
    &&& forall|i: int|
        0 <= i < list.len() ==> {
            let x = #[trigger] t[i];
            &&& value_text(list[i].key, scope, x.0)
            &&& x.1 == list[i].operator@ && (x.1 == "Equal"@ || x.1 == "Exists"@)
            &&& match list[i].value {
                Some(v) => value_text(v, scope, x.2),
                None => x.2.len() == 0,
            }
            &&& value_text(list[i].effect, scope, x.3)
            &&& x.4 == list[i].toleration_seconds
        }
}

pub proof fn lemma_opt_written(e: Option<Expr>, c: InjectView)
    ensures
        opt_inject_in(e, c) matches Ok(t) ==> opt_as_written(e, c.scope, t),
{
    if let Some(x) = e {
        law_values_are_written(x, c);
    }
}

pub proof fn lemma_pairs_written(list: Seq<(String, Expr)>, c: InjectView)
    ensures
        map_res(list, pair_fn(c)) matches Ok(t) ==> pairs_as_written(list, c.scope, t),
{
    lemma_map_res_len(list, pair_fn(c));
    if map_res(list, pair_fn(c)) is Ok {
        let t = map_res(list, pair_fn(c))->Ok_0;
        assert forall|i: int| 0 <= i < list.len() implies (#[trigger] t[i]).0 == list[i].0@
            && value_text(list[i].1, c.scope, t[i].1) by {
            assert(pair_fn(c)(list[i]) == Ok::<(Seq<char>, Seq<char>), Seq<char>>(t[i]));
            law_values_are_written(list[i].1, c);
        }
    }
}

pub proof fn lemma_mutexes_written(list: Seq<MutexArg>, c: InjectView)
    ensures
        map_res(list, mutex_fn(c)) matches Ok(t) ==> mutexes_as_written(list, c.scope, t),
{
    lemma_map_res_len(list, mutex_fn(c));
    if map_res(list, mutex_fn(c)) is Ok {
        let t = map_res(list, mutex_fn(c))->Ok_0;
        assert forall|i: int| 0 <= i < list.len() implies value_text(
            list[i].name,
            c.scope,
            (#[trigger] t[i]).0,
        ) && match list[i].namespace {
            Some(n) => value_text(n, c.scope, t[i].1),
            None => t[i].1.len() == 0,
        } by {
            assert(mutex_fn(c)(list[i]) == Ok::<(Seq<char>, Seq<char>), Seq<char>>(t[i]));
            law_values_are_written(list[i].name, c);
            lemma_opt_written(list[i].namespace, c);
        }
    }
}

pub proof fn lemma_tolerations_written(list: Seq<TolerationArg>, c: InjectView)
    ensures
        map_res(list, toleration_fn(c)) matches Ok(t) ==> tolerations_as_written(list, c.scope, t),
{
    lemma_map_res_len(list, toleration_fn(c));
    if map_res(list, toleration_fn(c)) is Ok {
        let t = map_res(list, toleration_fn(c))->Ok_0;
        assert forall|i: int| 0 <= i < list.len() implies {
            let x = #[trigger] t[i];
            &&& value_text(list[i].key, c.scope, x.0)
            &&& x.1 == list[i].operator@ && (x.1 == "Equal"@ || x.1 == "Exists"@)
            &&& match list[i].value {
                Some(v) => value_text(v, c.scope, x.2),
                None => x.2.len() == 0,
            }
            &&& value_text(list[i].effect, c.scope, x.3)
            &&& x.4 == list[i].toleration_seconds
        } by {
            assert(toleration_fn(c)(list[i]) == Ok::<TolerationText, Seq<char>>(t[i]));
            law_values_are_written(list[i].key, c);
            law_values_are_written(list[i].effect, c);
            lemma_opt_written(list[i].value, c);
        }
    }
}

/// Every attribute value of a container is read as it is written: over its own
/// inputs, or over the parameters of the run where the attribute holds for the run.
pub proof fn law_attribute_values(a: ContainerArgs, own: InjectView, root: InjectView)
    ensures
        texts_of(a, own, root) matches Ok(t) ==> {
            &&& opt_as_written(a.image, own.scope, t.image)
            &&& opt_as_written(a.service_account, own.scope, t.service_account)
            &&& pairs_as_written(a.node_selector@, own.scope, t.node_selector)
            &&& pairs_as_written(a.env@, own.scope, t.env)
            &&& pairs_as_written(a.annotations@, own.scope, t.annotations)
            &&& mutexes_as_written(a.mutexes@, own.scope, t.mutexes)
            &&& mutexes_as_written(a.mutexes_if_root@, root.scope, t.mutexes_if_root)
            &&& tolerations_as_written(a.tolerations@, own.scope, t.tolerations)
            &&& tolerations_as_written(a.tolerations_if_root@, root.scope, t.tolerations_if_root)
            &&& opt_as_written(a.affinity, own.scope, t.affinity)
            &&& opt_as_written(a.affinity_if_root, root.scope, t.affinity_if_root)
            &&& opt_as_written(a.pod_spec_patch, own.scope, t.pod_spec_patch)
            &&& opt_as_written(a.pod_spec_patch_if_root, root.scope, t.pod_spec_patch_if_root)
        },
{
    reveal(texts_from);
    lemma_opt_written(a.image, own);
    lemma_opt_written(a.service_account, own);
    lemma_pairs_written(a.node_selector@, own);
    lemma_pairs_written(a.env@, own);
    lemma_pairs_written(a.annotations@, own);
    lemma_mutexes_written(a.mutexes@, own);
    lemma_mutexes_written(a.mutexes_if_root@, root);
    lemma_tolerations_written(a.tolerations@, own);
    lemma_tolerations_written(a.tolerations_if_root@, root);
    lemma_opt_written(a.affinity, own);
    lemma_opt_written(a.affinity_if_root, root);
    lemma_opt_written(a.pod_spec_patch, own);
    lemma_opt_written(a.pod_spec_patch_if_root, root);
}

/// What the attribute of a container says is in its template: the image, the
/// account, the environment, where its pods may run, what they hold while they run,
/// how often and how long they are tried, and what they may do.
pub proof fn law_container_attributes(
    f: FnDecl,
    a: ContainerArgs,
    krate: Seq<char>,
    ctx: BuildCtxView,
    d: ContainerDeclView,
    t: TemplateView,
)
    requires
        container_decl_of(f, a, krate) == Ok::<ContainerDeclView, Seq<char>>(d),
        container_template_of(ctx, d) == Ok::<TemplateView, Seq<char>>(t),
    ensures
        t.name == d.argo_name,
        t.dag is None && t.script is None && t.steps.len() == 0,
        t.container is Some,
        match a.image {
            Some(e) => value_text(e, "inputs.parameters"@, t.container->0.image),
            None => t.container->0.image == ctx.config.bootstrap.default_image,
        },
        match a.service_account {
            Some(e) => value_text(e, "inputs.parameters"@, t.service_account_name),
            None => t.service_account_name == ctx.config.defaults.service_account,
        },
        exists|p: Seq<(Seq<char>, Seq<char>)>| #[trigger]
            pairs_as_written(a.node_selector@, "inputs.parameters"@, p) && pairs_say(
                p,
                t.node_selector,
            ),
        match t.metadata {
            None => a.annotations@.len() == 0,
            Some(m) => exists|p: Seq<(Seq<char>, Seq<char>)>| #[trigger]
                pairs_as_written(a.annotations@, "inputs.parameters"@, p) && pairs_say(
                    p,
                    m.annotations,
                ),
        },
        forall|i: int|
            0 <= i < a.env@.len() ==> {
                let v = #[trigger] t.container->0.env[i + 1];
                v.name == a.env@[i].0@ && v.value_from is None && value_text(
                    a.env@[i].1,
                    "inputs.parameters"@,
                    v.value,
                )
            },
        t.container->0.env.len() > a.env@.len(),
        t.container->0.env[0].name == "CARGO_ATHENA_TEMPLATE"@,
        t.container->0.env[0].value == t.name,
        match t.synchronization {
            None => a.mutexes@.len() == 0,
            Some(s) => mutexes_as_written(
                a.mutexes@,
                "inputs.parameters"@,
                s.mutexes.map_values(|m: MutexView| (m.name, m.namespace)),
            ),
        },
        t.tolerations.len() == a.tolerations@.len(),
        forall|i: int|
            0 <= i < a.tolerations@.len() ==> toleration_as_written(
                a.tolerations@[i],
                #[trigger] t.tolerations[i],
            ),
        opt_as_written(a.affinity, "inputs.parameters"@, t.affinity),
        opt_as_written(a.pod_spec_patch, "inputs.parameters"@, t.pod_spec_patch),
        t.daemon == a.daemon,
        match t.container->0.security_context {
            Some(c) => c.privileged && a.privileged,
            None => !a.privileged,
        },
{
    let own = InjectView {
        args: signature_of(args_of(f.params@)).inputs,
        scope: "inputs.parameters"@,
        kind: "container"@,
    };
    let root = InjectView { scope: "workflow.parameters"@, ..own };
    law_attribute_values(a, own, root);
    law_pairs_become_a_map(d.texts.node_selector);
    law_pairs_become_a_map(d.texts.annotations);
    assert(pairs_as_written(a.node_selector@, "inputs.parameters"@, d.texts.node_selector));
    assert(pairs_as_written(a.annotations@, "inputs.parameters"@, d.texts.annotations));
    let env = t.container->0.env;
    assert forall|i: int| 0 <= i < a.env@.len() implies {
        let v = #[trigger] env[i + 1];
        v.name == a.env@[i].0@ && v.value_from is None && value_text(
            a.env@[i].1,
            "inputs.parameters"@,
            v.value,
        )
    } by {
        assert(d.texts.env[i].0 == a.env@[i].0@);
        assert(env[i + 1] == crate::container::plain_env(d.texts.env[i].0, d.texts.env[i].1));
    }
    if let Some(s) = t.synchronization {
        assert(s.mutexes.map_values(|m: MutexView| (m.name, m.namespace)) =~= d.texts.mutexes);
    }
    assert forall|i: int| 0 <= i < a.tolerations@.len() implies toleration_as_written(
        a.tolerations@[i],
        #[trigger] t.tolerations[i],
    ) by {
        let x = d.texts.tolerations[i];
        assert(t.tolerations[i] == crate::attrs::toleration_view(x));
    }
}

/// Whether a toleration is as written; no seconds is for ever.
pub open spec fn toleration_as_written(a: TolerationArg, t: TolerationView) -> bool {
    &&& value_text(a.key, "inputs.parameters"@, t.key)
    &&& t.operator == a.operator@
    &&& match a.value {
        Some(v) => value_text(v, "inputs.parameters"@, t.value),
        None => t.value.len() == 0,
    }
    &&& value_text(a.effect, "inputs.parameters"@, t.effect)
    &&& match t.toleration_seconds {
        Some(n) => n == a.toleration_seconds,
        None => a.toleration_seconds == 0,
    }
}

/// The limits that the attribute of a container sets are in its template: retries
/// as asked, and a timeout and a running time of the seconds that are written.
pub proof fn law_container_limits(
    f: FnDecl,
    a: ContainerArgs,
    krate: Seq<char>,
    ctx: BuildCtxView,
    d: ContainerDeclView,
    t: TemplateView,
)
    requires
        container_decl_of(f, a, krate) == Ok::<ContainerDeclView, Seq<char>>(d),
        container_template_of(ctx, d) == Ok::<TemplateView, Seq<char>>(t),
    ensures
        match (a.retry, t.retry_strategy) {
            (None, None) => true,
            (Some(v), Some(r)) => retries_as_asked(r, v@),
            _ => false,
        },
        match a.timeout {
            None => t.timeout.len() == 0,
            Some(e) => t.timeout.len() > 0 && (seconds_written(e) matches Some(n) ==> t.timeout
                == dec(n).push('s')),
        },
        match (a.pod_running_timeout, t.active_deadline_seconds) {
            (None, None) => true,
            (Some(e), Some(s)) => s > 0 && (seconds_written(e) matches Some(n) ==> s == n),
            _ => false,
        },
        match (a.active_deadline_if_root, d.limits.active_deadline_if_root) {
            (None, None) => true,
            (Some(e), Some(s)) => s > 0 && (seconds_written(e) matches Some(n) ==> s == n),
            _ => false,
        },
        match (a.ttl_if_root, d.limits.ttl_if_root) {
            (None, None) => true,
            (Some(v), Some(s)) => ttl_as_asked(v@, "after_completion"@, s.seconds_after_completion)
                && ttl_as_asked(v@, "after_success"@, s.seconds_after_success) && ttl_as_asked(
                v@,
                "after_failure"@,
                s.seconds_after_failure,
            ),
            _ => false,
        },
{
    law_retries_are_as_asked(a.retry);
    law_seconds_are_kept(a.timeout, "timeout"@);
    law_seconds_are_kept(a.pod_running_timeout, "pod_running_timeout"@);
    law_seconds_are_kept(a.active_deadline_if_root, "active_deadline_if_root"@);
    reveal_strlit("s");
    if let Some(v) = a.ttl_if_root {
        law_ttl_fields(v@);
        let g = ttl_fields(v@)->Ok_0;
        law_seconds_are_kept(g.after_completion, "ttl_if_root(after_completion)"@);
        law_seconds_are_kept(g.after_success, "ttl_if_root(after_success)"@);
        law_seconds_are_kept(g.after_failure, "ttl_if_root(after_failure)"@);
        lemma_ttl_asked(v@, "after_completion"@, g.after_completion, "ttl_if_root(after_completion)"@);
        lemma_ttl_asked(v@, "after_success"@, g.after_success, "ttl_if_root(after_success)"@);
        lemma_ttl_asked(v@, "after_failure"@, g.after_failure, "ttl_if_root(after_failure)"@);
    }
}

/// Whether a deletion time is the one that a field asks for.
pub open spec fn ttl_as_asked(
    fields: Seq<(String, Expr)>,
    key: Seq<char>,
    s: Option<i32>,
) -> bool {
    match s {
        None => not_given(fields, key),
        Some(n) => n > 0 && exists|i: int| #[trigger]
            given_at(fields, key, i) && (seconds_written(fields[i].1) matches Some(m) ==> n == m),
    }
}

proof fn lemma_ttl_asked(
    fields: Seq<(String, Expr)>,
    key: Seq<char>,
    e: Option<Expr>,
    attr: Seq<char>,
)
    requires
        field_says(fields, key, e),
    ensures
        secs_i32_of(e, attr) matches Ok(s) ==> ttl_as_asked(fields, key, s),
{
    law_seconds_are_kept(e, attr);
    if let Some(x) = e {
        let i = choose|i: int| #[trigger] given_at(fields, key, i) && fields[i].1 == x;
        assert(given_at(fields, key, i));
    }
}

/// A container is started with the shell, the script of the build's targets, and
/// one element for each argument that is no artifact, in order: the argument's
/// parameter, or what Argo fills in for it. It takes one parameter for each
/// argument that is neither, and returns what its body writes.
pub proof fn law_container_command(
    f: FnDecl,
    a: ContainerArgs,
    krate: Seq<char>,
    ctx: BuildCtxView,
    d: ContainerDeclView,
    t: TemplateView,
)
    requires
        container_decl_of(f, a, krate) == Ok::<ContainerDeclView, Seq<char>>(d),
        container_template_of(ctx, d) == Ok::<TemplateView, Seq<char>>(t),
    ensures
        t.container matches Some(c) && {
            let sig = signature_of(args_of(f.params@));
            &&& c.command == seq!["/bin/sh"@, "-c"@]
            &&& c.args.len() == sig.argv.len() + 2
            &&& c.args[0] == script_for(ctx.config.bootstrap.targets, d.output_kind)
            &&& c.args[1] == "--"@
            &&& forall|i: int| 0 <= i < sig.argv.len() ==> #[trigger] c.args[i + 2] == sig.argv[i]
            &&& t.inputs matches Some(g) && g.parameters.len() == sig.params.len() && forall|i: int|
                0 <= i < sig.params.len() ==> (#[trigger] g.parameters[i]).name == sig.params[i]
                    && g.parameters[i].value is None && g.parameters[i].default_value is None
            &&& t.outputs matches Some(o) && if d.output_kind == IoKind::Parameter {
                o.parameters.len() == 1 && o.parameters[0].name == "return"@ && (
                o.parameters[0].value_from matches Some(v) && v.path == "/athena/result"@)
            } else {
                o.parameters.len() == 0 && o.artifacts.len() > 0 && o.artifacts.last().name
                    == "return"@ && o.artifacts.last().path == "/athena/result-artifact"@
            }
        },
        t.inputs matches Some(g) && g.artifacts.len() > 0 && g.artifacts[0].path == "/athena/bin"@ && (
        g.artifacts[0].s3 matches Some(s) && s.key == ctx.artifact_key),
{
}

/// The arguments of a function by what becomes of them: an artifact is read from a
/// file; what Argo fills in is on the command line as it is written; any other is a
/// parameter, and on the command line by its reference.
pub proof fn law_arguments_reach_the_command_line(args: Seq<FnArgView>, i: int)
    requires
        0 <= i < args.len(),
    ensures
        ({
            let s = signature_of(args);
            let x = args[i];
            &&& s.inputs.len() == args.len() && s.inputs[i] == x.name
            &&& s.input_types.len() == args.len() && s.input_types[i] == x.ty
            &&& s.input_kinds.len() == args.len() && (s.input_kinds[i] == IoKind::Artifact
                <==> x.artifact)
            &&& x.artifact ==> s.artifacts.contains(x.name)
            &&& !x.artifact && x.inject is None ==> s.params.contains(x.name) && s.argv.contains(
                "{{inputs.parameters."@ + x.name + "}}"@,
            )
            &&& !x.artifact && x.inject is Some ==> s.argv.contains(x.inject->0)
        }),
    decreases args.len(),
{
    law_signature_counts(args);
    let f = args.drop_last();
    law_signature_counts(f);
    let s = signature_of(args);
    let s0 = signature_of(f);
    lemma_types_len(args);
    lemma_types_len(f);
    let x = args[i];
    if i < f.len() {
        law_arguments_reach_the_command_line(f, i);
        assert(f[i] == x);
        assert(s.inputs[i] == s0.inputs[i] && s.input_types[i] == s0.input_types[i]);
        assert(s.input_kinds[i] == s0.input_kinds[i]);
        lemma_kept(s0.artifacts, s.artifacts, x.name);
        lemma_kept(s0.params, s.params, x.name);
        lemma_kept(s0.argv, s.argv, "{{inputs.parameters."@ + x.name + "}}"@);
        if x.inject is Some {
            lemma_kept(s0.argv, s.argv, x.inject->0);
        }
    } else {
        if x.artifact {
            assert(s.artifacts[s.artifacts.len() - 1] == x.name);
        } else {
            assert(s.argv[s.argv.len() - 1] == (match x.inject {
                Some(e) => e,
                None => "{{inputs.parameters."@ + x.name + "}}"@,
            }));
            if x.inject is None {
                assert(s.params[s.params.len() - 1] == x.name);
            }
        }
    }
}

proof fn lemma_types_len(args: Seq<FnArgView>)
    ensures
        signature_of(args).input_types.len() == args.len(),
    decreases args.len(),
{
    if args.len() > 0 {
        lemma_types_len(args.drop_last());
    }
}

proof fn lemma_kept(a: Seq<Seq<char>>, b: Seq<Seq<char>>, x: Seq<char>)
    requires
        a == b || (b.len() == a.len() + 1 && b.drop_last() =~= a),
    ensures
        a.contains(x) ==> b.contains(x),
{
    if a.contains(x) && a != b {
        let i = choose|i: int| 0 <= i < a.len() && a[i] == x;
        assert(b.drop_last()[i] == b[i]);
    }
}

/// Every chosen mount is there: the host path as a volume, mounted where it is
/// asked for, and for reading only where that is asked for.
pub proof fn law_chosen_mounts_are_made(
    ctx: BuildCtxView,
    d: ContainerDeclView,
    i: int,
)
    requires
        container_template_of(ctx, d) is Ok,
        0 <= i < d.host_mounts.len(),
    ensures
        ({
            let t = container_template_of(ctx, d)->Ok_0;
            let (path, at, read_only) = d.host_mounts[i];
            exists|k: int, m: int|
                {
                    &&& 0 <= k < t.volumes.len()
                    &&& 0 <= m < t.container->0.volume_mounts.len()
                    &&& (#[trigger] t.volumes[k]).host_path matches Some(h) && h.path == path
                    &&& (#[trigger] t.container->0.volume_mounts[m]).name == t.volumes[k].name
                    &&& t.container->0.volume_mounts[m].mount_path == at
                    &&& t.container->0.volume_mounts[m].read_only == read_only
                }
        }),
{
    let t = container_template_of(ctx, d)->Ok_0;
    let paths = resolved_of(
        ctx.fragments,
        d.scan.host_paths,
        d.scan.callees,
        Declares::HostPaths,
    );
    let ms = d.host_mounts;
    let k = volumes_of(paths, ms).len() - ms.len() + i;
    let m = mounts_of(paths, ms).len() - ms.len() + i;
    assert(t.volumes[k] == chosen_volumes(ms)[i]);
    assert(t.container->0.volume_mounts[m] == chosen_mounts(ms)[i]);
}

/// Every secret of a container is in its environment, taken from the key of the
/// secret that is named, and may be missing only where that is allowed.
pub proof fn law_secrets_are_taken_from_their_keys(
    ctx: BuildCtxView,
    d: ContainerDeclView,
    i: int,
)
    requires
        container_template_of(ctx, d) is Ok,
        0 <= i < secrets_of(ctx.fragments, d.scan.secrets, d.scan.callees).len(),
    ensures
        ({
            let t = container_template_of(ctx, d)->Ok_0;
            let (name, key, optional) = secrets_of(ctx.fragments, d.scan.secrets, d.scan.callees)[i];
            exists|k: int|
                {
                    &&& 0 <= k < t.container->0.env.len()
                    &&& (#[trigger] t.container->0.env[k]).value.len() == 0
                    &&& t.container->0.env[k].value_from matches Some(v) && (
                    v.secret_key_ref matches Some(r) && r.name == name && r.key == key && r.optional
                        == optional)
                }
        }),
{
    let t = container_template_of(ctx, d)->Ok_0;
    let all = secrets_of(ctx.fragments, d.scan.secrets, d.scan.callees);
    let k = 1 + d.texts.env.len() + i;
    assert(t.container->0.env[k] == crate::container::secret_var(all[i]));
}

/// The machine that a target is for: what stands before its first dash.
pub open spec fn machine_of(t: Seq<char>) -> Seq<char> {
    t.take(lead(t, not_char('-')) as int)
}

/// How the script tells the machine of a target; 64-bit ARM goes by two names.
pub open spec fn machine_case(t: Seq<char>) -> Seq<char> {
    (if machine_of(t) == "aarch64"@ {
        "  aarch64|arm64"@
    } else {
        "  "@ + machine_of(t)
    }) + ") __t="@ + t + " ;;\n"@
}

/// The script of a container has a case for each target of the build, which its
/// machine picks.
pub proof fn law_every_target_has_a_case(targets: Seq<Seq<char>>, i: int)
    requires
        0 <= i < targets.len(),
    ensures
        occurs(arms_for(targets), machine_case(targets[i])),
    decreases targets.len(),
{
    let all = arms_for(targets);
    let f = targets.drop_last();
    let p = machine_case(targets[i]);
    if i < f.len() {
        law_every_target_has_a_case(f, i);
        assert(f[i] == targets[i]);
        let at = choose|at: int| stands_at(arms_for(f), p, at);
        assert(all.subrange(at, at + p.len()) =~= arms_for(f).subrange(at, at + p.len()));
        assert(stands_at(all, p, at));
    } else {
        let t = targets[i];
        lemma_lead_bounds(t, not_char('-'));
        assert(t.subrange(0, lead(t, not_char('-')) as int) =~= machine_of(t));
        if lead(t, not_char('-')) == t.len() {
            assert(machine_of(t) =~= t);
        }
        assert("  aarch64|arm64"@ =~= "  "@ + "aarch64|arm64"@) by {
            reveal_strlit("  aarch64|arm64");
            reveal_strlit("  ");
            reveal_strlit("aarch64|arm64");
        }
        let x = arm_for(t);
        assert(x =~= p);
        let at = all.len() - p.len();
        assert(all.subrange(at, at + p.len()) =~= p);
        assert(stands_at(all, p, at));
    }
}

/// Whether an artifact is stored in the configured repository under this key, with
/// the credentials of the configuration.
pub open spec fn stored_at(a: ArtifactView, s3: S3RepoView, key: Seq<char>) -> bool {
    a.s3 matches Some(x) && {
        &&& x.endpoint == s3.endpoint && x.bucket == s3.bucket && x.region == s3.region
            && x.insecure == s3.insecure
        &&& x.key == key
        &&& x.access_key_secret matches Some(k) && k.name == s3.access_key_secret.name && k.key
            == s3.access_key_secret.key && !k.optional
        &&& x.secret_key_secret matches Some(k) && k.name == s3.secret_key_secret.name && k.key
            == s3.secret_key_secret.key && !k.optional
    }
}

/// The binary of a container is at the key of its build; what its body loads and
/// saves is stored as it is, under the key that the body names.
pub proof fn law_artifacts_are_stored_where_configured(
    ctx: BuildCtxView,
    d: ContainerDeclView,
    i: int,
)
    requires
        container_template_of(ctx, d) is Ok,
    ensures
        ({
            let t = container_template_of(ctx, d)->Ok_0;
            let s3 = ctx.config.artifact_repository.s3;
            let loads = resolved_of(
                ctx.fragments,
                d.scan.in_artifacts,
                d.scan.callees,
                Declares::InArtifacts,
            );
            let saves = resolved_of(
                ctx.fragments,
                d.scan.out_artifacts,
                d.scan.callees,
                Declares::OutArtifacts,
            );
            &&& t.inputs matches Some(g) && {
                &&& stored_at(g.artifacts[0], s3, ctx.artifact_key)
                &&& g.artifacts.len() == 1 + loads.len() + d.signature.artifacts.len()
                &&& 0 <= i < loads.len() ==> stored_at(g.artifacts[i + 1], s3, loads[i]) && (
                g.artifacts[i + 1].archive matches Some(x) && x.none is Some)
                &&& 0 <= i < d.signature.artifacts.len() ==> {
                    let x = g.artifacts[1 + loads.len() + i];
                    x.name == d.signature.artifacts[i] && x.path == "/athena/in/"@
                        + d.signature.artifacts[i]
                }
            }
            &&& t.outputs matches Some(o) && {
                &&& o.artifacts.len() >= saves.len()
                &&& 0 <= i < saves.len() ==> stored_at(o.artifacts[i], s3, saves[i]) && (
                o.artifacts[i].archive matches Some(x) && x.none is Some)
            }
        }),
{
    reveal_strlit("/athena/in");
    reveal_strlit("/athena/in/");
    reveal_strlit("/");
    let t = container_template_of(ctx, d)->Ok_0;
    let loads = resolved_of(
        ctx.fragments,
        d.scan.in_artifacts,
        d.scan.callees,
        Declares::InArtifacts,
    );
    let saves = resolved_of(
        ctx.fragments,
        d.scan.out_artifacts,
        d.scan.callees,
        Declares::OutArtifacts,
    );
    let s3 = ctx.config.artifact_repository.s3;
    let g = t.inputs->0;
    let o = t.outputs->0;
    if 0 <= i < loads.len() {
        assert(g.artifacts[i + 1] == crate::delivery::inputs_at(s3, loads)[i]);
    }
    if 0 <= i < saves.len() {
        assert(o.artifacts[i] == crate::delivery::outputs_at(s3, saves)[i]);
    }
    if 0 <= i < d.signature.artifacts.len() {
        let n = d.signature.artifacts[i];
        assert(g.artifacts[1 + loads.len() + i] == crate::container::arg_artifact(n));
        assert("/athena/in"@ + "/"@ + n =~= "/athena/in/"@ + n);
    }
}

/// The arguments of a function are its parameters, in order, each with its name, its
/// type and what Argo fills in for it; a type whose last segment is `Artifact` with
/// arguments goes through the artifact store.
pub proof fn law_arguments_of_a_function(params: Seq<FnParam>, i: int)
    requires
        0 <= i < params.len(),
        forall|j: int|
            0 <= j < params.len() ==> (#[trigger] params[j] matches FnParam::Typed {
                name: Some(_),
                ty: _,
                inject: _,
            }),
    ensures
        args_of(params).len() == params.len(),
        params[i] matches FnParam::Typed { name: Some(n), ty, inject } && {
            let a = args_of(params)[i];
            &&& a.name == n@
            &&& a.ty == ty.text@
            &&& a.inject == inject.deep_view()
            &&& a.artifact <==> (ty.leaf matches Some((l, args)) && l@ == "Artifact"@ && args)
        },
    decreases params.len(),
{
    let f = params.drop_last();
    assert forall|j: int| 0 <= j < f.len() implies (#[trigger] f[j] matches FnParam::Typed {
        name: Some(_),
        ty: _,
        inject: _,
    }) by {
        assert(f[j] == params[j]);
    }
    if f.len() > 0 {
        law_arguments_of_a_function(f, 0);
    } else {
        assert(args_of(f).len() == 0);
    }
    assert(params[params.len() - 1] == params.last());
    if i < f.len() {
        law_arguments_of_a_function(f, i);
        assert(f[i] == params[i]);
    }
}

/// A function that is generic, that has a receiver, or that binds a parameter by
/// anything but a name cannot be a template; one that is none of these has a shape
/// that can.
pub proof fn law_shapes_of_templates(f: FnDecl, kind: Seq<char>)
    ensures
        shape_problem(f, kind) is None <==> !f.generic && forall|j: int|
            0 <= j < f.params@.len() ==> (#[trigger] f.params@[j] matches FnParam::Typed {
                name: Some(_),
                ty: _,
                inject: _,
            }),
{
    lemma_params(f.params@, kind);
}

proof fn lemma_params(params: Seq<FnParam>, kind: Seq<char>)
    ensures
        first_param_problem(params, kind) is None <==> forall|j: int|
            0 <= j < params.len() ==> (#[trigger] params[j] matches FnParam::Typed {
                name: Some(_),
                ty: _,
                inject: _,
            }),
    decreases params.len(),
{
    if params.len() > 0 {
        let f = params.drop_last();
        lemma_params(f, kind);
        assert(params[params.len() - 1] == params.last());
        assert(forall|j: int| 0 <= j < f.len() ==> #[trigger] f[j] == params[j]);
        if first_param_problem(params, kind) is None {
            assert forall|j: int| 0 <= j < params.len() implies (
            #[trigger] params[j] matches FnParam::Typed { name: Some(_), ty: _, inject: _ }) by {
                if j < f.len() {
                    assert(f[j] == params[j]);
                }
            }
        }
    }
}

/// Of a duration text, whole seconds are kept: a part of a second, none at all, and
/// what is no duration are refused.
pub proof fn law_duration_texts(secs: u64, nanos: u32, s: Seq<char>, attr: Seq<char>)
    ensures
        match whole_seconds_of(Some((secs, nanos)), s, attr) {
            Ok(n) => n == secs && nanos == 0 && secs > 0,
            Err(_) => nanos != 0 || secs == 0,
        },
        whole_seconds_of(None, s, attr) is Err,
{
}

/// A strategy for the pods of a finished run is one of the four that Argo knows, as
/// it is written; a limit on what runs at once is positive, as it is written.
pub proof fn law_strategies_and_limits(s: Seq<char>, n: i64, attr: Seq<char>)
    ensures
        pod_gc_of(None) == Ok::<Option<Seq<char>>, Seq<char>>(None),
        pod_gc_of(Some(None)) is Err,
        s == "OnPodCompletion"@ || s == "OnPodSuccess"@ || s == "OnWorkflowCompletion"@ || s
            == "OnWorkflowSuccess"@ ==> pod_gc_of(Some(Some(s))) == Ok::<
            Option<Seq<char>>,
            Seq<char>,
        >(Some(s)),
        s != "OnPodCompletion"@ && s != "OnPodSuccess"@ && s != "OnWorkflowCompletion"@ && s
            != "OnWorkflowSuccess"@ ==> pod_gc_of(Some(Some(s))) is Err,
        n > 0 ==> parallelism_of(Some(n), attr) == Ok::<Option<i64>, Seq<char>>(Some(n)),
        n <= 0 ==> parallelism_of(Some(n), attr) is Err,
        parallelism_of(None, attr) == Ok::<Option<i64>, Seq<char>>(None),
{
}

/// One more argument adds one input of its name, its type and its way. An artifact
/// adds a file; what Argo fills in adds an element of the command line and no
/// parameter; any other adds a parameter and its reference. Nothing else changes.
pub proof fn law_one_more_argument(args: Seq<FnArgView>, a: FnArgView)
    ensures
        ({
            let s = signature_of(args);
            let t = signature_of(args.push(a));
            &&& t.inputs == s.inputs.push(a.name)
            &&& t.input_types == s.input_types.push(a.ty)
            &&& t.input_kinds == s.input_kinds.push(
                if a.artifact {
                    IoKind::Artifact
                } else {
                    IoKind::Parameter
                },
            )
            &&& if a.artifact {
                t.artifacts == s.artifacts.push(a.name) && t.argv == s.argv && t.params == s.params
            } else if a.inject is Some {
                t.artifacts == s.artifacts && t.argv == s.argv.push(a.inject->0) && t.params
                    == s.params
            } else {
                t.artifacts == s.artifacts && t.argv == s.argv.push(
                    "{{inputs.parameters."@ + a.name + "}}"@,
                ) && t.params == s.params.push(a.name)
            }
        }),
{
    assert(args.push(a).drop_last() =~= args);
}

/// Every host path that a container declares, and that no chosen mount names, is a
/// volume of the pod and mounted under the name of that volume where the body looks
/// for it. The scratch directory is always there.
pub proof fn law_host_paths_are_mounted(ctx: BuildCtxView, d: ContainerDeclView, p: Seq<char>)
    requires
        container_template_of(ctx, d) is Ok,
        resolved_of(
            ctx.fragments,
            d.scan.host_paths,
            d.scan.callees,
            Declares::HostPaths,
        ).contains(p),
        forall|i: int| 0 <= i < d.host_mounts.len() ==> (#[trigger] d.host_mounts[i]).0 != p,
    ensures
        ({
            let t = container_template_of(ctx, d)->Ok_0;
            let ms = t.container->0.volume_mounts;
            &&& exists|k: int, m: int|
                {
                    &&& 0 <= k < t.volumes.len() && 0 <= m < ms.len()
                    &&& (#[trigger] t.volumes[k]).host_path matches Some(h) && h.path == p
                    &&& (#[trigger] ms[m]).name == t.volumes[k].name
                    &&& ms[m].mount_path == crate::munge::host_mount(p) && !ms[m].read_only
                }
            &&& ms.len() > 0 && ms[0].mount_path == "/athena"@ && t.volumes.len() > 0
                && t.volumes[0].name == ms[0].name && t.volumes[0].empty_dir is Some
        }),
{
    let t = container_template_of(ctx, d)->Ok_0;
    let paths = resolved_of(
        ctx.fragments,
        d.scan.host_paths,
        d.scan.callees,
        Declares::HostPaths,
    );
    let f = crate::delivery::not_mounted(d.host_mounts);
    let kept = paths.filter(f);
    assert(f(p));
    paths.lemma_filter_contains(f, paths.index_of(p));
    let i = choose|i: int| 0 <= i < kept.len() && kept[i] == p;
    assert(t.volumes[i + 1] == crate::delivery::host_volume_view(p));
    assert(t.container->0.volume_mounts[i + 1] == crate::delivery::mount_view(
        p,
        crate::munge::host_mount(p),
        false,
    ));
}

} // verus!
