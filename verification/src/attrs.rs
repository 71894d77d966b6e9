//! Attribute values: retries, durations, limits, tolerations, mutexes, and text
//! into which arguments are injected.

use crate::api::{
    Backoff, BackoffView, Mutex, MutexView, RetryStrategy, RetryStrategyView, Synchronization,
    SynchronizationView, Toleration, TolerationView, TtlStrategy, TtlStrategyView,
};
use crate::ast::{chain_of, field_chain, BinOp, Chain, Expr, Lit, Path};
use crate::conditional::{accessor_text, accessors};
use crate::durations::{duration_summable, is_summable};
use crate::folds::{lemma_map_res_all, lemma_map_res_step, map_res};
use crate::node::agrees;
use crate::outside::{debug_str, debug_text, human_duration, parse_human_duration};
use crate::text::{
    all_digits, cat2, cat3, cat5, contains, dec, dec_value, decimal, has_str, occurs, parse_u64,
    str_eq,
};
use vstd::prelude::*;

verus! {

// ---- groups of fields ----------------------------------------------------------
pub const EXPECTED_STR: &'static str = "expected string literal";

pub open spec fn str_value(e: Expr) -> Result<Seq<char>, Seq<char>> {
    match e {
        Expr::Lit(Lit::Str(s)) => Ok(s@),
        _ => Err(EXPECTED_STR@),
    }
}

fn str_of(e: &Expr) -> (r: Result<String, String>)
    ensures
        agrees(r, str_value(*e)),
{
    match e {
        Expr::Lit(Lit::Str(s)) => Ok(s.clone()),
        _ => Err(EXPECTED_STR.to_owned()),
    }
}

/// `retry(limit = N | unlimited, policy = "…", backoff = <duration>)`.
pub struct RetryArgs<'a> {
    pub limit: Option<&'a Expr>,
    pub policy: Option<String>,
    pub backoff: Option<&'a Expr>,
}

#[verifier::ext_equal]
pub struct RetryArgsView {
    pub limit: Option<Expr>,
    pub policy: Option<Seq<char>>,
    pub backoff: Option<Expr>,
}

pub open spec fn opt_expr(o: Option<&Expr>) -> Option<Expr> {
    match o {
        Some(e) => Some(*e),
        None => None,
    }
}

impl<'a> DeepView for RetryArgs<'a> {
    type V = RetryArgsView;

    open spec fn deep_view(&self) -> RetryArgsView {
        RetryArgsView {
            limit: opt_expr(self.limit),
            policy: self.policy.deep_view(),
            backoff: opt_expr(self.backoff),
        }
    }
}

/// The fields of `retry(…)`; of a field that is given twice, the last counts.
pub open spec fn retry_fields(fields: Seq<(String, Expr)>) -> Result<RetryArgsView, Seq<char>>
    decreases fields.len(),
{
    if fields.len() == 0 {
        Ok(RetryArgsView { limit: None, policy: None, backoff: None })
    } else {
        let (key, e) = fields.last();
        match retry_fields(fields.drop_last()) {
            Err(m) => Err(m),
            Ok(r) => if key@ == "limit"@ {
                Ok(RetryArgsView { limit: Some(e), ..r })
            } else if key@ == "policy"@ {
                match str_value(e) {
                    Ok(s) => Ok(RetryArgsView { policy: Some(s), ..r }),
                    Err(m) => Err(m),
                }
            } else if key@ == "backoff"@ {
                Ok(RetryArgsView { backoff: Some(e), ..r })
            } else {
                Err(
                    "unknown `retry(...)` field `"@ + key@
                        + "` (expected limit, policy, backoff)"@,
                )
            },
        }
    }
}

proof fn lemma_retry_err(fields: Seq<(String, Expr)>, n: int)
    requires
        0 <= n <= fields.len(),
        retry_fields(fields.take(n)) is Err,
    ensures
        retry_fields(fields) == retry_fields(fields.take(n)),
    decreases fields.len(),
{
    if n < fields.len() {
        assert(fields.drop_last().take(n) =~= fields.take(n));
        lemma_retry_err(fields.drop_last(), n);
    } else {
        assert(fields.take(n) =~= fields);
    }
}

/// Reads the fields of `retry(…)`.
pub fn parse_retry_fields<'a>(fields: &'a Vec<(String, Expr)>) -> (r: Result<RetryArgs<'a>, String>)
    ensures
        agrees(r, retry_fields(fields@)),
{
    let mut out: RetryArgs = RetryArgs { limit: None, policy: None, backoff: None };
    let mut i: usize = 0;
    proof {
        assert(fields@.take(0) =~= Seq::<(String, Expr)>::empty());
    }
    while i < fields.len()
        invariant
            i <= fields@.len(),
            retry_fields(fields@.take(i as int)) == Ok::<RetryArgsView, Seq<char>>(
                out.deep_view(),
            ),
        decreases fields@.len() - i,
    {
        let key: &str = fields[i].0.as_str();
        let e: &Expr = &fields[i].1;
        proof {
            assert(fields@.take(i + 1).drop_last() =~= fields@.take(i as int));
            assert(fields@.take(i + 1).last() == fields@[i as int]);
            if retry_fields(fields@.take(i + 1)) is Err {
                lemma_retry_err(fields@, i + 1);
            }
        }
        if str_eq(key, "limit") {
            out.limit = Some(e);
        } else if str_eq(key, "policy") {
            match str_of(e) {
                Ok(s) => {
                    out.policy = Some(s);
                },
                Err(m) => {
                    return Err(m);
                },
            }
        } else if str_eq(key, "backoff") {
            out.backoff = Some(e);
        } else {
            return Err(
                cat3(
                    "unknown `retry(...)` field `",
                    key,
                    "` (expected limit, policy, backoff)",
                ),
            );
        }
        i = i + 1;
    }
    proof {
        assert(fields@.take(i as int) =~= fields@);
    }
    Ok(out)
}

/// `ttl_if_root(after_completion = …, after_success = …, after_failure = …)`.
pub struct TtlArgs<'a> {
    pub after_completion: Option<&'a Expr>,
    pub after_success: Option<&'a Expr>,
    pub after_failure: Option<&'a Expr>,
}

#[verifier::ext_equal]
pub struct TtlArgsView {
    pub after_completion: Option<Expr>,
    pub after_success: Option<Expr>,
    pub after_failure: Option<Expr>,
}

impl<'a> DeepView for TtlArgs<'a> {
    type V = TtlArgsView;

    open spec fn deep_view(&self) -> TtlArgsView {
        TtlArgsView {
            after_completion: opt_expr(self.after_completion),
            after_success: opt_expr(self.after_success),
            after_failure: opt_expr(self.after_failure),
        }
    }
}

pub open spec fn ttl_fields(fields: Seq<(String, Expr)>) -> Result<TtlArgsView, Seq<char>>
    decreases fields.len(),
{
    if fields.len() == 0 {
        Ok(TtlArgsView { after_completion: None, after_success: None, after_failure: None })
    } else {
        let (key, e) = fields.last();
        match ttl_fields(fields.drop_last()) {
            Err(m) => Err(m),
            Ok(r) => if key@ == "after_completion"@ {
                Ok(TtlArgsView { after_completion: Some(e), ..r })
            } else if key@ == "after_success"@ {
                Ok(TtlArgsView { after_success: Some(e), ..r })
            } else if key@ == "after_failure"@ {
                Ok(TtlArgsView { after_failure: Some(e), ..r })
            } else {
                Err(
                    "unknown `ttl_if_root(...)` field `"@ + key@
                        + "` (expected after_completion, after_success, after_failure)"@,
                )
            },
        }
    }
}

proof fn lemma_ttl_err(fields: Seq<(String, Expr)>, n: int)
    requires
        0 <= n <= fields.len(),
        ttl_fields(fields.take(n)) is Err,
    ensures
        ttl_fields(fields) == ttl_fields(fields.take(n)),
    decreases fields.len(),
{
    if n < fields.len() {
        assert(fields.drop_last().take(n) =~= fields.take(n));
        lemma_ttl_err(fields.drop_last(), n);
    } else {
        assert(fields.take(n) =~= fields);
    }
}

/// Reads the fields of `ttl_if_root(…)`.
pub fn parse_ttl_fields<'a>(fields: &'a Vec<(String, Expr)>) -> (r: Result<TtlArgs<'a>, String>)
    ensures
        agrees(r, ttl_fields(fields@)),
{
    let mut out: TtlArgs = TtlArgs {
        after_completion: None,
        after_success: None,
        after_failure: None,
    };
    let mut i: usize = 0;
    proof {
        assert(fields@.take(0) =~= Seq::<(String, Expr)>::empty());
    }
    while i < fields.len()
        invariant
            i <= fields@.len(),
            ttl_fields(fields@.take(i as int)) == Ok::<TtlArgsView, Seq<char>>(out.deep_view()),
        decreases fields@.len() - i,
    {
        let key: &str = fields[i].0.as_str();
        let e: &Expr = &fields[i].1;
        proof {
            assert(fields@.take(i + 1).drop_last() =~= fields@.take(i as int));
            assert(fields@.take(i + 1).last() == fields@[i as int]);
            if ttl_fields(fields@.take(i + 1)) is Err {
                lemma_ttl_err(fields@, i + 1);
            }
        }
        if str_eq(key, "after_completion") {
            out.after_completion = Some(e);
        } else if str_eq(key, "after_success") {
            out.after_success = Some(e);
        } else if str_eq(key, "after_failure") {
            out.after_failure = Some(e);
        } else {
            return Err(
                cat3(
                    "unknown `ttl_if_root(...)` field `",
                    key,
                    "` (expected after_completion, after_success, after_failure)",
                ),
            );
        }
        i = i + 1;
    }
    proof {
        assert(fields@.take(i as int) =~= fields@);
    }
    Ok(out)
}

/// The strategy of `pod_gc_if_root(strategy = "…")`, where one is given.
pub open spec fn pod_gc_fields(fields: Seq<(String, Expr)>) -> Result<Option<Seq<char>>, Seq<char>>
    decreases fields.len(),
{
    if fields.len() == 0 {
        Ok(None)
    } else {
        let (key, e) = fields.last();
        match pod_gc_fields(fields.drop_last()) {
            Err(m) => Err(m),
            Ok(_) => if key@ == "strategy"@ {
                match str_value(e) {
                    Ok(s) => Ok(Some(s)),
                    Err(m) => Err(m),
                }
            } else {
                Err("unknown `pod_gc_if_root(...)` field `"@ + key@ + "` (expected strategy)"@)
            },
        }
    }
}

proof fn lemma_pod_gc_err(fields: Seq<(String, Expr)>, n: int)
    requires
        0 <= n <= fields.len(),
        pod_gc_fields(fields.take(n)) is Err,
    ensures
        pod_gc_fields(fields) == pod_gc_fields(fields.take(n)),
    decreases fields.len(),
{
    if n < fields.len() {
        assert(fields.drop_last().take(n) =~= fields.take(n));
        lemma_pod_gc_err(fields.drop_last(), n);
    } else {
        assert(fields.take(n) =~= fields);
    }
}

/// Reads the fields of `pod_gc_if_root(…)`: its strategy.
pub fn parse_pod_gc_fields(fields: &Vec<(String, Expr)>) -> (r: Result<Option<String>, String>)
    ensures
        agrees(r, pod_gc_fields(fields@)),
{
    let mut out: Option<String> = None;
    let mut i: usize = 0;
    proof {
        assert(fields@.take(0) =~= Seq::<(String, Expr)>::empty());
    }
    while i < fields.len()
        invariant
            i <= fields@.len(),
            pod_gc_fields(fields@.take(i as int)) == Ok::<Option<Seq<char>>, Seq<char>>(
                out.deep_view(),
            ),
        decreases fields@.len() - i,
    {
        let key: &str = fields[i].0.as_str();
        let e: &Expr = &fields[i].1;
        proof {
            assert(fields@.take(i + 1).drop_last() =~= fields@.take(i as int));
            assert(fields@.take(i + 1).last() == fields@[i as int]);
            if pod_gc_fields(fields@.take(i + 1)) is Err {
                lemma_pod_gc_err(fields@, i + 1);
            }
        }
        if str_eq(key, "strategy") {
            match str_of(e) {
                Ok(s) => {
                    out = Some(s);
                },
                Err(m) => {
                    return Err(m);
                },
            }
        } else {
            return Err(
                cat3("unknown `pod_gc_if_root(...)` field `", key, "` (expected strategy)"),
            );
        }
        i = i + 1;
    }
    proof {
        assert(fields@.take(i as int) =~= fields@);
    }
    Ok(out)
}

// ---- durations -----------------------------------------------------------------
pub open spec fn bad_duration(attr: Seq<char>) -> Seq<char> {
    "`"@ + attr
        + "`: expected a positive integer (seconds) or a duration string like \"1h30m\" / \"2d\" (humantime)"@
}

fn bad_duration_msg(attr: &str) -> (r: String)
    ensures
        r@ == bad_duration(attr@),
{
    cat3(
        "`",
        attr,
        "`: expected a positive integer (seconds) or a duration string like \"1h30m\" / \"2d\" (humantime)",
    )
}

/// The whole seconds of a duration text that was read as `parsed`. A part of a
/// second is refused: it would be lost.
pub open spec fn whole_seconds_of(
    parsed: Option<(u64, u32)>,
    s: Seq<char>,
    attr: Seq<char>,
) -> Result<u64, Seq<char>> {
    match parsed {
        None => Err(bad_duration(attr)),
        Some((secs, nanos)) => if nanos != 0 {
            Err(
                "`"@ + attr
                    + "`: sub-second durations are not supported (Argo counts whole seconds, so "@
                    + debug_text(s)
                    + " cannot be represented exactly) - use whole seconds"@,
            )
        } else if secs == 0 {
            Err(bad_duration(attr))
        } else {
            Ok(secs)
        },
    }
}

pub open spec fn num_agrees(r: Result<u64, String>, s: Result<u64, Seq<char>>) -> bool {
    match (r, s) {
        (Ok(a), Ok(b)) => a == b,
        (Err(m), Err(n)) => m@ == n,
        _ => false,
    }
}

/// The whole seconds of the duration text `s` that was read as `parsed`: seconds
/// and nanoseconds, or nothing.
pub fn whole_seconds(parsed: Option<(u64, u32)>, s: &str, attr: &str) -> (r: Result<u64, String>)
    ensures
        num_agrees(r, whole_seconds_of(parsed, s@, attr@)),
{
    match parsed {
        None => Err(bad_duration_msg(attr)),
        Some((secs, nanos)) => {
            if nanos != 0 {
                let d: String = debug_str(s);
                return Err(
                    cat5(
                        "`",
                        attr,
                        "`: sub-second durations are not supported (Argo counts whole seconds, so ",
                        d.as_str(),
                        " cannot be represented exactly) - use whole seconds",
                    ),
                );
            }
            if secs == 0 {
                Err(bad_duration_msg(attr))
            } else {
                Ok(secs)
            }
        },
    }
}

/// The whole seconds that a duration attribute writes: an integer counts
/// seconds, a string is a duration text.
pub open spec fn duration_of(e: Expr, attr: Seq<char>) -> Result<u64, Seq<char>> {
    match e {
        Expr::Lit(Lit::Int(d)) => if all_digits(d@) && 0 < dec_value(d@) <= u64::MAX {
            Ok(dec_value(d@) as u64)
        } else {
            Err(bad_duration(attr))
        },
        Expr::Lit(Lit::Str(s)) => if duration_summable(s@) {
            whole_seconds_of(human_duration(s@), s@, attr)
        } else {
            Err(bad_duration(attr))
        },
        _ => Err("`"@ + attr + "`: expected an integer or a duration string"@),
    }
}

/// Reads a duration attribute: an integer of seconds, or a text such as `"90s"`,
/// `"1h30m"`, `"2d"`. The result is positive and whole. A text is refused too where
/// one of the sums it asks for is exactly 2^64 seconds.
pub fn parse_duration_secs(e: &Expr, attr: &str) -> (r: Result<u64, String>)
    ensures
        num_agrees(r, duration_of(*e, attr@)),
{
    match e {
        Expr::Lit(Lit::Int(d)) => match parse_u64(d.as_str()) {
            Some(n) => if n == 0 {
                Err(bad_duration_msg(attr))
            } else {
                Ok(n)
            },
            None => Err(bad_duration_msg(attr)),
        },
        Expr::Lit(Lit::Str(s)) => {
            if is_summable(s.as_str()) {
                let parsed: Option<(u64, u32)> = parse_human_duration(s.as_str());
                whole_seconds(parsed, s.as_str(), attr)
            } else {
                Err(bad_duration_msg(attr))
            }
        },
        _ => Err(cat3("`", attr, "`: expected an integer or a duration string")),
    }
}

/// Whole seconds that fit in 32 bits.
pub open spec fn secs_i32_of(e: Option<Expr>, attr: Seq<char>) -> Result<Option<i32>, Seq<char>> {
    match e {
        None => Ok(None),
        Some(x) => match duration_of(x, attr) {
            Err(m) => Err(m),
            Ok(s) => if s <= i32::MAX {
                Ok(Some(s as i32))
            } else {
                Err("`"@ + attr + "`: duration is too large (max ~68 years)"@)
            },
        },
    }
}

/// Whole seconds that fit in 64 bits with a sign.
pub open spec fn secs_i64_of(e: Option<Expr>, attr: Seq<char>) -> Result<Option<i64>, Seq<char>> {
    match e {
        None => Ok(None),
        Some(x) => match duration_of(x, attr) {
            Err(m) => Err(m),
            Ok(s) => if s <= i64::MAX {
                Ok(Some(s as i64))
            } else {
                Err("`"@ + attr + "`: duration is too large"@)
            },
        },
    }
}

/// An optional duration in whole seconds, in 32 bits.
pub fn secs_i32(e: Option<&Expr>, attr: &str) -> (r: Result<Option<i32>, String>)
    ensures
        match (r, secs_i32_of(opt_expr(e), attr@)) {
            (Ok(a), Ok(b)) => a == b,
            (Err(m), Err(n)) => m@ == n,
            _ => false,
        },
{
    match e {
        None => Ok(None),
        Some(x) => match parse_duration_secs(x, attr) {
            Err(m) => Err(m),
            Ok(s) => if s <= 0x7fff_ffff {
                Ok(Some(s as i32))
            } else {
                Err(cat3("`", attr, "`: duration is too large (max ~68 years)"))
            },
        },
    }
}

/// An optional duration in whole seconds, in 64 bits.
pub fn secs_i64(e: Option<&Expr>, attr: &str) -> (r: Result<Option<i64>, String>)
    ensures
        match (r, secs_i64_of(opt_expr(e), attr@)) {
            (Ok(a), Ok(b)) => a == b,
            (Err(m), Err(n)) => m@ == n,
            _ => false,
        },
{
    match e {
        None => Ok(None),
        Some(x) => match parse_duration_secs(x, attr) {
            Err(m) => Err(m),
            Ok(s) => if s <= 0x7fff_ffff_ffff_ffff {
                Ok(Some(s as i64))
            } else {
                Err(cat3("`", attr, "`: duration is too large"))
            },
        },
    }
}

/// A limit on parallelism: positive, where it is given.
pub open spec fn parallelism_of(v: Option<i64>, attr: Seq<char>) -> Result<Option<i64>, Seq<char>> {
    match v {
        Some(n) => if n > 0 {
            Ok(Some(n))
        } else {
            Err(
                "`"@ + attr
                    + "` must be > 0 (Argo's CRD enforces Minimum=1; omit the attr to leave the field unset)"@,
            )
        },
        None => Ok(None),
    }
}

/// Checks a limit on parallelism.
pub fn parallelism(v: Option<i64>, attr: &str) -> (r: Result<Option<i64>, String>)
    ensures
        match (r, parallelism_of(v, attr@)) {
            (Ok(a), Ok(b)) => a == b,
            (Err(m), Err(n)) => m@ == n,
            _ => false,
        },
{
    match v {
        Some(n) => if n > 0 {
            Ok(Some(n))
        } else {
            Err(
                cat3(
                    "`",
                    attr,
                    "` must be > 0 (Argo's CRD enforces Minimum=1; omit the attr to leave the field unset)",
                ),
            )
        },
        None => Ok(None),
    }
}

pub open spec fn seconds_text(s: u64) -> Seq<char> {
    dec(s as nat) + "s"@
}

fn seconds_string(s: u64) -> (r: String)
    ensures
        r@ == seconds_text(s),
{
    let d: String = decimal(s as u128);
    cat2(d.as_str(), "s")
}

/// The timeout of a template: `<n>s`, or nothing.
pub open spec fn timeout_of(e: Option<Expr>) -> Result<Seq<char>, Seq<char>> {
    match e {
        None => Ok(Seq::empty()),
        Some(x) => match duration_of(x, "timeout"@) {
            Ok(s) => Ok(seconds_text(s)),
            Err(m) => Err(m),
        },
    }
}

/// Reads the `timeout` attribute.
pub fn timeout(e: Option<&Expr>) -> (r: Result<String, String>)
    ensures
        agrees(r, timeout_of(opt_expr(e))),
{
    match e {
        None => Ok(String::new()),
        Some(x) => match parse_duration_secs(x, "timeout") {
            Ok(s) => Ok(seconds_string(s)),
            Err(m) => Err(m),
        },
    }
}

// ---- retries, deletion ------------------------------------------------------------
pub const RETRY_WITHOUT_LIMIT: &'static str = "`retry(...)` requires `limit = N` (or `limit = unlimited`)";

pub const RETRY_LIMIT: &'static str = "`limit` must be an integer or `unlimited`";

pub const NUMBER_TOO_LARGE: &'static str = "number too large to fit in target type";

pub open spec fn is_policy(p: Seq<char>) -> bool {
    p == "Always"@ || p == "OnFailure"@ || p == "OnError"@ || p == "OnTransientError"@
}

pub open spec fn limit_of(e: Option<Expr>) -> Result<Option<i32>, Seq<char>> {
    match e {
        None => Err(RETRY_WITHOUT_LIMIT@),
        Some(Expr::Lit(Lit::Int(d))) => if all_digits(d@) && dec_value(d@) <= i32::MAX {
            Ok(Some(dec_value(d@) as i32))
        } else {
            Err(NUMBER_TOO_LARGE@)
        },
        Some(Expr::Path(p)) => if p.deep_view().ident() == Some("unlimited"@) {
            Ok(None)
        } else {
            Err(RETRY_LIMIT@)
        },
        Some(_) => Err(RETRY_LIMIT@),
    }
}

fn read_limit(e: Option<&Expr>) -> (r: Result<Option<i32>, String>)
    ensures
        match (r, limit_of(opt_expr(e))) {
            (Ok(a), Ok(b)) => a == b,
            (Err(m), Err(n)) => m@ == n,
            _ => false,
        },
{
    match e {
        None => Err(RETRY_WITHOUT_LIMIT.to_owned()),
        Some(Expr::Lit(Lit::Int(d))) => match parse_u64(d.as_str()) {
            Some(n) => if n <= 0x7fff_ffff {
                Ok(Some(n as i32))
            } else {
                Err(NUMBER_TOO_LARGE.to_owned())
            },
            None => Err(NUMBER_TOO_LARGE.to_owned()),
        },
        Some(Expr::Path(p)) => if p.is_ident("unlimited") {
            Ok(None)
        } else {
            Err(RETRY_LIMIT.to_owned())
        },
        Some(_) => Err(RETRY_LIMIT.to_owned()),
    }
}

pub open spec fn policy_of(p: Option<Seq<char>>) -> Result<Seq<char>, Seq<char>> {
    match p {
        None => Ok(Seq::empty()),
        Some(s) => if is_policy(s) {
            Ok(s)
        } else {
            Err(
                "unknown retry policy `"@ + s
                    + "` (expected Always|OnFailure|OnError|OnTransientError)"@,
            )
        },
    }
}

fn read_policy(p: &Option<String>) -> (r: Result<String, String>)
    ensures
        agrees(r, policy_of(p.deep_view())),
{
    match p {
        None => Ok(String::new()),
        Some(s) => {
            let t: &str = s.as_str();
            if str_eq(t, "Always") || str_eq(t, "OnFailure") || str_eq(t, "OnError") || str_eq(
                t,
                "OnTransientError",
            ) {
                Ok(s.clone())
            } else {
                Err(
                    cat3(
                        "unknown retry policy `",
                        t,
                        "` (expected Always|OnFailure|OnError|OnTransientError)",
                    ),
                )
            }
        },
    }
}

pub open spec fn backoff_of(e: Option<Expr>) -> Result<Option<BackoffView>, Seq<char>> {
    match e {
        None => Ok(None),
        Some(x) => match duration_of(x, "retry(backoff)"@) {
            Ok(s) => Ok(
                Some(BackoffView { duration: seconds_text(s), ..BackoffView::empty() }),
            ),
            Err(m) => Err(m),
        },
    }
}

fn read_backoff(e: Option<&Expr>) -> (r: Result<Option<Backoff>, String>)
    ensures
        agrees(r, backoff_of(opt_expr(e))),
{
    match e {
        None => Ok(None),
        Some(x) => match parse_duration_secs(x, "retry(backoff)") {
            Ok(s) => Ok(
                Some(
                    Backoff {
                        duration: seconds_string(s),
                        factor: None,
                        max_duration: String::new(),
                    },
                ),
            ),
            Err(m) => Err(m),
        },
    }
}

/// The retry strategy of `retry(…)`.
pub open spec fn retry_of(r: Option<RetryArgsView>) -> Result<Option<RetryStrategyView>, Seq<char>> {
    match r {
        None => Ok(None),
        Some(a) => match limit_of(a.limit) {
            Err(m) => Err(m),
            Ok(limit) => match policy_of(a.policy) {
                Err(m) => Err(m),
                Ok(retry_policy) => match backoff_of(a.backoff) {
                    Err(m) => Err(m),
                    Ok(backoff) => Ok(Some(RetryStrategyView { limit, retry_policy, backoff })),
                },
            },
        },
    }
}

/// Lowers `retry(…)`: a limit is required (`unlimited` is none), the policy is one
/// of Argo's four, and the backoff is a duration.
pub fn retry_strategy(r: &Option<RetryArgs>) -> (out: Result<Option<RetryStrategy>, String>)
    ensures
        agrees(out, retry_of(r.deep_view())),
{
    match r {
        None => Ok(None),
        Some(a) => {
            let limit: Option<i32> = match read_limit(a.limit) {
                Ok(v) => v,
                Err(m) => {
                    return Err(m);
                },
            };
            let retry_policy: String = match read_policy(&a.policy) {
                Ok(v) => v,
                Err(m) => {
                    return Err(m);
                },
            };
            match read_backoff(a.backoff) {
                Ok(backoff) => Ok(Some(RetryStrategy { limit, retry_policy, backoff })),
                Err(m) => Err(m),
            }
        },
    }
}

pub const TTL_EMPTY: &'static str = "`ttl_if_root(...)` needs at least one of \
after_completion/after_success/after_failure";

/// The deletion times of `ttl_if_root(…)`.
pub open spec fn ttl_of(t: Option<TtlArgsView>) -> Result<Option<TtlStrategyView>, Seq<char>> {
    match t {
        None => Ok(None),
        Some(a) => if a.after_completion is None && a.after_success is None && a.after_failure
            is None {
            Err(TTL_EMPTY@)
        } else {
            match secs_i32_of(a.after_completion, "ttl_if_root(after_completion)"@) {
                Err(m) => Err(m),
                Ok(c) => match secs_i32_of(a.after_success, "ttl_if_root(after_success)"@) {
                    Err(m) => Err(m),
                    Ok(s) => match secs_i32_of(a.after_failure, "ttl_if_root(after_failure)"@) {
                        Err(m) => Err(m),
                        Ok(f) => Ok(
                            Some(
                                TtlStrategyView {
                                    seconds_after_completion: c,
                                    seconds_after_success: s,
                                    seconds_after_failure: f,
                                },
                            ),
                        ),
                    },
                },
            }
        },
    }
}

/// Lowers `ttl_if_root(…)`; at least one time is required.
pub fn ttl_strategy(t: &Option<TtlArgs>) -> (r: Result<Option<TtlStrategy>, String>)
    ensures
        agrees(r, ttl_of(t.deep_view())),
{
    match t {
        None => Ok(None),
        Some(a) => {
            if a.after_completion.is_none() && a.after_success.is_none()
                && a.after_failure.is_none() {
                return Err(TTL_EMPTY.to_owned());
            }
            let c: Option<i32> = match secs_i32(
                a.after_completion,
                "ttl_if_root(after_completion)",
            ) {
                Ok(v) => v,
                Err(m) => {
                    return Err(m);
                },
            };
            let s: Option<i32> = match secs_i32(a.after_success, "ttl_if_root(after_success)") {
                Ok(v) => v,
                Err(m) => {
                    return Err(m);
                },
            };
            match secs_i32(a.after_failure, "ttl_if_root(after_failure)") {
                Ok(f) => {
                    let ttl: TtlStrategy = TtlStrategy {
                        seconds_after_completion: c,
                        seconds_after_success: s,
                        seconds_after_failure: f,
                    };
                    proof {
                        lemma_opt_i32(c);
                        lemma_opt_i32(s);
                        lemma_opt_i32(f);
                    }
                    Ok(Some(ttl))
                },
                Err(m) => Err(m),
            }
        },
    }
}

proof fn lemma_opt_i32(o: Option<i32>)
    ensures
        o.deep_view() == o,
{
}

pub const POD_GC_WITHOUT_STRATEGY: &'static str = "`pod_gc_if_root(...)` requires `strategy = \"...\"`";

pub open spec fn is_gc_strategy(s: Seq<char>) -> bool {
    s == "OnPodCompletion"@ || s == "OnPodSuccess"@ || s == "OnWorkflowCompletion"@ || s
        == "OnWorkflowSuccess"@
}

/// The strategy of `pod_gc_if_root(…)`, given the fields' strategy.
pub open spec fn pod_gc_of(g: Option<Option<Seq<char>>>) -> Result<Option<Seq<char>>, Seq<char>> {
    match g {
        None => Ok(None),
        Some(None) => Err(POD_GC_WITHOUT_STRATEGY@),
        Some(Some(s)) => if is_gc_strategy(s) {
            Ok(Some(s))
        } else {
            Err(
                "unknown podGC strategy `"@ + s
                    + "` (expected OnPodCompletion|OnPodSuccess|OnWorkflowCompletion|OnWorkflowSuccess)"@,
            )
        },
    }
}

/// Lowers `pod_gc_if_root(…)`: a strategy is required, one of Argo's four.
pub fn pod_gc_strategy(g: &Option<Option<String>>) -> (r: Result<Option<String>, String>)
    ensures
        agrees(r, pod_gc_of(g.deep_view())),
{
    match g {
        None => Ok(None),
        Some(None) => Err(POD_GC_WITHOUT_STRATEGY.to_owned()),
        Some(Some(s)) => {
            let t: &str = s.as_str();
            if str_eq(t, "OnPodCompletion") || str_eq(t, "OnPodSuccess") || str_eq(
                t,
                "OnWorkflowCompletion",
            ) || str_eq(t, "OnWorkflowSuccess") {
                Ok(Some(s.clone()))
            } else {
                Err(
                    cat3(
                        "unknown podGC strategy `",
                        t,
                        "` (expected OnPodCompletion|OnPodSuccess|OnWorkflowCompletion|OnWorkflowSuccess)",
                    ),
                )
            }
        },
    }
}

// ---- injection ------------------------------------------------------------------
pub const UNSUPPORTED_INJECT: &'static str = "unsupported #[container] attribute value. \
Use a string literal, or a `+`-concatenation of string literals and \
container arguments / their named fields — e.g. `\"repo:\" + tag` or \
`\"repo:\" + meta.id + \"-x\"`. Method calls, other idents, tuple/index \
fields, and other expressions aren't supported.";

pub const INJECT_TUPLE_FIELD: &'static str = "tuple-field access (`a.0`) can't be injected \
— named struct fields only.";

/// The text of an attribute value: literals as they are, and each argument, or
/// field of one, as an expression over `scope` that Argo evaluates.
pub open spec fn injected(e: Expr, args: Seq<Seq<char>>, scope: Seq<char>, kind: Seq<char>) -> Result<
    Seq<char>,
    Seq<char>,
>
    decreases e,
{
    match e {
        Expr::Paren { expr } => injected(*expr, args, scope, kind),
        Expr::Group { expr } => injected(*expr, args, scope, kind),
        Expr::Reference { mutable: _, expr } => injected(*expr, args, scope, kind),
        Expr::Binary { op, left, right } => if op == BinOp::Add {
            match injected(*left, args, scope, kind) {
                Err(m) => Err(m),
                Ok(l) => match injected(*right, args, scope, kind) {
                    Err(m) => Err(m),
                    Ok(r) => Ok(l + r),
                },
            }
        } else {
            Err(UNSUPPORTED_INJECT@)
        },
        Expr::Lit(Lit::Str(s)) => Ok(s@),
        Expr::Path(p) => if p.segments@.len() == 1 {
            let id = p.segments@[0]@;
            if args.contains(id) {
                Ok("{{=fromJSON("@ + scope + "['"@ + id + "'])}}"@)
            } else {
                Err(
                    "`"@ + id + "` is not a parameter of this #["@ + kind
                        + "] — only its arguments can be injected."@,
                )
            }
        } else {
            Err(UNSUPPORTED_INJECT@)
        },
        Expr::Field { base: _, member: _ } => match chain_of(e) {
            Chain::Tuple => Err(INJECT_TUPLE_FIELD@),
            Chain::Root(Expr::Path(p), path) => if p.segments@.len() != 1 {
                Err(UNSUPPORTED_INJECT@)
            } else {
                let root = p.segments@[0]@;
                if args.contains(root) {
                    Ok("{{=fromJSON("@ + scope + "['"@ + root + "'])"@ + accessors(path) + "}}"@)
                } else {
                    Err("`"@ + root + "` is not a parameter of this #["@ + kind + "]."@)
                }
            },
            Chain::Root(_, _) => Err(UNSUPPORTED_INJECT@),
        },
        _ => Err(UNSUPPORTED_INJECT@),
    }
}

fn inject_field(e: &Expr, args: &Vec<String>, scope: &str, kind: &str) -> (r: Result<String, String>)
    requires
        e is Field,
    ensures
        agrees(r, injected(*e, args.deep_view(), scope@, kind@)),
{
    match field_chain(e) {
        None => Err(INJECT_TUPLE_FIELD.to_owned()),
        Some((base, path)) => match base {
            Expr::Path(p) => {
                if p.segments.len() != 1 {
                    return Err(UNSUPPORTED_INJECT.to_owned());
                }
                let root: &str = p.segments[0].as_str();
                if has_str(args, root) {
                    let acc: String = accessor_text(&path);
                    let mut s: String = cat5("{{=fromJSON(", scope, "['", root, "'])");
                    s.append(acc.as_str());
                    s.append("}}");
                    Ok(s)
                } else {
                    Err(cat5("`", root, "` is not a parameter of this #[", kind, "]."))
                }
            },
            _ => Err(UNSUPPORTED_INJECT.to_owned()),
        },
    }
}

/// Lowers an attribute value. A string literal stands as it is; `"lit" + arg`
/// and `"lit" + arg.field` inject arguments through `scope`. `kind` names the
/// attribute's macro in messages.
pub fn inject_lower(e: &Expr, args: &Vec<String>, scope: &str, kind: &str) -> (r: Result<
    String,
    String,
>)
    ensures
        agrees(r, injected(*e, args.deep_view(), scope@, kind@)),
    decreases *e,
{
    match e {
        Expr::Paren { expr } => inject_lower(expr, args, scope, kind),
        Expr::Group { expr } => inject_lower(expr, args, scope, kind),
        Expr::Reference { mutable: _, expr } => inject_lower(expr, args, scope, kind),
        Expr::Binary { op, left, right } => {
            if *op == BinOp::Add {
                match inject_lower(left, args, scope, kind) {
                    Err(m) => Err(m),
                    Ok(l) => match inject_lower(right, args, scope, kind) {
                        Err(m) => Err(m),
                        Ok(r) => Ok(cat2(l.as_str(), r.as_str())),
                    },
                }
            } else {
                Err(UNSUPPORTED_INJECT.to_owned())
            }
        },
        Expr::Lit(Lit::Str(s)) => Ok(s.clone()),
        Expr::Path(p) => {
            if p.segments.len() != 1 {
                return Err(UNSUPPORTED_INJECT.to_owned());
            }
            let id: &str = p.segments[0].as_str();
            if has_str(args, id) {
                Ok(cat5("{{=fromJSON(", scope, "['", id, "'])}}"))
            } else {
                Err(
                    cat5(
                        "`",
                        id,
                        "` is not a parameter of this #[",
                        kind,
                        "] — only its arguments can be injected.",
                    ),
                )
            }
        },
        Expr::Field { base: _, member: _ } => inject_field(e, args, scope, kind),
        _ => Err(UNSUPPORTED_INJECT.to_owned()),
    }
}

/// The arguments and fields that an attribute value injects, in order.
pub open spec fn operands_in(e: Expr) -> Seq<Expr>
    decreases e,
{
    match e {
        Expr::Paren { expr } => operands_in(*expr),
        Expr::Group { expr } => operands_in(*expr),
        Expr::Reference { mutable: _, expr } => operands_in(*expr),
        Expr::Binary { op, left, right } => if op == BinOp::Add {
            operands_in(*left) + operands_in(*right)
        } else {
            Seq::empty()
        },
        Expr::Path(_) => seq![e],
        Expr::Field { base: _, member: _ } => seq![e],
        _ => Seq::empty(),
    }
}

pub open spec fn exprs_of(v: Seq<&Expr>) -> Seq<Expr> {
    Seq::new(v.len(), |i: int| *v[i])
}

/// Adds the operands that an attribute value injects.
pub fn inject_operands<'a>(e: &'a Expr, acc: &mut Vec<&'a Expr>)
    ensures
        exprs_of(final(acc)@) == exprs_of(old(acc)@) + operands_in(*e),
    decreases *e,
{
    let ghost a0 = exprs_of(acc@);
    match e {
        Expr::Paren { expr } => inject_operands(expr, acc),
        Expr::Group { expr } => inject_operands(expr, acc),
        Expr::Reference { mutable: _, expr } => inject_operands(expr, acc),
        Expr::Binary { op, left, right } => {
            if *op == BinOp::Add {
                inject_operands(left, acc);
                inject_operands(right, acc);
            }
        },
        Expr::Path(_) => acc.push(e),
        Expr::Field { base: _, member: _ } => acc.push(e),
        _ => {},
    }
    proof {
        assert(exprs_of(acc@) =~= a0 + operands_in(*e));
    }
}

/// Where injected values are looked up, and the macro that messages name.
pub struct InjectCtx<'a> {
    pub args: &'a Vec<String>,
    pub scope: &'a str,
    pub kind: &'a str,
}

#[verifier::ext_equal]
pub struct InjectView {
    pub args: Seq<Seq<char>>,
    pub scope: Seq<char>,
    pub kind: Seq<char>,
}

impl<'a> DeepView for InjectCtx<'a> {
    type V = InjectView;

    open spec fn deep_view(&self) -> InjectView {
        InjectView { args: self.args.deep_view(), scope: self.scope@, kind: self.kind@ }
    }
}

pub open spec fn inject_in(e: Expr, c: InjectView) -> Result<Seq<char>, Seq<char>> {
    injected(e, c.args, c.scope, c.kind)
}

pub open spec fn opt_inject_in(e: Option<Expr>, c: InjectView) -> Result<
    Option<Seq<char>>,
    Seq<char>,
> {
    match e {
        None => Ok(None),
        Some(x) => match inject_in(x, c) {
            Ok(s) => Ok(Some(s)),
            Err(m) => Err(m),
        },
    }
}

/// Lowers an optional attribute value.
pub fn inject_opt(e: &Option<Expr>, c: &InjectCtx) -> (r: Result<Option<String>, String>)
    ensures
        agrees(r, opt_inject_in(*e, c.deep_view())),
{
    match e {
        None => Ok(None),
        Some(x) => match inject_lower(x, c.args, c.scope, c.kind) {
            Ok(s) => Ok(Some(s)),
            Err(m) => Err(m),
        },
    }
}

pub open spec fn pair_in(p: (String, Expr), c: InjectView) -> Result<
    (Seq<char>, Seq<char>),
    Seq<char>,
> {
    match inject_in(p.1, c) {
        Ok(s) => Ok((p.0@, s)),
        Err(m) => Err(m),
    }
}

pub open spec fn pair_fn(c: InjectView) -> spec_fn((String, Expr)) -> Result<
    (Seq<char>, Seq<char>),
    Seq<char>,
> {
    |p: (String, Expr)| pair_in(p, c)
}

/// Lowers the values of a list of keys and values.
pub fn inject_pairs(list: &Vec<(String, Expr)>, c: &InjectCtx) -> (r: Result<
    Vec<(String, String)>,
    String,
>)
    ensures
        agrees(r, map_res(list@, pair_fn(c.deep_view()))),
{
    let ghost f = pair_fn(c.deep_view());
    let mut out: Vec<(String, String)> = Vec::new();
    let mut i: usize = 0;
    proof {
        lemma_map_res_all(list@, f);
        assert(out.deep_view() =~= Seq::<(Seq<char>, Seq<char>)>::empty());
    }
    while i < list.len()
        invariant
            f == pair_fn(c.deep_view()),
            i <= list@.len(),
            map_res(list@.take(i as int), f) == Ok::<Seq<(Seq<char>, Seq<char>)>, Seq<char>>(
                out.deep_view(),
            ),
        decreases list@.len() - i,
    {
        proof {
            lemma_map_res_step(list@, f, i as int);
        }
        let ghost before = out.deep_view();
        match inject_lower(&list[i].1, c.args, c.scope, c.kind) {
            Ok(s) => {
                out.push((list[i].0.clone(), s));
                proof {
                    assert(out.deep_view() =~= before.push((list@[i as int].0@, s@)));
                }
            },
            Err(m) => {
                return Err(m);
            },
        }
        i = i + 1;
    }
    proof {
        lemma_map_res_all(list@, f);
    }
    Ok(out)
}

// ---- mutexes ----------------------------------------------------------------------
/// `{ name = …, namespace = … }`.
pub struct MutexArg {
    pub name: Expr,
    pub namespace: Option<Expr>,
}

/// The name and the namespace of a mutex; no namespace is the run's own.
pub open spec fn mutex_in(m: MutexArg, c: InjectView) -> Result<
    (Seq<char>, Seq<char>),
    Seq<char>,
> {
    match inject_in(m.name, c) {
        Err(e) => Err(e),
        Ok(n) => match opt_inject_in(m.namespace, c) {
            Err(e) => Err(e),
            Ok(Some(ns)) => Ok((n, ns)),
            Ok(None) => Ok((n, Seq::empty())),
        },
    }
}

pub open spec fn mutex_fn(c: InjectView) -> spec_fn(MutexArg) -> Result<
    (Seq<char>, Seq<char>),
    Seq<char>,
> {
    |m: MutexArg| mutex_in(m, c)
}

fn lower_mutex(m: &MutexArg, c: &InjectCtx) -> (r: Result<(String, String), String>)
    ensures
        agrees(r, mutex_in(*m, c.deep_view())),
{
    match inject_lower(&m.name, c.args, c.scope, c.kind) {
        Err(e) => Err(e),
        Ok(n) => match inject_opt(&m.namespace, c) {
            Err(e) => Err(e),
            Ok(Some(ns)) => Ok((n, ns)),
            Ok(None) => Ok((n, String::new())),
        },
    }
}

/// Lowers a list of mutexes to names and namespaces.
pub fn lower_mutex_pairs(list: &Vec<MutexArg>, c: &InjectCtx) -> (r: Result<
    Vec<(String, String)>,
    String,
>)
    ensures
        agrees(r, map_res(list@, mutex_fn(c.deep_view()))),
{
    let ghost f = mutex_fn(c.deep_view());
    let mut out: Vec<(String, String)> = Vec::new();
    let mut i: usize = 0;
    proof {
        lemma_map_res_all(list@, f);
        assert(out.deep_view() =~= Seq::<(Seq<char>, Seq<char>)>::empty());
    }
    while i < list.len()
        invariant
            f == mutex_fn(c.deep_view()),
            i <= list@.len(),
            map_res(list@.take(i as int), f) == Ok::<Seq<(Seq<char>, Seq<char>)>, Seq<char>>(
                out.deep_view(),
            ),
        decreases list@.len() - i,
    {
        proof {
            lemma_map_res_step(list@, f, i as int);
        }
        let ghost before = out.deep_view();
        match lower_mutex(&list[i], c) {
            Ok(p) => {
                let ghost pv = p.deep_view();
                out.push(p);
                proof {
                    assert(out.deep_view() =~= before.push(pv));
                }
            },
            Err(m) => {
                return Err(m);
            },
        }
        i = i + 1;
    }
    proof {
        lemma_map_res_all(list@, f);
    }
    Ok(out)
}

pub open spec fn mutex_views(pairs: Seq<(Seq<char>, Seq<char>)>) -> Seq<MutexView> {
    Seq::new(pairs.len(), |i: int| MutexView { name: pairs[i].0, namespace: pairs[i].1 })
}

/// The mutexes of a template; none at all is no synchronization.
pub open spec fn synchronization_of(pairs: Seq<(Seq<char>, Seq<char>)>) -> Option<
    SynchronizationView,
> {
    if pairs.len() == 0 {
        None
    } else {
        Some(SynchronizationView { mutexes: mutex_views(pairs) })
    }
}

pub fn mutex_list(pairs: &Vec<(String, String)>) -> (r: Vec<Mutex>)
    ensures
        r.deep_view() == mutex_views(pairs.deep_view()),
{
    let ghost want = mutex_views(pairs.deep_view());
    let mut out: Vec<Mutex> = Vec::new();
    let mut i: usize = 0;
    proof {
        assert(out.deep_view() =~= want.take(0));
    }
    while i < pairs.len()
        invariant
            want == mutex_views(pairs.deep_view()),
            i <= pairs@.len(),
            out.deep_view() == want.take(i as int),
        decreases pairs@.len() - i,
    {
        let m: Mutex = Mutex { name: pairs[i].0.clone(), namespace: pairs[i].1.clone() };
        let ghost mv = m.deep_view();
        let ghost before = out.deep_view();
        out.push(m);
        proof {
            assert(out.deep_view() =~= before.push(mv));
            assert(out.deep_view() =~= want.take(i + 1));
        }
        i = i + 1;
    }
    proof {
        assert(want.take(i as int) =~= want);
    }
    out
}

/// The mutexes of a template.
pub fn template_synchronization(pairs: &Vec<(String, String)>) -> (r: Option<Synchronization>)
    ensures
        r.deep_view() == synchronization_of(pairs.deep_view()),
{
    if pairs.len() == 0 {
        None
    } else {
        Some(Synchronization { mutexes: mutex_list(pairs) })
    }
}

// ---- tolerations --------------------------------------------------------------------
/// `{ key = …, operator = "…", value = …, effect = …, toleration_seconds = N }`.
pub struct TolerationArg {
    pub key: Expr,
    pub operator: String,
    pub value: Option<Expr>,
    pub effect: Expr,
    pub toleration_seconds: i64,
}

/// Key, operator, value, effect and seconds of a toleration.
pub type TolerationTuple = (String, String, String, String, i64);

pub type TolerationText = (Seq<char>, Seq<char>, Seq<char>, Seq<char>, i64);

pub open spec fn operator_problem(op: Seq<char>) -> Option<Seq<char>> {
    if op == "Equal"@ || op == "Exists"@ {
        None
    } else {
        Some("unknown toleration operator `"@ + op + "` (expected Equal|Exists)"@)
    }
}

/// Checks the operator of a toleration.
pub fn check_toleration_operator(op: &str) -> (r: Result<(), String>)
    ensures
        match r {
            Ok(_) => operator_problem(op@) is None,
            Err(m) => operator_problem(op@) == Some(m@),
        },
{
    if str_eq(op, "Equal") || str_eq(op, "Exists") {
        Ok(())
    } else {
        Err(cat3("unknown toleration operator `", op, "` (expected Equal|Exists)"))
    }
}

/// Why `s` is no effect of a toleration. A text that Argo fills in is not judged,
/// and no effect is every effect.
pub open spec fn effect_problem(s: Seq<char>) -> Option<Seq<char>> {
    if occurs(s, "{{"@) || s == ""@ || s == "NoSchedule"@ || s == "PreferNoSchedule"@ || s
        == "NoExecute"@ {
        None
    } else {
        Some(
            "unknown toleration effect `"@ + s
                + "` (expected NoSchedule|PreferNoSchedule|NoExecute, or empty to match all)"@,
        )
    }
}

/// Checks the effect of a toleration after injection.
pub fn check_toleration_effect(lowered: &str) -> (r: Result<(), String>)
    ensures
        match r {
            Ok(_) => effect_problem(lowered@) is None,
            Err(m) => effect_problem(lowered@) == Some(m@),
        },
{
    if contains(lowered, "{{") || str_eq(lowered, "") || str_eq(lowered, "NoSchedule") || str_eq(
        lowered,
        "PreferNoSchedule",
    ) || str_eq(lowered, "NoExecute") {
        Ok(())
    } else {
        Err(
            cat3(
                "unknown toleration effect `",
                lowered,
                "` (expected NoSchedule|PreferNoSchedule|NoExecute, or empty to match all)",
            ),
        )
    }
}

pub open spec fn toleration_in(t: TolerationArg, c: InjectView) -> Result<
    TolerationText,
    Seq<char>,
> {
    match operator_problem(t.operator@) {
        Some(m) => Err(m),
        None => match inject_in(t.key, c) {
            Err(m) => Err(m),
            Ok(key) => match opt_inject_in(t.value, c) {
                Err(m) => Err(m),
                Ok(v) => match inject_in(t.effect, c) {
                    Err(m) => Err(m),
                    Ok(effect) => match effect_problem(effect) {
                        Some(m) => Err(m),
                        None => Ok(
                            (
                                key,
                                t.operator@,
                                match v {
                                    Some(s) => s,
                                    None => Seq::empty(),
                                },
                                effect,
                                t.toleration_seconds,
                            ),
                        ),
                    },
                },
            },
        },
    }
}

pub open spec fn toleration_fn(c: InjectView) -> spec_fn(TolerationArg) -> Result<
    TolerationText,
    Seq<char>,
> {
    |t: TolerationArg| toleration_in(t, c)
}

fn lower_toleration(t: &TolerationArg, c: &InjectCtx) -> (r: Result<TolerationTuple, String>)
    ensures
        agrees(r, toleration_in(*t, c.deep_view())),
{
    match check_toleration_operator(t.operator.as_str()) {
        Ok(_) => {},
        Err(m) => {
            return Err(m);
        },
    }
    let key: String = match inject_lower(&t.key, c.args, c.scope, c.kind) {
        Ok(s) => s,
        Err(m) => {
            return Err(m);
        },
    };
    let value: String = match inject_opt(&t.value, c) {
        Ok(Some(s)) => s,
        Ok(None) => String::new(),
        Err(m) => {
            return Err(m);
        },
    };
    let effect: String = match inject_lower(&t.effect, c.args, c.scope, c.kind) {
        Ok(s) => s,
        Err(m) => {
            return Err(m);
        },
    };
    match check_toleration_effect(effect.as_str()) {
        Ok(_) => {},
        Err(m) => {
            return Err(m);
        },
    }
    Ok((key, t.operator.clone(), value, effect, t.toleration_seconds))
}

/// Lowers a list of tolerations; operators and effects are checked.
pub fn lower_toleration_args(list: &Vec<TolerationArg>, c: &InjectCtx) -> (r: Result<
    Vec<TolerationTuple>,
    String,
>)
    ensures
        agrees(r, map_res(list@, toleration_fn(c.deep_view()))),
{
    let ghost f = toleration_fn(c.deep_view());
    let mut out: Vec<TolerationTuple> = Vec::new();
    let mut i: usize = 0;
    proof {
        lemma_map_res_all(list@, f);
        assert(out.deep_view() =~= Seq::<TolerationText>::empty());
    }
    while i < list.len()
        invariant
            f == toleration_fn(c.deep_view()),
            i <= list@.len(),
            map_res(list@.take(i as int), f) == Ok::<Seq<TolerationText>, Seq<char>>(
                out.deep_view(),
            ),
        decreases list@.len() - i,
    {
        proof {
            lemma_map_res_step(list@, f, i as int);
        }
        let ghost before = out.deep_view();
        match lower_toleration(&list[i], c) {
            Ok(t) => {
                let ghost tv = t.deep_view();
                out.push(t);
                proof {
                    assert(out.deep_view() =~= before.push(tv));
                }
            },
            Err(m) => {
                return Err(m);
            },
        }
        i = i + 1;
    }
    proof {
        lemma_map_res_all(list@, f);
    }
    Ok(out)
}

pub open spec fn toleration_view(t: TolerationText) -> TolerationView {
    TolerationView {
        key: t.0,
        operator: t.1,
        value: t.2,
        effect: t.3,
        toleration_seconds: if t.4 == 0 {
            None
        } else {
            Some(t.4)
        },
    }
}

pub open spec fn toleration_views(list: Seq<TolerationText>) -> Seq<TolerationView> {
    Seq::new(list.len(), |i: int| toleration_view(list[i]))
}

/// The tolerations of a template; no seconds is for ever.
pub fn template_tolerations(list: &Vec<TolerationTuple>) -> (r: Vec<Toleration>)
    ensures
        r.deep_view() == toleration_views(list.deep_view()),
{
    let ghost want = toleration_views(list.deep_view());
    let mut out: Vec<Toleration> = Vec::new();
    let mut i: usize = 0;
    proof {
        assert(out.deep_view() =~= want.take(0));
    }
    while i < list.len()
        invariant
            want == toleration_views(list.deep_view()),
            i <= list@.len(),
            out.deep_view() == want.take(i as int),
        decreases list@.len() - i,
    {
        let secs: Option<i64> = if list[i].4 == 0 {
            None
        } else {
            Some(list[i].4)
        };
        let t: Toleration = Toleration {
            key: list[i].0.clone(),
            operator: list[i].1.clone(),
            value: list[i].2.clone(),
            effect: list[i].3.clone(),
            toleration_seconds: secs,
        };
        let ghost tv = t.deep_view();
        let ghost before = out.deep_view();
        out.push(t);
        proof {
            assert(out.deep_view() =~= before.push(tv));
            assert(list.deep_view()[i as int] == list@[i as int].deep_view());
            assert(tv == toleration_view(list@[i as int].deep_view()));
            assert(out.deep_view() =~= want.take(i + 1));
        }
        i = i + 1;
    }
    proof {
        assert(want.take(i as int) =~= want);
    }
    out
}

} // verus!
