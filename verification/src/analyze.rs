//! The analyzer of workflow bodies.
//!
//! A body is read, never run: `let x = template(args);`, `template(args);` and
//! `if` / `else if` / `else` become tasks, and everything else is refused with
//! a message that says what to write instead.

use crate::ast::{
    call_of, call_parts, chain_of, core_of, field_chain, lemma_call, lemma_core, unwrap_expr,
    Chain, Expr, Lit, Pat, Path, PathView, Stmt,
};
use crate::folds::{lemma_map_res_all, lemma_map_res_step, map_res};
use crate::maps::{Data, TextMap};
use crate::munge::{kebab, kebab_of};
use crate::node::{
    agrees, Arg, ArgView, FanSrc, FanSrcView, Hook, HookView, HookWhen, HookWhenView, JsonSrc,
    JsonSrcView, Node, NodeView,
};
use crate::outside::{json_string, json_text};
use crate::text::{cat3, dec, dec_value, decimal, digit_char, has_str, str_eq};
use vstd::prelude::*;

verus! {

pub const UNSUPPORTED_ARG: &'static str = "unsupported argument in a #[workflow] call. \
Allowed: a literal, a workflow input parameter, a binding from a prior \
`let x = template(...);`, `.clone()`/`.to_owned()` on a binding/input, or \
`.to_string()`/`.into()` on a string literal. Computed values, regular \
variables/consts, other method calls, and other expressions aren't \
lowered yet.";

pub const UNSUPPORTED_LITERAL: &'static str = "unsupported literal kind for a template argument \
(byte / byte-string / C-string literals have no JSON parameter encoding)";

pub const CONVERSION_ON_VALUE: &'static str = "`.to_string()`/`.into()` in a #[workflow] arg \
is only allowed on a string literal. On a binding/input the value already has the right \
serialized type; converting it would mismatch the emitted Argo parameter (the raw serialized \
value) and break the (de)serialize contract — pass it directly, or `.clone()` to fan out.";

pub const TUPLE_FIELD: &'static str = "tuple-field access (`a.0`) isn't lowered yet — \
v1 supports named struct fields (`a.b.c`).";

pub const FIELD_BASE: &'static str = "field-access base must be a #[workflow] input or a \
prior `let = template(...)` binding.";

pub const INDEX_ACCESS: &'static str = "index access (`a[i]`) isn't lowered yet — v1 supports \
named struct fields (`a.b.c`).";

pub const ITEM_TUPLE_FIELD: &'static str = "tuple-field access on a `fan_out` item isn't \
lowered yet — use named fields.";

pub const FAN_SOURCE: &'static str = "`fan_out` source must be a prior `let` binding or a \
#[workflow] input (a list).";

pub const HOOK_TARGET: &'static str = "hook target must be a template path `t` or call `t(args)`.";

pub const HOOK_ARITY: &'static str = "expected exactly one template: `.<hook>(t)` or \
`.<hook>(t(args))`.";

pub const CONTINUE_ON_TWICE: &'static str = "`.continue_on(...)` specified more than once.";

pub const CONTINUE_ON_EMPTY: &'static str = "`.continue_on(...)` needs `failed` and/or `error`.";

pub const CONTINUE_ON_WORD: &'static str = "`.continue_on(...)` only accepts the bare idents \
`failed` and/or `error`.";

pub const ON_EXIT_TWICE: &'static str = "`.on_exit(...)` specified more than once.";

pub const HOOK_IF_EMPTY: &'static str = "`.hook_if(...)` needs at least one \
`\"argo-expression\" = template` entry.";

pub const HOOK_IF_ENTRY: &'static str = "each `.hook_if(...)` entry must be \
`\"argo-expression\" = template`.";

pub const HOOK_IF_KEY: &'static str = "`.hook_if(...)` key must be a string-literal Argo \
expression.";

// ---- arguments --------------------------------------------------------------
pub type Scope = Map<Seq<char>, Seq<char>>;

/// How a literal is passed: as JSON.
pub open spec fn lit_arg(l: Lit) -> Result<ArgView, Seq<char>> {
    match l {
        Lit::Str(s) => Ok(ArgView::Lit(json_text(s@))),
        Lit::Int(d) => Ok(ArgView::Lit(d@)),
        Lit::Float(d) => Ok(ArgView::Lit(d@)),
        Lit::Bool(b) => Ok(
            ArgView::Lit(
                if b {
                    "true"@
                } else {
                    "false"@
                },
            ),
        ),
        Lit::Char(c) => Ok(ArgView::Lit(json_text(seq![c]))),
        Lit::Other => Err(UNSUPPORTED_LITERAL@),
    }
}

/// A name in a workflow body: a binding before an input.
pub open spec fn name_arg(name: Seq<char>, b: Scope, ins: Seq<Seq<char>>) -> Result<
    ArgView,
    Seq<char>,
> {
    if b.dom().contains(name) {
        Ok(ArgView::Ref(b[name]))
    } else if ins.contains(name) {
        Ok(ArgView::Input(name))
    } else {
        Err(
            "`"@ + name
                + "` is not a #[workflow] input or a binding from a prior `let = template(...)`. "@
                + UNSUPPORTED_ARG@,
        )
    }
}

pub open spec fn field_arg(e: Expr, b: Scope, ins: Seq<Seq<char>>) -> Result<ArgView, Seq<char>> {
    match chain_of(e) {
        Chain::Tuple => Err(TUPLE_FIELD@),
        Chain::Root(base, path) => match base {
            Expr::Path(p) => if p.segments@.len() != 1 {
                Err(UNSUPPORTED_ARG@)
            } else {
                let name = p.segments@[0]@;
                if b.dom().contains(name) {
                    Ok(ArgView::Json { src: JsonSrcView::Task(b[name]), path })
                } else if ins.contains(name) {
                    Ok(ArgView::Json { src: JsonSrcView::Input(name), path })
                } else {
                    Err(
                        "`"@ + name
                            + "` is not a #[workflow] input or a prior `let = template(...)` binding. "@
                            + UNSUPPORTED_ARG@,
                    )
                }
            },
            _ => Err(FIELD_BASE@),
        },
    }
}

/// What an argument expression stands for, given the bindings and the inputs
/// in scope.
pub open spec fn arg_of(e: Expr, b: Scope, ins: Seq<Seq<char>>) -> Result<ArgView, Seq<char>>
    decreases e,
{
    match e {
        Expr::Paren { expr } => arg_of(*expr, b, ins),
        Expr::Group { expr } => arg_of(*expr, b, ins),
        Expr::Reference { mutable: _, expr } => arg_of(*expr, b, ins),
        Expr::Lit(l) => lit_arg(l),
        Expr::MethodCall { receiver, method, args } => if args@.len() != 0 {
            Err(UNSUPPORTED_ARG@)
        } else if method@ == "clone"@ || method@ == "to_owned"@ {
            arg_of(*receiver, b, ins)
        } else if method@ == "to_string"@ || method@ == "into"@ {
            match core_of(*receiver) {
                Expr::Lit(Lit::Str(_)) => arg_of(*receiver, b, ins),
                _ => Err(CONVERSION_ON_VALUE@),
            }
        } else {
            Err(UNSUPPORTED_ARG@)
        },
        Expr::Path(p) => if p.segments@.len() == 1 {
            name_arg(p.segments@[0]@, b, ins)
        } else {
            Err(UNSUPPORTED_ARG@)
        },
        Expr::Field { base: _, member: _ } => field_arg(e, b, ins),
        Expr::Index { base: _, index: _ } => Err(INDEX_ACCESS@),
        _ => Err(UNSUPPORTED_ARG@),
    }
}

fn lit_to_arg(l: &Lit) -> (r: Result<Arg, String>)
    ensures
        agrees(r, lit_arg(*l)),
{
    match l {
        Lit::Str(s) => Ok(Arg::Lit(json_string(s.as_str()))),
        Lit::Int(d) => Ok(Arg::Lit(d.clone())),
        Lit::Float(d) => Ok(Arg::Lit(d.clone())),
        Lit::Bool(b) => if *b {
            Ok(Arg::Lit("true".to_owned()))
        } else {
            Ok(Arg::Lit("false".to_owned()))
        },
        Lit::Char(c) => {
            let mut s: String = String::new();
            s.push(*c);
            proof {
                assert(s@ =~= seq![*c]);
            }
            Ok(Arg::Lit(json_string(s.as_str())))
        },
        Lit::Other => Err(UNSUPPORTED_LITERAL.to_owned()),
    }
}

/// A name resolved against the bindings and the inputs in scope.
pub fn name_to_arg(name: &str, bindings: &TextMap<String>, inputs: &Vec<String>) -> (r: Result<
    Arg,
    String,
>)
    ensures
        agrees(r, name_arg(name@, bindings.deep_view(), inputs.deep_view())),
{
    match bindings.get(name) {
        Some(task) => Ok(Arg::Ref(task.clone())),
        None => if has_str(inputs, name) {
            Ok(Arg::Input(name.to_owned()))
        } else {
            let mut m: String = cat3(
                "`",
                name,
                "` is not a #[workflow] input or a binding from a prior `let = template(...)`. ",
            );
            m.append(UNSUPPORTED_ARG);
            Err(m)
        },
    }
}

fn field_to_arg(e: &Expr, bindings: &TextMap<String>, inputs: &Vec<String>) -> (r: Result<
    Arg,
    String,
>)
    ensures
        agrees(r, field_arg(*e, bindings.deep_view(), inputs.deep_view())),
{
    match field_chain(e) {
        None => Err(TUPLE_FIELD.to_owned()),
        Some((base, path)) => match base {
            Expr::Path(p) => {
                if p.segments.len() != 1 {
                    return Err(UNSUPPORTED_ARG.to_owned());
                }
                let name: &str = p.segments[0].as_str();
                match bindings.get(name) {
                    Some(task) => Ok(Arg::Json { src: JsonSrc::Task(task.clone()), path }),
                    None => if has_str(inputs, name) {
                        Ok(Arg::Json { src: JsonSrc::Input(name.to_owned()), path })
                    } else {
                        let mut m: String = cat3(
                            "`",
                            name,
                            "` is not a #[workflow] input or a prior `let = template(...)` binding. ",
                        );
                        m.append(UNSUPPORTED_ARG);
                        Err(m)
                    },
                }
            },
            _ => Err(FIELD_BASE.to_owned()),
        },
    }
}

/// Resolves an argument: a literal, a binding, an input, or a field of one.
/// Everything else is refused, so that no argument is passed on unmodeled.
pub fn expr_to_arg(e: &Expr, bindings: &TextMap<String>, inputs: &Vec<String>) -> (r: Result<
    Arg,
    String,
>)
    ensures
        agrees(r, arg_of(*e, bindings.deep_view(), inputs.deep_view())),
    decreases *e,
{
    match e {
        Expr::Paren { expr } => expr_to_arg(expr, bindings, inputs),
        Expr::Group { expr } => expr_to_arg(expr, bindings, inputs),
        Expr::Reference { mutable: _, expr } => expr_to_arg(expr, bindings, inputs),
        Expr::Lit(l) => lit_to_arg(l),
        Expr::MethodCall { receiver, method, args } => {
            if args.len() != 0 {
                return Err(UNSUPPORTED_ARG.to_owned());
            }
            if str_eq(method.as_str(), "clone") || str_eq(method.as_str(), "to_owned") {
                expr_to_arg(receiver, bindings, inputs)
            } else if str_eq(method.as_str(), "to_string") || str_eq(method.as_str(), "into") {
                match unwrap_expr(receiver) {
                    Expr::Lit(Lit::Str(_)) => expr_to_arg(receiver, bindings, inputs),
                    _ => Err(CONVERSION_ON_VALUE.to_owned()),
                }
            } else {
                Err(UNSUPPORTED_ARG.to_owned())
            }
        },
        Expr::Path(p) => if p.segments.len() == 1 {
            name_to_arg(p.segments[0].as_str(), bindings, inputs)
        } else {
            Err(UNSUPPORTED_ARG.to_owned())
        },
        Expr::Field { base: _, member: _ } => field_to_arg(e, bindings, inputs),
        Expr::Index { base: _, index: _ } => Err(INDEX_ACCESS.to_owned()),
        _ => Err(UNSUPPORTED_ARG.to_owned()),
    }
}

/// `e` without `.clone()` and `.to_owned()` behind it.
pub open spec fn without_clones(e: Expr) -> Expr
    decreases e,
{
    match e {
        Expr::Paren { expr } => without_clones(*expr),
        Expr::Group { expr } => without_clones(*expr),
        Expr::Reference { mutable: _, expr } => without_clones(*expr),
        Expr::MethodCall { receiver, method, args } => if args@.len() == 0 && (method@ == "clone"@
            || method@ == "to_owned"@) {
            without_clones(*receiver)
        } else {
            e
        },
        _ => e,
    }
}

fn strip_clones(e: &Expr) -> (r: &Expr)
    ensures
        *r == without_clones(*e),
    decreases *e,
{
    match e {
        Expr::Paren { expr } => strip_clones(expr),
        Expr::Group { expr } => strip_clones(expr),
        Expr::Reference { mutable: _, expr } => strip_clones(expr),
        Expr::MethodCall { receiver, method, args } => if args.len() == 0 && (str_eq(
            method.as_str(),
            "clone",
        ) || str_eq(method.as_str(), "to_owned")) {
            strip_clones(receiver)
        } else {
            e
        },
        _ => e,
    }
}

/// What an argument stands for inside a fan-out over `item`, where it is
/// rooted at the item.
pub open spec fn item_of(e: Expr, item: Seq<char>) -> Option<Result<ArgView, Seq<char>>> {
    match chain_of(without_clones(e)) {
        Chain::Tuple => Some(Err(ITEM_TUPLE_FIELD@)),
        Chain::Root(Expr::Path(p), path) => if p.deep_view().ident() == Some(item) {
            Some(Ok(ArgView::Item { path }))
        } else {
            None
        },
        _ => None,
    }
}

pub open spec fn resolved_arg(
    e: Expr,
    item: Option<Seq<char>>,
    b: Scope,
    ins: Seq<Seq<char>>,
) -> Result<ArgView, Seq<char>> {
    match item {
        Some(it) => match item_of(e, it) {
            Some(r) => r,
            None => arg_of(e, b, ins),
        },
        None => arg_of(e, b, ins),
    }
}

pub open spec fn opt_view(o: Option<&str>) -> Option<Seq<char>> {
    match o {
        Some(s) => Some(s@),
        None => None,
    }
}

/// Like [`expr_to_arg`], but an expression rooted at the item of the enclosing
/// fan-out stands for that item.
pub fn resolve_arg(
    e: &Expr,
    item: Option<&str>,
    bindings: &TextMap<String>,
    inputs: &Vec<String>,
) -> (r: Result<Arg, String>)
    ensures
        agrees(r, resolved_arg(*e, opt_view(item), bindings.deep_view(), inputs.deep_view())),
{
    if let Some(it) = item {
        match field_chain(strip_clones(e)) {
            None => {
                return Err(ITEM_TUPLE_FIELD.to_owned());
            },
            Some((base, path)) => {
                if let Expr::Path(p) = base {
                    if p.is_ident(it) {
                        return Ok(Arg::Item { path });
                    }
                }
            },
        }
    }
    expr_to_arg(e, bindings, inputs)
}

// ---- fan-out ----------------------------------------------------------------
pub const LET_PATTERN: &'static str = "unsupported `let` pattern in #[workflow]: bind a single name \
(`let x = template(...);`) or `_`.";

/// The name that a pattern binds; `None` for `_`.
pub open spec fn bound_name(p: Pat) -> Result<Option<Seq<char>>, Seq<char>>
    decreases p,
{
    match p {
        Pat::Ident { name, simple } => if simple {
            Ok(Some(name@))
        } else {
            Err(LET_PATTERN@)
        },
        Pat::Wild => Ok(None),
        Pat::Type { pat } => bound_name(*pat),
        Pat::Other => Err(LET_PATTERN@),
    }
}

/// The name that a `let` introduces: a plain name, or nothing for `_`. Other
/// patterns are refused.
pub fn local_binding(p: &Pat) -> (r: Result<Option<String>, String>)
    ensures
        agrees(r, bound_name(*p)),
    decreases *p,
{
    match p {
        Pat::Ident { name, simple } => if *simple {
            Ok(Some(name.clone()))
        } else {
            Err(LET_PATTERN.to_owned())
        },
        Pat::Wild => Ok(None),
        Pat::Type { pat } => local_binding(pat),
        Pat::Other => Err(LET_PATTERN.to_owned()),
    }
}

/// The tail of a closure body: `C(x)` of `|x| C(x)` and of `|x| { …; C(x) }`.
pub open spec fn tail_of(b: Expr) -> Expr {
    match b {
        Expr::Block { stmts } => if stmts@.len() > 0 {
            match stmts@.last() {
                Stmt::Expr { expr, semi: _ } => expr,
                _ => b,
            }
        } else {
            b
        },
        _ => b,
    }
}

pub fn closure_tail(b: &Expr) -> (r: &Expr)
    ensures
        *r == tail_of(*b),
{
    match b {
        Expr::Block { stmts } => {
            if stmts.len() > 0 {
                match &stmts[stmts.len() - 1] {
                    Stmt::Expr { expr, semi: _ } => {
                        return expr;
                    },
                    _ => {},
                }
            }
            b
        },
        _ => b,
    }
}

/// The parts of `list.fan_out(|item| callee(args))`.
pub struct FanParts<'a> {
    pub list: &'a Expr,
    pub item: String,
    pub callee: &'a Path,
    pub args: &'a Vec<Expr>,
}

#[verifier::ext_equal]
pub struct FanPartsView {
    pub list: Expr,
    pub item: Seq<char>,
    pub callee: Path,
    pub args: Seq<Expr>,
}

impl<'a> DeepView for FanParts<'a> {
    type V = FanPartsView;

    open spec fn deep_view(&self) -> FanPartsView {
        FanPartsView {
            list: *self.list,
            item: self.item@,
            callee: *self.callee,
            args: self.args@,
        }
    }
}

/// The closure of `list.fan_out(closure)`, its list and its one parameter.
pub open spec fn fan_closure(e: Expr) -> Option<(Expr, Pat, Expr)> {
    match core_of(e) {
        Expr::MethodCall { receiver, method, args } => if method@ == "fan_out"@ && args@.len()
            == 1 {
            match core_of(args@[0]) {
                Expr::Closure { inputs, body } => if inputs@.len() == 1 {
                    Some((*receiver, inputs@[0], *body))
                } else {
                    None
                },
                _ => None,
            }
        } else {
            None
        },
        _ => None,
    }
}

pub open spec fn fan_of(e: Expr) -> Option<FanPartsView> {
    match fan_closure(e) {
        Some((list, pat, body)) => match bound_name(pat) {
            Ok(Some(item)) => match call_of(tail_of(body)) {
                Some((callee, args)) => Some(FanPartsView { list, item, callee, args }),
                None => None,
            },
            _ => None,
        },
        None => None,
    }
}

fn fan_call(e: &Expr) -> (r: Option<(&Expr, &Pat, &Expr)>)
    ensures
        match r {
            Some((list, pat, body)) => fan_closure(*e) == Some((*list, *pat, *body)),
            None => fan_closure(*e) is None,
        },
{
    match unwrap_expr(e) {
        Expr::MethodCall { receiver, method, args } => {
            if !str_eq(method.as_str(), "fan_out") || args.len() != 1 {
                return None;
            }
            match unwrap_expr(&args[0]) {
                Expr::Closure { inputs, body } => {
                    if inputs.len() != 1 {
                        return None;
                    }
                    Some((&**receiver, &inputs[0], &**body))
                },
                _ => None,
            }
        },
        _ => None,
    }
}

/// The parts of a fan-out, where `e` has exactly that shape.
pub fn fan_parts(e: &Expr) -> (r: Option<FanParts<'_>>)
    ensures
        r.deep_view() == fan_of(*e),
{
    match fan_call(e) {
        Some((list, pat, body)) => match local_binding(pat) {
            Ok(Some(item)) => match call_parts(closure_tail(body)) {
                Some((callee, args)) => Some(FanParts { list, item, callee, args }),
                None => None,
            },
            _ => None,
        },
        None => None,
    }
}

/// The body of a fan-out's closure, where it is no template call.
pub open spec fn bad_closure(e: Expr) -> bool {
    fan_closure(e) matches Some((_, _, body)) && call_of(tail_of(body)) is None
}

/// Whether `e` is a fan-out whose closure body is no template call.
pub fn fan_out_bad_closure(e: &Expr) -> (r: bool)
    ensures
        r == bad_closure(*e),
{
    match fan_call(e) {
        Some((_, _, body)) => call_parts(closure_tail(body)).is_none(),
        None => false,
    }
}

pub open spec fn fan_source(list: Expr, b: Scope, ins: Seq<Seq<char>>) -> Result<
    FanSrcView,
    Seq<char>,
> {
    match core_of(list) {
        Expr::Path(p) => if p.segments@.len() == 1 {
            let name = p.segments@[0]@;
            if b.dom().contains(name) {
                Ok(FanSrcView::Task(b[name]))
            } else if ins.contains(name) {
                Ok(FanSrcView::Input(name))
            } else {
                Err(FAN_SOURCE@)
            }
        } else {
            Err(FAN_SOURCE@)
        },
        _ => Err(FAN_SOURCE@),
    }
}

/// Resolves the list of a fan-out: a binding or an input.
pub fn fan_src(list: &Expr, bindings: &TextMap<String>, inputs: &Vec<String>) -> (r: Result<
    FanSrc,
    String,
>)
    ensures
        agrees(r, fan_source(*list, bindings.deep_view(), inputs.deep_view())),
{
    match unwrap_expr(list) {
        Expr::Path(p) => {
            if p.segments.len() == 1 {
                let name: &str = p.segments[0].as_str();
                match bindings.get(name) {
                    Some(task) => {
                        return Ok(FanSrc::Task(task.clone()));
                    },
                    None => {
                        if has_str(inputs, name) {
                            return Ok(FanSrc::Input(name.to_owned()));
                        }
                    },
                }
            }
            Err(FAN_SOURCE.to_owned())
        },
        _ => Err(FAN_SOURCE.to_owned()),
    }
}

// ---- builders ----------------------------------------------------------------
/// A hook as it was chained: its arguments are not resolved yet.
pub struct HookSpec<'a> {
    pub when: HookWhen,
    pub template: &'a Path,
    /// `None` for a template named without a call.
    pub raw_args: Option<&'a Vec<Expr>>,
}

#[verifier::ext_equal]
pub struct HookSpecView {
    pub when: HookWhenView,
    pub template: PathView,
    pub raw_args: Seq<Expr>,
}

pub open spec fn raw_of(o: Option<&Vec<Expr>>) -> Seq<Expr> {
    match o {
        Some(v) => v@,
        None => Seq::empty(),
    }
}

impl<'a> DeepView for HookSpec<'a> {
    type V = HookSpecView;

    open spec fn deep_view(&self) -> HookSpecView {
        HookSpecView {
            when: self.when.deep_view(),
            template: self.template.deep_view(),
            raw_args: raw_of(self.raw_args),
        }
    }
}

/// What is chained on a call: whether to go on after an error and after a
/// failure, and the hooks in the order of their keys.
pub struct NodeOpts<'a> {
    pub continue_on: Option<(bool, bool)>,
    pub hooks: Vec<HookSpec<'a>>,
}

#[verifier::ext_equal]
pub struct NodeOptsView {
    pub continue_on: Option<(bool, bool)>,
    pub hooks: Seq<HookSpecView>,
}

impl<'a> DeepView for NodeOpts<'a> {
    type V = NodeOptsView;

    open spec fn deep_view(&self) -> NodeOptsView {
        NodeOptsView { continue_on: self.continue_on, hooks: self.hooks.deep_view() }
    }
}

impl NodeOptsView {
    pub open spec fn empty() -> NodeOptsView {
        NodeOptsView { continue_on: None, hooks: Seq::empty() }
    }
}

pub open spec fn path_of(e: Expr) -> Option<Path> {
    match core_of(e) {
        Expr::Path(p) => Some(p),
        _ => None,
    }
}

/// The path that an expression is.
pub fn expr_path(e: &Expr) -> (r: Option<&Path>)
    ensures
        match r {
            Some(p) => path_of(*e) == Some(*p),
            None => path_of(*e) is None,
        },
{
    match unwrap_expr(e) {
        Expr::Path(p) => Some(p),
        _ => None,
    }
}

/// A hook target: a path `t`, or a call `t(args)`.
pub open spec fn target_of(e: Expr) -> Result<(PathView, Seq<Expr>), Seq<char>> {
    match call_of(e) {
        Some((p, args)) => Ok((p.deep_view(), args)),
        None => match path_of(e) {
            Some(p) => Ok((p.deep_view(), Seq::empty())),
            None => Err(HOOK_TARGET@),
        },
    }
}

pub open spec fn target_agrees(
    r: Result<(&Path, Option<&Vec<Expr>>), String>,
    s: Result<(PathView, Seq<Expr>), Seq<char>>,
) -> bool {
    match (r, s) {
        (Ok((p, raw)), Ok((pv, args))) => p.deep_view() == pv && raw_of(raw) == args,
        (Err(m), Err(n)) => m@ == n,
        _ => false,
    }
}

pub fn hook_target(e: &Expr) -> (r: Result<(&Path, Option<&Vec<Expr>>), String>)
    ensures
        target_agrees(r, target_of(*e)),
{
    match call_parts(e) {
        Some((p, args)) => Ok((p, Some(args))),
        None => match expr_path(e) {
            Some(p) => Ok((p, None)),
            None => Err(HOOK_TARGET.to_owned()),
        },
    }
}

pub open spec fn single_target(args: Seq<Expr>) -> Result<(PathView, Seq<Expr>), Seq<char>> {
    if args.len() == 1 {
        target_of(args[0])
    } else {
        Err(HOOK_ARITY@)
    }
}

/// The one target of `.on_exit`, `.on_success`, `.on_failure`, `.on_error`.
pub fn single_hook_target(args: &Vec<Expr>) -> (r: Result<(&Path, Option<&Vec<Expr>>), String>)
    ensures
        target_agrees(r, single_target(args@)),
{
    if args.len() == 1 {
        hook_target(&args[0])
    } else {
        Err(HOOK_ARITY.to_owned())
    }
}

pub open spec fn word_is(e: Expr, w: Seq<char>) -> bool {
    path_of(e) matches Some(p) && p.deep_view().ident() == Some(w)
}

/// The words of `.continue_on(...)`: whether `error` and whether `failed` is
/// among them.
pub open spec fn continue_words(args: Seq<Expr>) -> Result<(bool, bool), Seq<char>> {
    if args.len() == 0 {
        Err(CONTINUE_ON_EMPTY@)
    } else if exists|i: int|
        0 <= i < args.len() && !word_is(#[trigger] args[i], "error"@) && !word_is(
            args[i],
            "failed"@,
        ) {
        Err(CONTINUE_ON_WORD@)
    } else {
        Ok(
            (
                exists|i: int| 0 <= i < args.len() && word_is(#[trigger] args[i], "error"@),
                exists|i: int| 0 <= i < args.len() && word_is(#[trigger] args[i], "failed"@),
            ),
        )
    }
}

fn is_word(e: &Expr, w: &str) -> (r: bool)
    ensures
        r == word_is(*e, w@),
{
    match expr_path(e) {
        Some(p) => p.is_ident(w),
        None => false,
    }
}

fn continue_flags(args: &Vec<Expr>) -> (r: Result<(bool, bool), String>)
    ensures
        match (r, continue_words(args@)) {
            (Ok(a), Ok(b)) => a == b,
            (Err(m), Err(n)) => m@ == n,
            _ => false,
        },
{
    if args.len() == 0 {
        return Err(CONTINUE_ON_EMPTY.to_owned());
    }
    proof {
        reveal_strlit("error");
        reveal_strlit("failed");
        assert("error"@.len() != "failed"@.len());
    }
    let mut err: bool = false;
    let mut failed: bool = false;
    let mut i: usize = 0;
    while i < args.len()
        invariant
            "error"@ != "failed"@,
            i <= args@.len(),
            forall|j: int|
                0 <= j < i ==> word_is(#[trigger] args@[j], "error"@) || word_is(
                    args@[j],
                    "failed"@,
                ),
            err == exists|j: int| 0 <= j < i && word_is(#[trigger] args@[j], "error"@),
            failed == exists|j: int| 0 <= j < i && word_is(#[trigger] args@[j], "failed"@),
        decreases args@.len() - i,
    {
        if is_word(&args[i], "error") {
            err = true;
            proof {
                assert(word_is(args@[i as int], "error"@));
            }
        } else if is_word(&args[i], "failed") {
            failed = true;
            proof {
                assert(word_is(args@[i as int], "failed"@));
            }
        } else {
            proof {
                assert(!word_is(args@[i as int], "error"@));
            }
            return Err(CONTINUE_ON_WORD.to_owned());
        }
        i = i + 1;
    }
    Ok((err, failed))
}

/// One entry of `.hook_if("expression" = target, …)`.
pub open spec fn hook_entry(e: Expr) -> Result<HookSpecView, Seq<char>> {
    match core_of(e) {
        Expr::Assign { left, right } => match core_of(*left) {
            Expr::Lit(Lit::Str(s)) => match target_of(*right) {
                Ok((template, raw_args)) => Ok(
                    HookSpecView { when: HookWhenView::Raw(s@), template, raw_args },
                ),
                Err(m) => Err(m),
            },
            _ => Err(HOOK_IF_KEY@),
        },
        _ => Err(HOOK_IF_ENTRY@),
    }
}

pub open spec fn hook_entry_fn() -> spec_fn(Expr) -> Result<HookSpecView, Seq<char>> {
    |e: Expr| hook_entry(e)
}

pub open spec fn hook_entries(args: Seq<Expr>) -> Result<Seq<HookSpecView>, Seq<char>> {
    if args.len() == 0 {
        Err(HOOK_IF_EMPTY@)
    } else {
        map_res(args, hook_entry_fn())
    }
}

fn hook_if_entry(e: &Expr) -> (r: Result<HookSpec<'_>, String>)
    ensures
        agrees(r, hook_entry(*e)),
{
    match unwrap_expr(e) {
        Expr::Assign { left, right } => match unwrap_expr(left) {
            Expr::Lit(Lit::Str(s)) => match hook_target(right) {
                Ok((template, raw_args)) => Ok(
                    HookSpec { when: HookWhen::Raw(s.clone()), template, raw_args },
                ),
                Err(m) => Err(m),
            },
            _ => Err(HOOK_IF_KEY.to_owned()),
        },
        _ => Err(HOOK_IF_ENTRY.to_owned()),
    }
}

fn hook_if_entries(args: &Vec<Expr>) -> (r: Result<Vec<HookSpec<'_>>, String>)
    ensures
        agrees(r, hook_entries(args@)),
{
    if args.len() == 0 {
        return Err(HOOK_IF_EMPTY.to_owned());
    }
    let ghost f = hook_entry_fn();
    let mut out: Vec<HookSpec> = Vec::new();
    let mut i: usize = 0;
    proof {
        lemma_map_res_all(args@, f);
        assert(out.deep_view() =~= Seq::<HookSpecView>::empty());
    }
    while i < args.len()
        invariant
            f == hook_entry_fn(),
            args@.len() > 0,
            i <= args@.len(),
            map_res(args@.take(i as int), f) == Ok::<Seq<HookSpecView>, Seq<char>>(
                out.deep_view(),
            ),
        decreases args@.len() - i,
    {
        proof {
            lemma_map_res_step(args@, f, i as int);
        }
        let ghost before = out.deep_view();
        match hook_if_entry(&args[i]) {
            Ok(h) => {
                let ghost hv = h.deep_view();
                out.push(h);
                proof {
                    assert(out.deep_view() =~= before.push(hv));
                }
            },
            Err(m) => {
                return Err(m);
            },
        }
        i = i + 1;
    }
    proof {
        lemma_map_res_all(args@, f);
    }
    Ok(out)
}

/// The event that `.on_success`, `.on_failure` and `.on_error` wait for.
pub open spec fn phase_of(method: Seq<char>) -> Option<HookWhenView> {
    if method == "on_success"@ {
        Some(HookWhenView::Success)
    } else if method == "on_failure"@ {
        Some(HookWhenView::Failure)
    } else if method == "on_error"@ {
        Some(HookWhenView::Error)
    } else {
        None
    }
}

fn phase(method: &str) -> (r: Option<HookWhen>)
    ensures
        r.deep_view() == phase_of(method@),
{
    if str_eq(method, "on_success") {
        Some(HookWhen::Success)
    } else if str_eq(method, "on_failure") {
        Some(HookWhen::Failure)
    } else if str_eq(method, "on_error") {
        Some(HookWhen::Error)
    } else {
        None
    }
}

pub open spec fn with_hooks(
    r: Result<(Expr, NodeOptsView), Seq<char>>,
    hooks: Seq<HookSpecView>,
) -> Result<(Expr, NodeOptsView), Seq<char>> {
    match r {
        Ok((e, opts)) => Ok(
            (
                e,
                NodeOptsView { continue_on: opts.continue_on, hooks: opts.hooks + hooks },
            ),
        ),
        Err(m) => Err(m),
    }
}

/// What is left of `e` without the builders chained on it, as it is written, and
/// what they ask for, where builders further out have asked for `cont` and, if
/// `exit_seen`, for an exit hook.
pub open spec fn peeled_from(e: Expr, cont: Option<(bool, bool)>, exit_seen: bool) -> Result<
    (Expr, NodeOptsView),
    Seq<char>,
>
    decreases e,
{
    proof {
        lemma_core(e);
    }
    match core_of(e) {
        Expr::MethodCall { receiver, method, args } => if method@ == "continue_on"@ {
            if cont is Some {
                Err(CONTINUE_ON_TWICE@)
            } else {
                match continue_words(args@) {
                    Ok(c) => peeled_from(*receiver, Some(c), exit_seen),
                    Err(m) => Err(m),
                }
            }
        } else if method@ == "on_exit"@ {
            if exit_seen {
                Err(ON_EXIT_TWICE@)
            } else {
                match single_target(args@) {
                    Ok((template, raw_args)) => with_hooks(
                        peeled_from(*receiver, cont, true),
                        seq![HookSpecView { when: HookWhenView::Exit, template, raw_args }],
                    ),
                    Err(m) => Err(m),
                }
            }
        } else if method@ == "hook_if"@ {
            match hook_entries(args@) {
                Ok(hooks) => with_hooks(peeled_from(*receiver, cont, exit_seen), hooks),
                Err(m) => Err(m),
            }
        } else {
            match phase_of(method@) {
                Some(when) => match single_target(args@) {
                    Ok((template, raw_args)) => with_hooks(
                        peeled_from(*receiver, cont, exit_seen),
                        seq![HookSpecView { when, template, raw_args }],
                    ),
                    Err(m) => Err(m),
                },
                None => Ok((e, NodeOptsView { continue_on: cont, hooks: Seq::empty() })),
            }
        },
        _ => Ok((e, NodeOptsView { continue_on: cont, hooks: Seq::empty() })),
    }
}

/// The expression under the builders of `e`, and what the builders ask for.
/// Hooks stand in the order in which they are written.
pub open spec fn peeled(e: Expr) -> Result<(Expr, NodeOptsView), Seq<char>> {
    peeled_from(e, None, false)
}

pub open spec fn peel_agrees<'a>(
    r: Result<(&'a Expr, NodeOpts<'a>), String>,
    s: Result<(Expr, NodeOptsView), Seq<char>>,
) -> bool {
    match (r, s) {
        (Ok((e, o)), Ok((ev, ov))) => *e == ev && o.deep_view() == ov,
        (Err(m), Err(n)) => m@ == n,
        _ => false,
    }
}

fn push_hook<'a>(
    r: Result<(&'a Expr, NodeOpts<'a>), String>,
    h: HookSpec<'a>,
) -> (out: Result<(&'a Expr, NodeOpts<'a>), String>)
    ensures
        forall|s: Result<(Expr, NodeOptsView), Seq<char>>| #[trigger]
            peel_agrees(r, s) ==> peel_agrees(out, with_hooks(s, seq![h.deep_view()])),
{
    match r {
        Ok((e, opts)) => {
            let mut hooks = opts.hooks;
            let ghost before = hooks.deep_view();
            let ghost hv = h.deep_view();
            hooks.push(h);
            proof {
                assert(hooks.deep_view() =~= before + seq![hv]);
            }
            Ok((e, NodeOpts { continue_on: opts.continue_on, hooks }))
        },
        Err(m) => Err(m),
    }
}

fn push_hooks<'a>(
    r: Result<(&'a Expr, NodeOpts<'a>), String>,
    hs: Vec<HookSpec<'a>>,
) -> (out: Result<(&'a Expr, NodeOpts<'a>), String>)
    ensures
        forall|s: Result<(Expr, NodeOptsView), Seq<char>>| #[trigger]
            peel_agrees(r, s) ==> peel_agrees(out, with_hooks(s, hs.deep_view())),
{
    match r {
        Ok((e, opts)) => {
            let mut hooks = opts.hooks;
            let mut hs = hs;
            let ghost start = hooks.deep_view();
            let ghost all = hs.deep_view();
            hooks.append(&mut hs);
            proof {
                assert(hooks.deep_view() =~= start + all);
            }
            Ok((e, NodeOpts { continue_on: opts.continue_on, hooks }))
        },
        Err(m) => Err(m),
    }
}

fn peel_from<'a>(e: &'a Expr, cont: Option<(bool, bool)>, exit_seen: bool) -> (r: Result<
    (&'a Expr, NodeOpts<'a>),
    String,
>)
    ensures
        peel_agrees(r, peeled_from(*e, cont, exit_seen)),
    decreases *e,
{
    proof {
        lemma_core(*e);
    }
    match unwrap_expr(e) {
        Expr::MethodCall { receiver, method, args } => {
            if str_eq(method.as_str(), "continue_on") {
                if cont.is_some() {
                    return Err(CONTINUE_ON_TWICE.to_owned());
                }
                return match continue_flags(args) {
                    Ok(c) => peel_from(receiver, Some(c), exit_seen),
                    Err(m) => Err(m),
                };
            }
            if str_eq(method.as_str(), "on_exit") {
                if exit_seen {
                    return Err(ON_EXIT_TWICE.to_owned());
                }
                return match single_hook_target(args) {
                    Ok((template, raw_args)) => {
                        let rest = peel_from(receiver, cont, true);
                        push_hook(rest, HookSpec { when: HookWhen::Exit, template, raw_args })
                    },
                    Err(m) => Err(m),
                };
            }
            if str_eq(method.as_str(), "hook_if") {
                return match hook_if_entries(args) {
                    Ok(hooks) => {
                        let rest = peel_from(receiver, cont, exit_seen);
                        push_hooks(rest, hooks)
                    },
                    Err(m) => Err(m),
                };
            }
            match phase(method.as_str()) {
                Some(when) => match single_hook_target(args) {
                    Ok((template, raw_args)) => {
                        let rest = peel_from(receiver, cont, exit_seen);
                        push_hook(rest, HookSpec { when, template, raw_args })
                    },
                    Err(m) => Err(m),
                },
                None => {
                    let hooks: Vec<HookSpec> = Vec::new();
                    proof {
                        assert(hooks.deep_view() =~= Seq::<HookSpecView>::empty());
                    }
                    Ok((e, NodeOpts { continue_on: cont, hooks }))
                },
            }
        },
        _ => {
            let hooks: Vec<HookSpec> = Vec::new();
            proof {
                assert(hooks.deep_view() =~= Seq::<HookSpecView>::empty());
            }
            Ok((e, NodeOpts { continue_on: cont, hooks }))
        },
    }
}

/// Takes the builders `.continue_on`, `.on_exit`, `.on_success`, `.on_failure`,
/// `.on_error` and `.hook_if` off `e`. Another method ends the chain; a
/// malformed builder is refused. What is left keeps its brackets.
pub fn peel_builders<'a>(e: &'a Expr) -> (r: Result<(&'a Expr, NodeOpts<'a>), String>)
    ensures
        peel_agrees(r, peeled(*e)),
{
    peel_from(e, None, false)
}

// ---- task names ---------------------------------------------------------------
/// The `n`-th candidate for a task's name.
pub open spec fn candidate(k: Seq<char>, n: nat) -> Seq<char> {
    if n == 1 {
        k
    } else {
        k + "-"@ + dec(n)
    }
}

/// Whether the `n`-th candidate is free and every earlier one is taken.
pub open spec fn first_free(used: Seq<Seq<char>>, k: Seq<char>, n: nat) -> bool {
    &&& n >= 1
    &&& !used.contains(candidate(k, n))
    &&& forall|m: nat| 1 <= m < n ==> used.contains(#[trigger] candidate(k, m))
}

/// The name that a task called `base` gets beside the tasks `used`: its kebab
/// form, or that with the least free number from 2 on.
pub open spec fn unique_name(used: Seq<Seq<char>>, base: Seq<char>) -> Seq<char> {
    candidate(kebab_of(base), choose|n: nat| first_free(used, kebab_of(base), n))
}

pub proof fn lemma_dec_value(n: nat)
    ensures
        dec_value(dec(n)) == n,
        dec(n).len() > 0,
    decreases n,
{
    if n >= 10 {
        lemma_dec_value(n / 10);
        assert(dec(n).drop_last() =~= dec(n / 10));
        assert(dec(n).last() == digit_char(n % 10));
    } else {
        assert(dec(n).drop_last() =~= Seq::<char>::empty());
        assert(dec_value(Seq::<char>::empty()) == 0);
        assert(dec(n).last() == digit_char(n));
    }
}

proof fn lemma_candidates_differ(k: Seq<char>, a: nat, b: nat)
    requires
        1 <= a < b,
    ensures
        candidate(k, a) != candidate(k, b),
{
    lemma_dec_value(a);
    lemma_dec_value(b);
    if a == 1 {
        assert(candidate(k, b).len() > k.len());
    } else if candidate(k, a) == candidate(k, b) {
        let n = (k + "-"@).len() as int;
        let x = candidate(k, a);
        let y = candidate(k, b);
        assert(x.skip(n) =~= dec(a));
        assert(y.skip(n) =~= dec(b));
    }
}

/// As long as every candidate before the `n`-th is taken, `n` is at most one
/// more than the number of tasks.
proof fn lemma_candidates_taken(used: Seq<Seq<char>>, k: Seq<char>, n: nat)
    requires
        n >= 1,
        forall|m: nat| 1 <= m < n ==> used.contains(#[trigger] candidate(k, m)),
    ensures
        n <= used.len() + 1,
{
    let s = Seq::new((n - 1) as nat, |i: int| candidate(k, (i + 1) as nat));
    assert forall|i: int, j: int| 0 <= i < s.len() && 0 <= j < s.len() && i != j implies s[i]
        != s[j] by {
        if i < j {
            lemma_candidates_differ(k, (i + 1) as nat, (j + 1) as nat);
        } else {
            lemma_candidates_differ(k, (j + 1) as nat, (i + 1) as nat);
        }
    }
    s.unique_seq_to_set();
    used.lemma_cardinality_of_set();
    assert forall|x: Seq<char>| s.to_set().contains(x) implies used.to_set().contains(x) by {
        let i = choose|i: int| 0 <= i < s.len() && s[i] == x;
        assert(used.contains(candidate(k, (i + 1) as nat)));
    }
    vstd::seq_lib::seq_to_set_is_finite(used);
    vstd::set_lib::lemma_len_subset(s.to_set(), used.to_set());
}

proof fn lemma_first_free(used: Seq<Seq<char>>, k: Seq<char>, n: nat)
    requires
        first_free(used, k, n),
    ensures
        (choose|m: nat| first_free(used, k, m)) == n,
{
    let c = choose|m: nat| first_free(used, k, m);
    assert(first_free(used, k, c));
    if c < n {
        assert(used.contains(candidate(k, c)));
    } else if n < c {
        assert(used.contains(candidate(k, n)));
    }
}

/// Every task name that is handed out is free: names are distinct within a
/// workflow.
pub proof fn law_unique_name_is_free(used: Seq<Seq<char>>, base: Seq<char>)
    ensures
        !used.contains(unique_name(used, base)),
{
    let k = kebab_of(base);
    lemma_some_free(used, k, 1);
    let n = choose|n: nat| first_free(used, k, n);
    assert(first_free(used, k, n));
}

pub proof fn lemma_some_free(used: Seq<Seq<char>>, k: Seq<char>, n: nat)
    requires
        n >= 1,
        forall|m: nat| 1 <= m < n ==> used.contains(#[trigger] candidate(k, m)),
    ensures
        exists|m: nat| first_free(used, k, m),
    decreases used.len() + 2 - n,
{
    lemma_candidates_taken(used, k, n);
    if used.contains(candidate(k, n)) {
        assert forall|m: nat| 1 <= m < n + 1 implies used.contains(#[trigger] candidate(k, m)) by {
            if m == n {
                assert(used.contains(candidate(k, n)));
            }
        }
        lemma_candidates_taken(used, k, n + 1);
        lemma_some_free(used, k, n + 1);
    } else {
        assert(first_free(used, k, n));
    }
}

/// Hands out a task name that is not used yet, and marks it as used.
pub fn uniq_task(used: &mut Vec<String>, base: &str) -> (r: String)
    ensures
        r@ == unique_name(old(used).deep_view(), base@),
        final(used).deep_view() == old(used).deep_view().push(r@),
{
    let k: String = kebab(base);
    let ghost all = used.deep_view();
    let mut n: u128 = 1;
    let mut task: String = k.clone();
    let len: usize = used.len();
    while has_str(used, task.as_str())
        invariant
            used.deep_view() == all,
            len == all.len(),
            k@ == kebab_of(base@),
            1 <= n <= len + 1,
            task@ == candidate(k@, n as nat),
            forall|m: nat| 1 <= m < n ==> all.contains(#[trigger] candidate(k@, m)),
        decreases len + 1 - n,
    {
        proof {
            assert forall|m: nat| 1 <= m < n + 1 implies all.contains(
                #[trigger] candidate(k@, m),
            ) by {
                if m == n {
                    assert(all.contains(candidate(k@, n as nat)));
                }
            }
            lemma_candidates_taken(all, k@, (n + 1) as nat);
        }
        n = n + 1;
        let d: String = decimal(n);
        task = cat3(k.as_str(), "-", d.as_str());
    }
    proof {
        assert(first_free(all, k@, n as nat));
        lemma_first_free(all, k@, n as nat);
    }
    used.push(task.clone());
    proof {
        assert(used.deep_view() =~= all.push(task@));
    }
    task
}

// ---- calls ----------------------------------------------------------------------
/// What recording a call gives: the name of its task, and the names and the
/// tasks after it.
#[verifier::ext_equal]
pub struct Pushed {
    pub task: Seq<char>,
    pub used: Seq<Seq<char>>,
    pub nodes: Seq<NodeView>,
}

/// The arguments of a call, and the names and the tasks after them.
#[verifier::ext_equal]
pub struct ArgsDone {
    pub args: Seq<ArgView>,
    pub used: Seq<Seq<char>>,
    pub nodes: Seq<NodeView>,
}

pub open spec fn arg_fn(
    item: Option<Seq<char>>,
    b: Scope,
    ins: Seq<Seq<char>>,
) -> spec_fn(Expr) -> Result<ArgView, Seq<char>> {
    |e: Expr| resolved_arg(e, item, b, ins)
}

pub open spec fn hook_of(
    h: HookSpecView,
    item: Option<Seq<char>>,
    b: Scope,
    ins: Seq<Seq<char>>,
) -> Result<HookView, Seq<char>> {
    match map_res(h.raw_args, arg_fn(item, b, ins)) {
        Ok(args) => Ok(HookView { when: h.when, template: h.template, args }),
        Err(m) => Err(m),
    }
}

pub open spec fn hook_fn(
    item: Option<Seq<char>>,
    b: Scope,
    ins: Seq<Seq<char>>,
) -> spec_fn(HookSpecView) -> Result<HookView, Seq<char>> {
    |h: HookSpecView| hook_of(h, item, b, ins)
}

/// The first `n` arguments of a call. Outside a fan-out, an argument that is
/// itself a template call becomes a task of its own, and the argument refers to
/// it.
pub open spec fn args_upto(
    raw: Seq<Expr>,
    n: nat,
    item: Option<Seq<char>>,
    used: Seq<Seq<char>>,
    nodes: Seq<NodeView>,
    b: Scope,
    ins: Seq<Seq<char>>,
) -> Result<ArgsDone, Seq<char>>
    decreases raw, n,
{
    if n == 0 || n > raw.len() {
        Ok(ArgsDone { args: Seq::empty(), used, nodes })
    } else {
        proof {
            lemma_call(raw[n - 1]);
        }
        match args_upto(raw, (n - 1) as nat, item, used, nodes, b, ins) {
            Err(m) => Err(m),
            Ok(done) => match (item, call_of(raw[n - 1])) {
                (None, Some((callee, inner))) => match push_of(
                    callee.deep_view(),
                    inner,
                    callee.deep_view().leaf(),
                    NodeOptsView::empty(),
                    None,
                    None,
                    done.used,
                    done.nodes,
                    b,
                    ins,
                ) {
                    Ok(p) => Ok(
                        ArgsDone {
                            args: done.args.push(ArgView::Ref(p.task)),
                            used: p.used,
                            nodes: p.nodes,
                        },
                    ),
                    Err(m) => Err(m),
                },
                _ => match resolved_arg(raw[n - 1], item, b, ins) {
                    Ok(a) => Ok(
                        ArgsDone { args: done.args.push(a), used: done.used, nodes: done.nodes },
                    ),
                    Err(m) => Err(m),
                },
            },
        }
    }
}

/// Recording the call `callee(raw…)` as a task named after `base`.
pub open spec fn push_of(
    callee: PathView,
    raw: Seq<Expr>,
    base: Seq<char>,
    opts: NodeOptsView,
    item: Option<Seq<char>>,
    fan: Option<FanSrcView>,
    used: Seq<Seq<char>>,
    nodes: Seq<NodeView>,
    b: Scope,
    ins: Seq<Seq<char>>,
) -> Result<Pushed, Seq<char>>
    decreases raw, raw.len() + 1,
{
    let task = unique_name(used, base);
    match args_upto(raw, raw.len(), item, used.push(task), nodes, b, ins) {
        Err(m) => Err(m),
        Ok(done) => match map_res(opts.hooks, hook_fn(item, b, ins)) {
            Err(m) => Err(m),
            Ok(hooks) => Ok(
                Pushed {
                    task,
                    used: done.used,
                    nodes: done.nodes.push(
                        NodeView {
                            task,
                            callee,
                            args: done.args,
                            continue_on: opts.continue_on,
                            hooks,
                            fan,
                            when: None,
                        },
                    ),
                },
            ),
        },
    }
}

proof fn lemma_args_err(
    raw: Seq<Expr>,
    i: nat,
    n: nat,
    item: Option<Seq<char>>,
    used: Seq<Seq<char>>,
    nodes: Seq<NodeView>,
    b: Scope,
    ins: Seq<Seq<char>>,
)
    requires
        i <= n <= raw.len(),
        args_upto(raw, i, item, used, nodes, b, ins) is Err,
    ensures
        args_upto(raw, n, item, used, nodes, b, ins) == args_upto(
            raw,
            i,
            item,
            used,
            nodes,
            b,
            ins,
        ),
    decreases n,
{
    if i < n {
        lemma_args_err(raw, i, (n - 1) as nat, item, used, nodes, b, ins);
    }
}

/// The short name of a callee: its last segment.
pub fn path_leaf(p: &Path) -> (r: String)
    ensures
        r@ == p.deep_view().leaf(),
{
    if p.segments.len() > 0 {
        p.segments[p.segments.len() - 1].clone()
    } else {
        "task".to_owned()
    }
}

fn resolve_args(
    raw: &Vec<Expr>,
    item: Option<&str>,
    bindings: &TextMap<String>,
    inputs: &Vec<String>,
) -> (r: Result<Vec<Arg>, String>)
    ensures
        agrees(
            r,
            map_res(raw@, arg_fn(opt_view(item), bindings.deep_view(), inputs.deep_view())),
        ),
{
    let ghost f = arg_fn(opt_view(item), bindings.deep_view(), inputs.deep_view());
    let mut out: Vec<Arg> = Vec::new();
    let mut i: usize = 0;
    proof {
        lemma_map_res_all(raw@, f);
        assert(out.deep_view() =~= Seq::<ArgView>::empty());
    }
    while i < raw.len()
        invariant
            f == arg_fn(opt_view(item), bindings.deep_view(), inputs.deep_view()),
            i <= raw@.len(),
            map_res(raw@.take(i as int), f) == Ok::<Seq<ArgView>, Seq<char>>(out.deep_view()),
        decreases raw@.len() - i,
    {
        proof {
            lemma_map_res_step(raw@, f, i as int);
        }
        let ghost before = out.deep_view();
        match resolve_arg(&raw[i], item, bindings, inputs) {
            Ok(a) => {
                let ghost av = a.deep_view();
                out.push(a);
                proof {
                    assert(out.deep_view() =~= before.push(av));
                }
            },
            Err(m) => {
                return Err(m);
            },
        }
        i = i + 1;
    }
    proof {
        lemma_map_res_all(raw@, f);
    }
    Ok(out)
}

fn resolve_hook(
    h: &HookSpec,
    item: Option<&str>,
    bindings: &TextMap<String>,
    inputs: &Vec<String>,
) -> (r: Result<Hook, String>)
    ensures
        agrees(
            r,
            hook_of(h.deep_view(), opt_view(item), bindings.deep_view(), inputs.deep_view()),
        ),
{
    let args: Vec<Arg> = match h.raw_args {
        Some(raw) => match resolve_args(raw, item, bindings, inputs) {
            Ok(a) => a,
            Err(m) => {
                return Err(m);
            },
        },
        None => {
            let a: Vec<Arg> = Vec::new();
            proof {
                assert(a.deep_view() =~= Seq::<ArgView>::empty());
            }
            a
        },
    };
    Ok(Hook { when: h.when.copy(), template: h.template.dup(), args })
}

fn resolve_hooks(
    hooks: &Vec<HookSpec>,
    item: Option<&str>,
    bindings: &TextMap<String>,
    inputs: &Vec<String>,
) -> (r: Result<Vec<Hook>, String>)
    ensures
        agrees(
            r,
            map_res(
                hooks.deep_view(),
                hook_fn(opt_view(item), bindings.deep_view(), inputs.deep_view()),
            ),
        ),
{
    let ghost f = hook_fn(opt_view(item), bindings.deep_view(), inputs.deep_view());
    let ghost all = hooks.deep_view();
    let mut out: Vec<Hook> = Vec::new();
    let mut i: usize = 0;
    proof {
        lemma_map_res_all(all, f);
        assert(out.deep_view() =~= Seq::<HookView>::empty());
    }
    while i < hooks.len()
        invariant
            f == hook_fn(opt_view(item), bindings.deep_view(), inputs.deep_view()),
            all == hooks.deep_view(),
            i <= hooks@.len(),
            map_res(all.take(i as int), f) == Ok::<Seq<HookView>, Seq<char>>(out.deep_view()),
        decreases hooks@.len() - i,
    {
        proof {
            lemma_map_res_step(all, f, i as int);
        }
        let ghost before = out.deep_view();
        match resolve_hook(&hooks[i], item, bindings, inputs) {
            Ok(a) => {
                let ghost av = a.deep_view();
                out.push(a);
                proof {
                    assert(out.deep_view() =~= before.push(av));
                }
            },
            Err(m) => {
                return Err(m);
            },
        }
        i = i + 1;
    }
    proof {
        lemma_map_res_all(all, f);
    }
    Ok(out)
}

/// Records a call as a task, the template calls among its arguments before it,
/// and returns the task's name.
pub fn push_call(
    callee: &Path,
    raw: &Vec<Expr>,
    base: &str,
    opts: &NodeOpts,
    item: Option<&str>,
    fan: Option<FanSrc>,
    used: &mut Vec<String>,
    nodes: &mut Vec<Node>,
    bindings: &TextMap<String>,
    inputs: &Vec<String>,
) -> (r: Result<String, String>)
    ensures
        match (
            r,
            push_of(
                callee.deep_view(),
                raw@,
                base@,
                opts.deep_view(),
                opt_view(item),
                fan.deep_view(),
                old(used).deep_view(),
                old(nodes).deep_view(),
                bindings.deep_view(),
                inputs.deep_view(),
            ),
        ) {
            (Ok(t), Ok(p)) => {
                &&& t@ == p.task
                &&& final(used).deep_view() == p.used
                &&& final(nodes).deep_view() == p.nodes
            },
            (Err(m), Err(n)) => m@ == n,
            _ => false,
        },
    decreases raw@,
{
    let ghost b = bindings.deep_view();
    let ghost ins = inputs.deep_view();
    let ghost it = opt_view(item);
    let ghost nodes0 = nodes.deep_view();
    let task: String = uniq_task(used, base);
    let ghost used1 = used.deep_view();
    let mut args: Vec<Arg> = Vec::new();
    let mut i: usize = 0;
    proof {
        assert(args.deep_view() =~= Seq::<ArgView>::empty());
    }
    while i < raw.len()
        invariant
            b == bindings.deep_view(),
            ins == inputs.deep_view(),
            it == opt_view(item),
            used1 == old(used).deep_view().push(unique_name(old(used).deep_view(), base@)),
            nodes0 == old(nodes).deep_view(),
            i <= raw@.len(),
            args_upto(raw@, i as nat, it, used1, nodes0, b, ins) == Ok::<ArgsDone, Seq<char>>(
                ArgsDone {
                    args: args.deep_view(),
                    used: used.deep_view(),
                    nodes: nodes.deep_view(),
                },
            ),
        decreases raw@.len() - i,
    {
        let ghost before = args.deep_view();
        let inner = if item.is_none() {
            call_parts(&raw[i])
        } else {
            None
        };
        let a: Arg = match inner {
            Some((c2, r2)) => {
                proof {
                    lemma_call(raw@[i as int]);
                }
                let leaf: String = path_leaf(c2);
                let hooks: Vec<HookSpec> = Vec::new();
                proof {
                    assert(hooks.deep_view() =~= Seq::<HookSpecView>::empty());
                }
                let none: NodeOpts = NodeOpts { continue_on: None, hooks };
                match push_call(
                    c2,
                    r2,
                    leaf.as_str(),
                    &none,
                    None,
                    None,
                    used,
                    nodes,
                    bindings,
                    inputs,
                ) {
                    Ok(t) => Arg::Ref(t),
                    Err(m) => {
                        proof {
                            lemma_args_err(
                                raw@,
                                (i + 1) as nat,
                                raw@.len(),
                                it,
                                used1,
                                nodes0,
                                b,
                                ins,
                            );
                        }
                        return Err(m);
                    },
                }
            },
            None => match resolve_arg(&raw[i], item, bindings, inputs) {
                Ok(a) => a,
                Err(m) => {
                    proof {
                        lemma_args_err(
                            raw@,
                            (i + 1) as nat,
                            raw@.len(),
                            it,
                            used1,
                            nodes0,
                            b,
                            ins,
                        );
                    }
                    return Err(m);
                },
            },
        };
        let ghost av = a.deep_view();
        args.push(a);
        i = i + 1;
        proof {
            assert(args.deep_view() =~= before.push(av));
        }
    }
    match resolve_hooks(&opts.hooks, item, bindings, inputs) {
        Ok(hooks) => {
            let ghost before = nodes.deep_view();
            let node: Node = Node {
                task: task.clone(),
                callee: callee.dup(),
                args,
                continue_on: opts.continue_on,
                hooks,
                fan,
                when: None,
            };
            let ghost nv = node.deep_view();
            nodes.push(node);
            proof {
                assert(nodes.deep_view() =~= before.push(nv));
            }
            Ok(task)
        },
        Err(m) => Err(m),
    }
}

} // verus!
