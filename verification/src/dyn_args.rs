//! The options that `cargo athena submit` has for one template, and the values
//! they give.

use crate::emulate::{
    add_pairs, file_values, read_input_file, with_pairs_given, FileText, FileTextView, Values,
};
use crate::folds::{lemma_map_res_all, lemma_map_res_step, map_res};
use crate::json::{Json, JsonView};
use crate::maps::{Data, TextMap};
use crate::node::agrees;
use crate::outside::{
    bool_error, debug_str, debug_text, i64_error, int_text, json_facts, lowercase_letter,
    parse_bool, parse_i64, parse_u64_text, read_json, small_form, to_small, u64_error, uint_text,
    uppercase,
};
use crate::text::{
    after_prefix, before_suffix, cat2, cat3, cat4, cat5, chars_of, digit, has_prefix, has_str, is_digit,
    is_space, starts_with, str_eq, strip_prefix, strip_suffix, trim, trim_by,
};
use vstd::prelude::*;

verus! {

// ---- types ---------------------------------------------------------------------------------
/// A scalar that an option can take.
#[derive(Clone, Copy, PartialEq, Eq, Debug, Structural)]
pub enum Scalar {
    Str,
    Int,
    Uint,
    Float,
    Bool,
}

pub open spec fn label_of(s: Scalar) -> Seq<char> {
    match s {
        Scalar::Str => "STRING"@,
        Scalar::Int => "INT"@,
        Scalar::Uint => "UINT"@,
        Scalar::Float => "FLOAT"@,
        Scalar::Bool => "true|false"@,
    }
}

impl Scalar {
    /// What stands for a value of it in a help text.
    pub fn label(self) -> (r: &'static str)
        ensures
            r@ == label_of(self),
    {
        match self {
            Scalar::Str => "STRING",
            Scalar::Int => "INT",
            Scalar::Uint => "UINT",
            Scalar::Float => "FLOAT",
            Scalar::Bool => "true|false",
        }
    }
}

/// What an option for a parameter takes.
#[derive(Clone, Copy, PartialEq, Eq, Debug, Structural)]
pub enum Kind {
    Text,
    Integer,
    Float,
    Bool,
    /// A list of scalars, one for each time the option is given.
    VecOf(Scalar),
    /// Any other type: JSON, or a file that holds it.
    Json,
}

/// The scalar that a type is.
pub open spec fn scalar_of(ty: Seq<char>) -> Option<Scalar> {
    let t = trim_by(ty, is_space());
    if t == "String"@ || t == "&str"@ || t == "&'static str"@ {
        Some(Scalar::Str)
    } else if t == "i8"@ || t == "i16"@ || t == "i32"@ || t == "i64"@ || t == "i128"@ || t
        == "isize"@ {
        Some(Scalar::Int)
    } else if t == "u8"@ || t == "u16"@ || t == "u32"@ || t == "u64"@ || t == "u128"@ || t
        == "usize"@ {
        Some(Scalar::Uint)
    } else if t == "f32"@ || t == "f64"@ {
        Some(Scalar::Float)
    } else if t == "bool"@ {
        Some(Scalar::Bool)
    } else {
        None
    }
}

/// The scalar that a type is.
pub fn scalar_for(ty: &str) -> (r: Option<Scalar>)
    ensures
        r == scalar_of(ty@),
{
    let trimmed: String = trim(ty);
    let t: &str = trimmed.as_str();
    if str_eq(t, "String") || str_eq(t, "&str") || str_eq(t, "&'static str") {
        Some(Scalar::Str)
    } else if str_eq(t, "i8") || str_eq(t, "i16") || str_eq(t, "i32") || str_eq(t, "i64")
        || str_eq(t, "i128") || str_eq(t, "isize") {
        Some(Scalar::Int)
    } else if str_eq(t, "u8") || str_eq(t, "u16") || str_eq(t, "u32") || str_eq(t, "u64")
        || str_eq(t, "u128") || str_eq(t, "usize") {
        Some(Scalar::Uint)
    } else if str_eq(t, "f32") || str_eq(t, "f64") {
        Some(Scalar::Float)
    } else if str_eq(t, "bool") {
        Some(Scalar::Bool)
    } else {
        None
    }
}

/// What a type is a `wrapper` of.
pub open spec fn unwrapped(ty: Seq<char>, wrapper: Seq<char>) -> Option<Seq<char>> {
    match after_prefix(trim_by(ty, is_space()), wrapper + "<"@) {
        Some(rest) => match before_suffix(rest, ">"@) {
            Some(inner) => Some(trim_by(inner, is_space())),
            None => None,
        },
        None => None,
    }
}

/// What a type is a `wrapper` of.
pub fn unwrap1(ty: &str, wrapper: &str) -> (r: Option<String>)
    ensures
        r.deep_view() == unwrapped(ty@, wrapper@),
{
    let t: String = trim(ty);
    let prefix: String = cat2(wrapper, "<");
    match strip_prefix(t.as_str(), prefix.as_str()) {
        Some(rest) => match strip_suffix(rest.as_str(), ">") {
            Some(inner) => Some(trim(inner.as_str())),
            None => None,
        },
        None => None,
    }
}

pub open spec fn kind_of_scalar(s: Scalar) -> Kind {
    match s {
        Scalar::Str => Kind::Text,
        Scalar::Int => Kind::Integer,
        Scalar::Uint => Kind::Integer,
        Scalar::Float => Kind::Float,
        Scalar::Bool => Kind::Bool,
    }
}

/// What an option for a parameter of this type takes.
pub open spec fn kind_of(ty: Seq<char>) -> Kind {
    match scalar_of(ty) {
        Some(s) => kind_of_scalar(s),
        None => match opt_scalar(unwrapped(ty, "Option"@)) {
            Some(s) => kind_of_scalar(s),
            None => match opt_scalar(unwrapped(ty, "Vec"@)) {
                Some(s) => Kind::VecOf(s),
                None => Kind::Json,
            },
        },
    }
}

pub open spec fn opt_scalar(inner: Option<Seq<char>>) -> Option<Scalar> {
    match inner {
        Some(t) => scalar_of(t),
        None => None,
    }
}

fn scalar_kind(s: Scalar) -> (r: Kind)
    ensures
        r == kind_of_scalar(s),
{
    match s {
        Scalar::Str => Kind::Text,
        Scalar::Int => Kind::Integer,
        Scalar::Uint => Kind::Integer,
        Scalar::Float => Kind::Float,
        Scalar::Bool => Kind::Bool,
    }
}

fn inner_scalar(ty: &str, wrapper: &str) -> (r: Option<Scalar>)
    ensures
        r == opt_scalar(unwrapped(ty@, wrapper@)),
{
    match unwrap1(ty, wrapper) {
        Some(t) => scalar_for(t.as_str()),
        None => None,
    }
}

/// What an option for a parameter of this type takes.
pub fn classify(ty: &str) -> (r: Kind)
    ensures
        r == kind_of(ty@),
{
    match scalar_for(ty) {
        Some(s) => scalar_kind(s),
        None => match inner_scalar(ty, "Option") {
            Some(s) => scalar_kind(s),
            None => match inner_scalar(ty, "Vec") {
                Some(s) => Kind::VecOf(s),
                None => Kind::Json,
            },
        },
    }
}

// ---- names ----------------------------------------------------------------------------------
/// Whether a capital letter at `i` starts a word: a small letter or a digit stands
/// before it.
pub open spec fn starts_word(s: Seq<char>, i: int) -> bool {
    0 < i && s[i - 1] != '_' && !uppercase(s[i - 1]) && (lowercase_letter(s[i - 1]) || is_digit(
        s[i - 1],
    ))
}

/// What the letter at `i` becomes: a dash for `_`, a small letter for a capital one,
/// behind a dash where it starts a word.
pub open spec fn flag_piece(s: Seq<char>, i: int) -> Seq<char> {
    if s[i] == '_' {
        seq!['-']
    } else if uppercase(s[i]) {
        if starts_word(s, i) {
            seq!['-'] + small_form(s[i])
        } else {
            small_form(s[i])
        }
    } else {
        seq![s[i]]
    }
}

/// What the first `n` letters become, one after the other.
pub open spec fn flag_pieces(s: Seq<char>, n: int) -> Seq<char>
    decreases n,
{
    if n <= 0 {
        Seq::empty()
    } else {
        flag_pieces(s, n - 1) + flag_piece(s, n - 1)
    }
}

/// The option of a parameter: `top-n` for `top_n` and for `topN`.
pub open spec fn flag_of(s: Seq<char>) -> Seq<char> {
    flag_pieces(s, s.len() as int)
}

/// The option of a parameter: `top-n` for `top_n` and for `topN`.
pub fn kebab(name: &str) -> (r: String)
    ensures
        r@ == flag_of(name@),
{
    let v: Vec<char> = chars_of(name);
    let mut out: String = String::new();
    let mut word: bool = false;
    let mut i: usize = 0;
    proof {
        assert(out@ =~= Seq::<char>::empty());
    }
    while i < v.len()
        invariant
            v@ == name@,
            i <= v@.len(),
            out@ == flag_pieces(v@, i as int),
            word == starts_word(v@, i as int),
        decreases v@.len() - i,
    {
        let c: char = v[i];
        let ghost before = out@;
        if c == '_' {
            out.push('-');
            word = false;
        } else if c.is_uppercase() {
            if word {
                out.push('-');
            }
            let low: String = to_small(c);
            out.append(low.as_str());
            word = false;
        } else {
            out.push(c);
            word = c.is_lowercase() || digit(c);
        }
        proof {
            assert(out@ =~= before + flag_piece(v@, i as int));
        }
        i = i + 1;
    }
    out
}

// ---- the command -------------------------------------------------------------------------------
/// How often an option may be given, and whether it takes a value.
#[derive(Clone, Copy, PartialEq, Eq, Debug, Structural)]
pub enum Mode {
    One,
    Many,
    Flag,
}

/// One option of a command.
pub struct ArgPlan {
    pub id: String,
    pub short: Option<char>,
    pub long: String,
    pub value_name: Option<String>,
    pub mode: Mode,
    /// Whether the value is a 32-bit integer.
    pub integer: bool,
    pub help: String,
    pub conflicts: Option<String>,
}

#[verifier::ext_equal]
pub struct ArgPlanView {
    pub id: Seq<char>,
    pub short: Option<char>,
    pub long: Seq<char>,
    pub value_name: Option<Seq<char>>,
    pub mode: Mode,
    pub integer: bool,
    pub help: Seq<char>,
    pub conflicts: Option<Seq<char>>,
}

impl DeepView for ArgPlan {
    type V = ArgPlanView;

    open spec fn deep_view(&self) -> ArgPlanView {
        ArgPlanView {
            id: self.id@,
            short: self.short,
            long: self.long@,
            value_name: self.value_name.deep_view(),
            mode: self.mode,
            integer: self.integer,
            help: self.help@,
            conflicts: self.conflicts.deep_view(),
        }
    }
}

/// The option of one parameter.
pub struct DynArg {
    pub name: String,
    pub flag: String,
    /// Where the value may stand in a file: the option that names it.
    pub from_file: Option<String>,
    pub rust_type: String,
    pub kind: Kind,
}

#[verifier::ext_equal]
pub struct DynArgView {
    pub name: Seq<char>,
    pub flag: Seq<char>,
    pub from_file: Option<Seq<char>>,
    pub rust_type: Seq<char>,
    pub kind: Kind,
}

impl DeepView for DynArg {
    type V = DynArgView;

    open spec fn deep_view(&self) -> DynArgView {
        DynArgView {
            name: self.name@,
            flag: self.flag@,
            from_file: self.from_file.deep_view(),
            rust_type: self.rust_type@,
            kind: self.kind,
        }
    }
}

pub open spec fn value_name_of(k: Kind) -> Seq<char> {
    match k {
        Kind::Text => "STRING"@,
        Kind::Integer => "INT"@,
        Kind::Float => "FLOAT"@,
        Kind::Bool => "true|false"@,
        Kind::VecOf(s) => label_of(s),
        Kind::Json => "JSON"@,
    }
}

pub open spec fn file_id(name: Seq<char>) -> Seq<char> {
    "__"@ + name + "_from_file"@
}

/// The option of a parameter, as it is looked up later.
pub open spec fn dyn_arg_of(p: (Seq<char>, Seq<char>)) -> DynArgView {
    DynArgView {
        name: p.0,
        flag: flag_of(p.0),
        from_file: if kind_of(p.1) == Kind::Json {
            Some(file_id(p.0))
        } else {
            None
        },
        rust_type: p.1,
        kind: kind_of(p.1),
    }
}

pub open spec fn help_of(p: (Seq<char>, Seq<char>)) -> Seq<char> {
    let head = "template arg `"@ + p.0 + ": "@ + p.1;
    match kind_of(p.1) {
        Kind::VecOf(_) => head + "` (repeat for each element)"@,
        Kind::Json => head
            + "` (non-scalar type - pass JSON, e.g. '{\"k\":\"v\"}'). For large or multi-line values, use --"@
            + (flag_of(p.0) + "-from-file instead."@),
        _ => head + "`"@,
    }
}

/// The option of a parameter on the command line.
pub open spec fn option_plan(p: (Seq<char>, Seq<char>)) -> ArgPlanView {
    ArgPlanView {
        id: p.0,
        short: None,
        long: flag_of(p.0),
        value_name: Some(value_name_of(kind_of(p.1))),
        mode: if kind_of(p.1) is VecOf {
            Mode::Many
        } else {
            Mode::One
        },
        integer: false,
        help: help_of(p),
        conflicts: None,
    }
}

/// The option that names a file with a parameter's value.
pub open spec fn file_plan(p: (Seq<char>, Seq<char>)) -> ArgPlanView {
    ArgPlanView {
        id: file_id(p.0),
        short: None,
        long: flag_of(p.0) + "-from-file"@,
        value_name: Some("PATH"@),
        mode: Mode::One,
        integer: false,
        help: "read template arg `"@ + p.0 + "` as JSON from this file"@,
        conflicts: Some(p.0),
    }
}

/// The options of the parameters.
pub open spec fn param_plans(params: Seq<(Seq<char>, Seq<char>)>) -> Seq<ArgPlanView>
    decreases params.len(),
{
    if params.len() == 0 {
        Seq::empty()
    } else {
        let front = param_plans(params.drop_last()).push(option_plan(params.last()));
        if kind_of(params.last().1) == Kind::Json {
            front.push(file_plan(params.last()))
        } else {
            front
        }
    }
}

pub open spec fn dyn_args_of(params: Seq<(Seq<char>, Seq<char>)>) -> Seq<DynArgView> {
    Seq::new(params.len(), |i: int| dyn_arg_of(params[i]))
}

/// An option that does not depend on the template.
pub open spec fn static_plan(
    id: Seq<char>,
    short: Option<char>,
    long: Seq<char>,
    value_name: Option<Seq<char>>,
    mode: Mode,
    help: Seq<char>,
) -> ArgPlanView {
    ArgPlanView {
        id,
        short,
        long,
        value_name,
        mode,
        integer: id == "priority"@,
        help,
        conflicts: None,
    }
}

/// The options that every template has.
pub open spec fn static_plans() -> Seq<ArgPlanView> {
    seq![
        static_plan("a_arg"@, Some('a'), "arg"@, Some("NAME=VALUE"@), Mode::Many, "Set one argument as `name=value` (JSON-else-string). Repeatable. Use for struct-typed args or to override."@),
        static_plan("input_file"@, None, "input-file"@, Some("FILE"@), Mode::One, "JSON object merged under `-a` (so per-arg flags / -a override it)"@),
        static_plan("package"@, Some('p'), "package"@, Some("PKG"@), Mode::One, "Cargo package to drive (else [defaults].package, else autodetect)"@),
        static_plan("bin"@, None, "bin"@, Some("BIN"@), Mode::One, "Cargo bin within the package (else [defaults].bin, else autodetect)"@),
        static_plan("namespace"@, Some('n'), "namespace"@, Some("NS"@), Mode::One, "K8s namespace ($ARGO_NAMESPACE -> [defaults].namespace -> default)"@),
        static_plan("service_account"@, None, "service-account"@, Some("SA"@), Mode::One, "ServiceAccount for the run"@),
        static_plan("node_selector"@, None, "node-selector"@, Some("K=V"@), Mode::Many, "Root-scoped nodeSelector (k=v, repeatable)"@),
        static_plan("priority"@, None, "priority"@, Some("N"@), Mode::One, "Workflow priority (int32; higher = scheduled first)"@),
        static_plan("argo_server"@, None, "argo-server"@, Some("URL"@), Mode::One, "Argo Server REST URL (else kube API)"@),
        static_plan("insecure"@, None, "insecure-skip-tls-verify"@, None, Mode::Flag, "Skip TLS verification on the Argo Server connection"@),
        static_plan("update"@, None, "update"@, None, Mode::Flag, "Re-apply every WorkflowTemplate even if unchanged"@),
        static_plan("skip_binary_check"@, None, "skip-binary-check"@, None, Mode::Flag, "Skip the pre-flight S3 HEAD on the binary tarball"@),
        static_plan("yes"@, Some('y'), "yes"@, None, Mode::Flag, "Assume yes for every prompt"@),
    ]
}

/// A command: its name, what it is about, its options, and those of them that
/// stand for parameters.
pub struct CommandPlan {
    pub name: String,
    pub about: String,
    pub args: Vec<ArgPlan>,
    pub idents: Vec<DynArg>,
}

#[verifier::ext_equal]
pub struct CommandPlanView {
    pub name: Seq<char>,
    pub about: Seq<char>,
    pub args: Seq<ArgPlanView>,
    pub idents: Seq<DynArgView>,
}

impl DeepView for CommandPlan {
    type V = CommandPlanView;

    open spec fn deep_view(&self) -> CommandPlanView {
        CommandPlanView {
            name: self.name@,
            about: self.about@,
            args: self.args.deep_view(),
            idents: self.idents.deep_view(),
        }
    }
}

pub open spec fn command_of(template: Seq<char>, params: Seq<(Seq<char>, Seq<char>)>) -> CommandPlanView {
    CommandPlanView {
        name: "cargo athena submit "@ + template,
        about: "Submit `"@ + template
            + "` to a real cluster. Function arguments appear below as typed `--<name>` flags; use `-a name=value` for any argument typed as a struct / map / other non-scalar."@,
        args: param_plans(params) + static_plans(),
        idents: dyn_args_of(params),
    }
}

fn push_plan(v: &mut Vec<ArgPlan>, p: ArgPlan)
    ensures
        final(v).deep_view() == old(v).deep_view().push(p.deep_view()),
{
    let ghost before = v.deep_view();
    let ghost pv = p.deep_view();
    v.push(p);
    proof {
        assert(v.deep_view() =~= before.push(pv));
    }
}

fn make_static(
    id: &str,
    short: Option<char>,
    long: &str,
    value: Option<&str>,
    mode: Mode,
    help: &str,
) -> (r: ArgPlan)
    ensures
        r.deep_view() == static_plan(
            id@,
            short,
            long@,
            match value {
                Some(v) => Some(v@),
                None => None,
            },
            mode,
            help@,
        ),
{
    ArgPlan {
        id: id.to_owned(),
        short,
        long: long.to_owned(),
        value_name: match value {
            Some(v) => Some(v.to_owned()),
            None => None,
        },
        mode,
        integer: str_eq(id, "priority"),
        help: help.to_owned(),
        conflicts: None,
    }
}

fn add_static(args: &mut Vec<ArgPlan>)
    ensures
        final(args).deep_view() == old(args).deep_view() + static_plans(),
{
    let ghost before = args.deep_view();
    push_plan(args, make_static("a_arg", Some('a'), "arg", Some("NAME=VALUE"), Mode::Many, "Set one argument as `name=value` (JSON-else-string). Repeatable. Use for struct-typed args or to override."));
    push_plan(args, make_static("input_file", None, "input-file", Some("FILE"), Mode::One, "JSON object merged under `-a` (so per-arg flags / -a override it)"));
    push_plan(args, make_static("package", Some('p'), "package", Some("PKG"), Mode::One, "Cargo package to drive (else [defaults].package, else autodetect)"));
    push_plan(args, make_static("bin", None, "bin", Some("BIN"), Mode::One, "Cargo bin within the package (else [defaults].bin, else autodetect)"));
    push_plan(args, make_static("namespace", Some('n'), "namespace", Some("NS"), Mode::One, "K8s namespace ($ARGO_NAMESPACE -> [defaults].namespace -> default)"));
    push_plan(args, make_static("service_account", None, "service-account", Some("SA"), Mode::One, "ServiceAccount for the run"));
    push_plan(args, make_static("node_selector", None, "node-selector", Some("K=V"), Mode::Many, "Root-scoped nodeSelector (k=v, repeatable)"));
    push_plan(args, make_static("priority", None, "priority", Some("N"), Mode::One, "Workflow priority (int32; higher = scheduled first)"));
    push_plan(args, make_static("argo_server", None, "argo-server", Some("URL"), Mode::One, "Argo Server REST URL (else kube API)"));
    push_plan(args, make_static("insecure", None, "insecure-skip-tls-verify", None, Mode::Flag, "Skip TLS verification on the Argo Server connection"));
    push_plan(args, make_static("update", None, "update", None, Mode::Flag, "Re-apply every WorkflowTemplate even if unchanged"));
    push_plan(args, make_static("skip_binary_check", None, "skip-binary-check", None, Mode::Flag, "Skip the pre-flight S3 HEAD on the binary tarball"));
    push_plan(args, make_static("yes", Some('y'), "yes", None, Mode::Flag, "Assume yes for every prompt"));
    proof {
        assert(args.deep_view() =~= before + static_plans());
    }
}

fn value_name(k: Kind) -> (r: &'static str)
    ensures
        r@ == value_name_of(k),
{
    match k {
        Kind::Text => "STRING",
        Kind::Integer => "INT",
        Kind::Float => "FLOAT",
        Kind::Bool => "true|false",
        Kind::VecOf(s) => s.label(),
        Kind::Json => "JSON",
    }
}

fn build_option(name: &String, ty: &String) -> (r: ArgPlan)
    ensures
        r.deep_view() == option_plan((name@, ty@)),
{
    let kind: Kind = classify(ty.as_str());
    let flag: String = kebab(name.as_str());
    let head: String = cat4("template arg `", name.as_str(), ": ", ty.as_str());
    let help: String = match kind {
        Kind::VecOf(_) => cat2(head.as_str(), "` (repeat for each element)"),
        Kind::Json => {
            let end: String = cat2(flag.as_str(), "-from-file instead.");
            cat3(
                head.as_str(),
                "` (non-scalar type - pass JSON, e.g. '{\"k\":\"v\"}'). For large or multi-line values, use --",
                end.as_str(),
            )
        },
        _ => cat2(head.as_str(), "`"),
    };
    let mode: Mode = match kind {
        Kind::VecOf(_) => Mode::Many,
        _ => Mode::One,
    };
    ArgPlan {
        id: name.clone(),
        short: None,
        long: flag,
        value_name: Some(value_name(kind).to_owned()),
        mode,
        integer: false,
        help,
        conflicts: None,
    }
}

fn build_file_option(name: &String) -> (r: ArgPlan)
    ensures
        forall|ty: Seq<char>| r.deep_view() == #[trigger] file_plan((name@, ty)),
{
    let flag: String = kebab(name.as_str());
    ArgPlan {
        id: cat3("__", name.as_str(), "_from_file"),
        short: None,
        long: cat2(flag.as_str(), "-from-file"),
        value_name: Some("PATH".to_owned()),
        mode: Mode::One,
        integer: false,
        help: cat3("read template arg `", name.as_str(), "` as JSON from this file"),
        conflicts: Some(name.clone()),
    }
}

/// The command that submits `template`, whose parameters and their types are
/// `params`.
pub fn build_command(template: &str, params: &Vec<(String, String)>) -> (r: CommandPlan)
    ensures
        r.deep_view() == command_of(template@, params.deep_view()),
{
    let ghost all = params.deep_view();
    let mut args: Vec<ArgPlan> = Vec::new();
    let mut idents: Vec<DynArg> = Vec::new();
    let mut i: usize = 0;
    proof {
        assert(all.take(0) =~= Seq::<(Seq<char>, Seq<char>)>::empty());
        assert(args.deep_view() =~= Seq::<ArgPlanView>::empty());
        assert(idents.deep_view() =~= dyn_args_of(all.take(0)));
    }
    while i < params.len()
        invariant
            all == params.deep_view(),
            i <= params@.len(),
            args.deep_view() == param_plans(all.take(i as int)),
            idents.deep_view() == dyn_args_of(all.take(i as int)),
        decreases params@.len() - i,
    {
        proof {
            assert(all.take(i + 1).drop_last() =~= all.take(i as int));
            assert(all.take(i + 1).last() == params@[i as int].deep_view());
        }
        let name: &String = &params[i].0;
        let ty: &String = &params[i].1;
        push_plan(&mut args, build_option(name, ty));
        let kind: Kind = classify(ty.as_str());
        let from_file: Option<String> = if kind == Kind::Json {
            let f: ArgPlan = build_file_option(name);
            proof {
                assert(f.deep_view() == file_plan((name@, ty@)));
            }
            push_plan(&mut args, f);
            Some(cat3("__", name.as_str(), "_from_file"))
        } else {
            None
        };
        let d: DynArg = DynArg {
            name: name.clone(),
            flag: kebab(name.as_str()),
            from_file,
            rust_type: ty.clone(),
            kind,
        };
        let ghost before = idents.deep_view();
        let ghost dv = d.deep_view();
        idents.push(d);
        proof {
            assert(idents.deep_view() =~= before.push(dv));
            assert(dv =~= dyn_arg_of((name@, ty@)));
            assert(idents.deep_view() =~= dyn_args_of(all.take(i + 1)));
        }
        i = i + 1;
    }
    let ghost own = args.deep_view();
    add_static(&mut args);
    proof {
        assert(all.take(i as int) =~= all);
    }
    CommandPlan {
        name: cat2("cargo athena submit ", template),
        about: cat3(
            "Submit `",
            template,
            "` to a real cluster. Function arguments appear below as typed `--<name>` flags; use `-a name=value` for any argument typed as a struct / map / other non-scalar.",
        ),
        args,
        idents,
    }
}

// ---- values -------------------------------------------------------------------------------------
/// A text that was given for an option, and that text read as a fraction.
pub struct RawValue {
    pub text: String,
    pub as_float: Result<Json, String>,
}

#[verifier::ext_equal]
pub struct RawView {
    pub text: Seq<char>,
    pub as_float: Result<JsonView, Seq<char>>,
}

impl DeepView for RawValue {
    type V = RawView;

    open spec fn deep_view(&self) -> RawView {
        RawView {
            text: self.text@,
            as_float: match self.as_float {
                Ok(v) => Ok(v.deep_view()),
                Err(e) => Err(e@),
            },
        }
    }
}

/// A scalar from the text that was given for it.
pub open spec fn encoded(s: Scalar, raw: RawView) -> Result<JsonView, Seq<char>> {
    let t = raw.text;
    match s {
        Scalar::Str => Ok(JsonView::of_string(t)),
        Scalar::Int => if int_text(t) matches Some(n) && i64::MIN <= n <= i64::MAX {
            Ok(JsonView::of_i64(int_text(t)->0 as i64))
        } else {
            Err("not a valid integer: "@ + i64_error(t))
        },
        Scalar::Uint => if uint_text(t) matches Some(n) && n <= u64::MAX {
            Ok(JsonView::of_u64(uint_text(t)->0 as u64))
        } else {
            Err("not a valid unsigned integer: "@ + u64_error(t))
        },
        Scalar::Float => raw.as_float,
        Scalar::Bool => if t == "true"@ {
            Ok(JsonView::of_bool(true))
        } else if t == "false"@ {
            Ok(JsonView::of_bool(false))
        } else {
            Err("not a valid bool (use `true` or `false`): "@ + bool_error(t))
        },
    }
}

/// A scalar from the text that was given for it.
pub fn encode(s: Scalar, raw: &RawValue) -> (r: Result<Json, String>)
    ensures
        agrees(r, encoded(s, raw.deep_view())),
{
    let t: &str = raw.text.as_str();
    match s {
        Scalar::Str => Ok(Json::of_string(t)),
        Scalar::Int => match parse_i64(t) {
            Ok(n) => Ok(Json::of_i64(n)),
            Err(e) => Err(cat2("not a valid integer: ", e.as_str())),
        },
        Scalar::Uint => match parse_u64_text(t) {
            Ok(n) => Ok(Json::of_u64(n)),
            Err(e) => Err(cat2("not a valid unsigned integer: ", e.as_str())),
        },
        Scalar::Float => match &raw.as_float {
            Ok(v) => Ok(v.dup()),
            Err(e) => Err(e.clone()),
        },
        Scalar::Bool => {
            proof {
                reveal_strlit("true");
                reveal_strlit("false");
            }
            match parse_bool(t) {
                Ok(b) => Ok(Json::of_bool(b)),
                Err(e) => Err(cat2("not a valid bool (use `true` or `false`): ", e.as_str())),
            }
        },
    }
}

/// What was given for the option of one parameter: its values, and the file that
/// holds the value.
pub struct Given {
    pub arg: DynArg,
    pub values: Vec<RawValue>,
    pub file: Option<FileText>,
}

#[verifier::ext_equal]
pub struct GivenView {
    pub arg: DynArgView,
    pub values: Seq<RawView>,
    pub file: Option<FileTextView>,
}

impl DeepView for Given {
    type V = GivenView;

    open spec fn deep_view(&self) -> GivenView {
        GivenView {
            arg: self.arg.deep_view(),
            values: self.values.deep_view(),
            file: self.file.deep_view(),
        }
    }
}

/// The refusal `e` with what it is about in front.
pub open spec fn about<A>(r: Result<A, Seq<char>>, head: Seq<char>) -> Result<A, Seq<char>> {
    match r {
        Ok(v) => Ok(v),
        Err(e) => Err(head + e),
    }
}

/// A value as it was read, or why it was refused with what it is about in front.
pub fn refuse_with(r: Result<Json, String>, head: &str) -> (s: Result<Json, String>)
    ensures
        match (s, r) {
            (Ok(a), Ok(b)) => a.deep_view() == b.deep_view(),
            (Err(a), Err(b)) => a@ == head@ + b@,
            _ => false,
        },
{
    match r {
        Ok(v) => Ok(v),
        Err(e) => Err(cat2(head, e.as_str())),
    }
}

pub open spec fn flag_head(a: DynArgView) -> Seq<char> {
    "--"@ + a.flag + " ("@ + a.rust_type + "): "@
}

pub open spec fn encode_fn(s: Scalar) -> spec_fn(RawView) -> Result<JsonView, Seq<char>> {
    |raw: RawView| encoded(s, raw)
}

pub open spec fn texts_of(vs: Seq<JsonView>) -> Seq<Seq<char>> {
    Seq::new(vs.len(), |i: int| vs[i].text)
}

/// The scalar that a parameter with one value is encoded as.
pub open spec fn encoder_for(ty: Seq<char>) -> Scalar {
    match scalar_of(
        match unwrapped(ty, "Option"@) {
            Some(t) => t,
            None => ty,
        },
    ) {
        Some(s) => s,
        None => Scalar::Str,
    }
}

/// The value from the file that was named.
pub open spec fn value_in_file(a: DynArgView, f: FileTextView) -> Result<JsonView, Seq<char>> {
    let head = "--"@ + a.flag + "-from-file "@ + f.path;
    match f.text {
        Err(e) => Err(head + ": "@ + e),
        Ok(t) => about(json_facts(trim_by(t, is_space())), head + ": not valid JSON: "@),
    }
}

/// The value from the texts that were given; none where there are none.
pub open spec fn value_in_texts(a: DynArgView, values: Seq<RawView>) -> Result<
    Option<JsonView>,
    Seq<char>,
> {
    if values.len() == 0 {
        Ok(None)
    } else {
        match a.kind {
            Kind::VecOf(s) => match map_res(values, encode_fn(s)) {
                Ok(vs) => Ok(Some(JsonView::of_array(texts_of(vs)))),
                Err(e) => Err(flag_head(a) + e),
            },
            Kind::Json => match json_facts(values[0].text) {
                Ok(v) => Ok(Some(v)),
                Err(e) => Err(
                    flag_head(a) + "expected JSON, got "@ + debug_text(values[0].text) + ": "@ + e,
                ),
            },
            _ => match encoded(encoder_for(a.rust_type), values[0]) {
                Ok(v) => Ok(Some(v)),
                Err(e) => Err(flag_head(a) + e),
            },
        }
    }
}

pub open spec fn is_typed(g: GivenView) -> bool {
    g.values.len() > 0 || (g.arg.from_file is Some && g.file is Some)
}

pub open spec fn set_twice(a: DynArgView) -> Seq<char> {
    "argument `"@ + a.name + "` was set by both `--"@ + a.flag + "` (or `--"@ + (a.flag
        + "-from-file`) and `-a "@ + a.name + "=…`. Pick one."@)
}

/// The values after the option of one parameter, where `-a` set `named`.
pub open spec fn with_given(m: Values, named: Seq<Seq<char>>, g: GivenView) -> Result<
    Values,
    Seq<char>,
> {
    if is_typed(g) && named.contains(g.arg.name) {
        Err(set_twice(g.arg))
    } else if g.arg.from_file is Some && g.file is Some {
        match value_in_file(g.arg, g.file->0) {
            Ok(v) => Ok(m.insert(g.arg.name, v)),
            Err(e) => Err(e),
        }
    } else {
        match value_in_texts(g.arg, g.values) {
            Ok(Some(v)) => Ok(m.insert(g.arg.name, v)),
            Ok(None) => Ok(m),
            Err(e) => Err(e),
        }
    }
}

pub open spec fn with_all_given(m: Values, named: Seq<Seq<char>>, gs: Seq<GivenView>) -> Result<
    Values,
    Seq<char>,
>
    decreases gs.len(),
{
    if gs.len() == 0 {
        Ok(m)
    } else {
        match with_all_given(m, named, gs.drop_last()) {
            Err(e) => Err(e),
            Ok(m2) => with_given(m2, named, gs.last()),
        }
    }
}

/// The values that an input file, `-a` and the options give: the options win over
/// `-a`, and `-a` over the file; an option and `-a` must not set one parameter.
pub open spec fn extracted(
    f: Option<FileTextView>,
    pairs: Seq<Seq<char>>,
    gs: Seq<GivenView>,
) -> Result<Values, Seq<char>> {
    match file_values(f) {
        Err(e) => Err(e),
        Ok(m) => match with_pairs_given(m, pairs, "-a"@) {
            Err(e) => Err(e),
            Ok((m2, named)) => with_all_given(m2, named, gs),
        },
    }
}

fn render_head(a: &DynArg) -> (r: String)
    ensures
        r@ == flag_head(a.deep_view()),
{
    cat5("--", a.flag.as_str(), " (", a.rust_type.as_str(), "): ")
}

fn encode_all(s: Scalar, values: &Vec<RawValue>) -> (r: Result<Vec<String>, String>)
    ensures
        match (r, map_res(values.deep_view(), encode_fn(s))) {
            (Ok(ts), Ok(vs)) => ts.deep_view() == texts_of(vs),
            (Err(a), Err(b)) => a@ == b,
            _ => false,
        },
{
    let ghost f = encode_fn(s);
    let ghost all = values.deep_view();
    let ghost mut done: Seq<JsonView> = Seq::empty();
    let mut out: Vec<String> = Vec::new();
    let mut i: usize = 0;
    proof {
        lemma_map_res_all(all, f);
        assert(out.deep_view() =~= texts_of(done));
    }
    while i < values.len()
        invariant
            f == encode_fn(s),
            all == values.deep_view(),
            i <= values@.len(),
            map_res(all.take(i as int), f) == Ok::<Seq<JsonView>, Seq<char>>(done),
            out.deep_view() == texts_of(done),
        decreases values@.len() - i,
    {
        proof {
            lemma_map_res_step(all, f, i as int);
            assert(all[i as int] == values@[i as int].deep_view());
        }
        match encode(s, &values[i]) {
            Ok(v) => {
                let ghost vv = v.deep_view();
                let ghost before = out.deep_view();
                out.push(v.text);
                proof {
                    assert(out.deep_view() =~= before.push(vv.text));
                    done = done.push(vv);
                    assert(out.deep_view() =~= texts_of(done));
                }
            },
            Err(e) => {
                return Err(e);
            },
        }
        i = i + 1;
    }
    proof {
        lemma_map_res_all(all, f);
    }
    Ok(out)
}

fn scalar_encoder(ty: &str) -> (r: Scalar)
    ensures
        r == encoder_for(ty@),
{
    let found: Option<Scalar> = match unwrap1(ty, "Option") {
        Some(t) => scalar_for(t.as_str()),
        None => scalar_for(ty),
    };
    match found {
        Some(s) => s,
        None => Scalar::Str,
    }
}

fn read_value_file(a: &DynArg, f: &FileText) -> (r: Result<Json, String>)
    ensures
        agrees(r, value_in_file(a.deep_view(), f.deep_view())),
{
    let head: String = cat4("--", a.flag.as_str(), "-from-file ", f.path.as_str());
    match &f.text {
        Err(e) => Err(cat3(head.as_str(), ": ", e.as_str())),
        Ok(t) => {
            let trimmed: String = trim(t.as_str());
            let h: String = cat2(head.as_str(), ": not valid JSON: ");
            refuse_with(read_json(trimmed.as_str()), h.as_str())
        },
    }
}

fn read_texts(a: &DynArg, values: &Vec<RawValue>) -> (r: Result<Option<Json>, String>)
    ensures
        agrees(r, value_in_texts(a.deep_view(), values.deep_view())),
{
    proof {
        assert(values.deep_view().len() == values@.len());
    }
    if values.len() == 0 {
        return Ok(None);
    }
    proof {
        assert(values.deep_view()[0] == values@[0].deep_view());
    }
    let head: String = render_head(a);
    match a.kind {
        Kind::VecOf(s) => match encode_all(s, values) {
            Ok(ts) => Ok(Some(Json::of_array(&ts))),
            Err(e) => Err(cat2(head.as_str(), e.as_str())),
        },
        Kind::Json => {
            let q: String = debug_str(values[0].text.as_str());
            let h: String = cat4(head.as_str(), "expected JSON, got ", q.as_str(), ": ");
            match refuse_with(read_json(values[0].text.as_str()), h.as_str()) {
                Ok(v) => Ok(Some(v)),
                Err(e) => Err(e),
            }
        },
        _ => match encode(scalar_encoder(a.rust_type.as_str()), &values[0]) {
            Ok(v) => Ok(Some(v)),
            Err(e) => Err(cat2(head.as_str(), e.as_str())),
        },
    }
}

fn take_given(m: &mut TextMap<Json>, named: &Vec<String>, g: &Given) -> (r: Result<(), String>)
    ensures
        match (r, with_given(old(m).deep_view(), named.deep_view(), g.deep_view())) {
            (Ok(_), Ok(v)) => final(m).deep_view() == v,
            (Err(a), Err(b)) => a@ == b,
            _ => false,
        },
{
    proof {
        assert(g.deep_view().values.len() == g.values@.len());
    }
    let in_file: bool = g.arg.from_file.is_some() && g.file.is_some();
    if (g.values.len() > 0 || in_file) && has_str(named, g.arg.name.as_str()) {
        let mut e: String = cat5(
            "argument `",
            g.arg.name.as_str(),
            "` was set by both `--",
            g.arg.flag.as_str(),
            "` (or `--",
        );
        let end: String = cat4(
            g.arg.flag.as_str(),
            "-from-file`) and `-a ",
            g.arg.name.as_str(),
            "=…`. Pick one.",
        );
        e.append(end.as_str());
        return Err(e);
    }
    if g.arg.from_file.is_some() {
        match &g.file {
            Some(f) => {
                return match read_value_file(&g.arg, f) {
                    Ok(v) => {
                        m.insert(g.arg.name.clone(), v);
                        Ok(())
                    },
                    Err(e) => Err(e),
                };
            },
            None => {},
        }
    }
    match read_texts(&g.arg, &g.values) {
        Ok(Some(v)) => {
            m.insert(g.arg.name.clone(), v);
            Ok(())
        },
        Ok(None) => Ok(()),
        Err(e) => Err(e),
    }
}

proof fn lemma_given_err(m: Values, named: Seq<Seq<char>>, gs: Seq<GivenView>, n: int)
    requires
        0 <= n <= gs.len(),
        with_all_given(m, named, gs.take(n)) is Err,
    ensures
        with_all_given(m, named, gs) == with_all_given(m, named, gs.take(n)),
    decreases gs.len(),
{
    if n < gs.len() {
        assert(gs.drop_last().take(n) =~= gs.take(n));
        lemma_given_err(m, named, gs.drop_last(), n);
    } else {
        assert(gs.take(n) =~= gs);
    }
}

/// The values that an input file, `-a` and the options of the parameters give.
pub fn extract(f: &Option<FileText>, pairs: &Vec<String>, given: &Vec<Given>) -> (r: Result<
    TextMap<Json>,
    String,
>)
    ensures
        agrees(r, extracted(f.deep_view(), pairs.deep_view(), given.deep_view())),
{
    let mut m: TextMap<Json> = match read_input_file(f) {
        Ok(m) => m,
        Err(e) => {
            return Err(e);
        },
    };
    let named: Vec<String> = match add_pairs(&mut m, pairs, "-a") {
        Ok(n) => n,
        Err(e) => {
            return Err(e);
        },
    };
    let ghost m0 = m.deep_view();
    let ghost ns = named.deep_view();
    let ghost gs = given.deep_view();
    let mut i: usize = 0;
    proof {
        assert(gs.take(0) =~= Seq::<GivenView>::empty());
    }
    while i < given.len()
        invariant
            ns == named.deep_view(),
            gs == given.deep_view(),
            extracted(f.deep_view(), pairs.deep_view(), gs) == with_all_given(m0, ns, gs),
            i <= given@.len(),
            with_all_given(m0, ns, gs.take(i as int)) == Ok::<Values, Seq<char>>(m.deep_view()),
        decreases given@.len() - i,
    {
        proof {
            assert(gs.take(i + 1).drop_last() =~= gs.take(i as int));
            assert(gs.take(i + 1).last() == given@[i as int].deep_view());
        }
        match take_given(&mut m, &named, &given[i]) {
            Ok(_) => {},
            Err(e) => {
                proof {
                    lemma_given_err(m0, ns, gs, i + 1);
                }
                return Err(e);
            },
        }
        i = i + 1;
    }
    proof {
        assert(gs.take(i as int) =~= gs);
    }
    Ok(m)
}

// ---- the first pass -----------------------------------------------------------------------------
/// What the first pass found, and whether it reads its next text as a value: for
/// the package, or for the binary.
#[verifier::ext_equal]
pub struct Scan {
    pub package: Option<Seq<char>>,
    pub bin: Option<Seq<char>>,
    pub next: Option<bool>,
}

/// The first pass over the texts behind `submit`. At the end of the texts, an
/// option without a value stands for none.
pub open spec fn scan_args(rest: Seq<Seq<char>>) -> Scan
    decreases rest.len(),
{
    if rest.len() == 0 {
        Scan { package: None, bin: None, next: None }
    } else {
        let s = scan_args(rest.drop_last());
        let a = rest.last();
        match s.next {
            Some(true) => Scan { package: Some(a), next: None, ..s },
            Some(false) => Scan { bin: Some(a), next: None, ..s },
            None => if a == "-p"@ || a == "--package"@ {
                Scan { package: None, next: Some(true), ..s }
            } else if a == "--bin"@ {
                Scan { bin: None, next: Some(false), ..s }
            } else if has_prefix(a, "--package="@) {
                Scan { package: after_prefix(a, "--package="@), ..s }
            } else if has_prefix(a, "--bin="@) {
                Scan { bin: after_prefix(a, "--bin="@), ..s }
            } else if has_prefix(a, "-p="@) {
                Scan { package: after_prefix(a, "-p="@), ..s }
            } else {
                s
            },
        }
    }
}

/// The package and the binary among the texts behind `submit`, whatever else
/// stands there.
pub fn extract_pkg(rest: &Vec<String>) -> (r: (Option<String>, Option<String>))
    ensures
        r.0.deep_view() == scan_args(rest.deep_view()).package,
        r.1.deep_view() == scan_args(rest.deep_view()).bin,
{
    let ghost all = rest.deep_view();
    let mut package: Option<String> = None;
    let mut bin: Option<String> = None;
    let mut next: Option<bool> = None;
    let mut i: usize = 0;
    proof {
        assert(all.take(0) =~= Seq::<Seq<char>>::empty());
    }
    while i < rest.len()
        invariant
            all == rest.deep_view(),
            i <= rest@.len(),
            scan_args(all.take(i as int)) == (Scan {
                package: package.deep_view(),
                bin: bin.deep_view(),
                next,
            }),
        decreases rest@.len() - i,
    {
        proof {
            assert(all.take(i + 1).drop_last() =~= all.take(i as int));
            assert(all.take(i + 1).last() == rest@[i as int]@);
        }
        let a: &str = rest[i].as_str();
        match next {
            Some(is_package) => {
                if is_package {
                    package = Some(a.to_owned());
                } else {
                    bin = Some(a.to_owned());
                }
                next = None;
            },
            None => {
                if str_eq(a, "-p") || str_eq(a, "--package") {
                    package = None;
                    next = Some(true);
                } else if str_eq(a, "--bin") {
                    bin = None;
                    next = Some(false);
                } else if starts_with(a, "--package=") {
                    package = strip_prefix(a, "--package=");
                } else if starts_with(a, "--bin=") {
                    bin = strip_prefix(a, "--bin=");
                } else if starts_with(a, "-p=") {
                    package = strip_prefix(a, "-p=");
                }
            },
        }
        i = i + 1;
    }
    proof {
        assert(all.take(i as int) =~= all);
    }
    (package, bin)
}

// ---- laws ---------------------------------------------------------------------------------------
/// Every parameter has an option of its own on the command, and one for a file
/// exactly where its type is no scalar, an optional scalar or a list of scalars.
pub proof fn law_every_parameter_has_an_option(
    template: Seq<char>,
    params: Seq<(Seq<char>, Seq<char>)>,
    i: int,
)
    requires
        0 <= i < params.len(),
    ensures
        command_of(template, params).idents.len() == params.len(),
        command_of(template, params).args.contains(option_plan(params[i])),
        command_of(template, params).idents[i].from_file is Some ==> command_of(
            template,
            params,
        ).args.contains(file_plan(params[i])),
        command_of(template, params).idents[i].from_file is Some <==> kind_of(params[i].1)
            == Kind::Json,
{
    lemma_plans(params, i);
    let own = param_plans(params);
    let all = own + static_plans();
    let a = choose|k: int| 0 <= k < own.len() && own[k] == option_plan(params[i]);
    assert(all[a] == option_plan(params[i]));
    if kind_of(params[i].1) == Kind::Json {
        let b = choose|k: int| 0 <= k < own.len() && own[k] == file_plan(params[i]);
        assert(all[b] == file_plan(params[i]));
    }
}

proof fn lemma_plans(params: Seq<(Seq<char>, Seq<char>)>, i: int)
    requires
        0 <= i < params.len(),
    ensures
        param_plans(params).contains(option_plan(params[i])),
        kind_of(params[i].1) == Kind::Json ==> param_plans(params).contains(file_plan(params[i])),
    decreases params.len(),
{
    let front = param_plans(params.drop_last());
    let all = param_plans(params);
    if i < params.len() - 1 {
        lemma_plans(params.drop_last(), i);
        assert(params.drop_last()[i] == params[i]);
        let a = choose|k: int| 0 <= k < front.len() && front[k] == option_plan(params[i]);
        assert(all[a] == option_plan(params[i]));
        if kind_of(params[i].1) == Kind::Json {
            let b = choose|k: int| 0 <= k < front.len() && front[k] == file_plan(params[i]);
            assert(all[b] == file_plan(params[i]));
        }
    } else {
        assert(all[front.len() as int] == option_plan(params[i]));
        if kind_of(params[i].1) == Kind::Json {
            assert(all[front.len() as int + 1] == file_plan(params[i]));
        }
    }
}

/// An option that is given decides the value of its parameter, whatever the input
/// file says; and a parameter that `-a` sets as well is refused.
pub proof fn law_options_win(m: Values, named: Seq<Seq<char>>, g: GivenView, other: JsonView)
    ensures
        is_typed(g) && named.contains(g.arg.name) ==> with_given(m, named, g) is Err,
        is_typed(g) && !named.contains(g.arg.name) && with_given(m, named, g) is Ok ==> with_given(
            m,
            named,
            g,
        )->Ok_0[g.arg.name] == with_given(m.insert(g.arg.name, other), named, g)->Ok_0[g.arg.name],
{
}

} // verus!
