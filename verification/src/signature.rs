//! The signature of a function under an attribute: which of its arguments are
//! parameters, which are artifacts, and which Argo fills in.

use crate::ast::{FnDecl, FnParam, TypeRef};
use crate::delivery::param_ref;
use crate::lower::IoKind;
use crate::names::{misread, yaml_ambiguous};
use crate::text::{cat3, cat5, str_eq};
use vstd::prelude::*;

verus! {

/// Whether a type is `Artifact<…>`, however it is qualified.
pub open spec fn is_artifact(ty: TypeRef) -> bool {
    ty.leaf matches Some((n, args)) && n@ == "Artifact"@ && args
}

/// Whether a type is `Artifact<…>`, however it is qualified.
pub fn is_artifact_ty(ty: &TypeRef) -> (r: bool)
    ensures
        r == is_artifact(*ty),
{
    match &ty.leaf {
        Some((n, args)) => str_eq(n.as_str(), "Artifact") && *args,
        None => false,
    }
}

/// A named argument.
pub struct FnArg {
    pub name: String,
    pub ty: String,
    pub artifact: bool,
    /// The expression that Argo fills in.
    pub inject: Option<String>,
}

#[verifier::ext_equal]
pub struct FnArgView {
    pub name: Seq<char>,
    pub ty: Seq<char>,
    pub artifact: bool,
    pub inject: Option<Seq<char>>,
}

impl DeepView for FnArg {
    type V = FnArgView;

    open spec fn deep_view(&self) -> FnArgView {
        FnArgView {
            name: self.name@,
            ty: self.ty@,
            artifact: self.artifact,
            inject: self.inject.deep_view(),
        }
    }
}

/// The named arguments of a function, in order.
pub open spec fn args_of(params: Seq<FnParam>) -> Seq<FnArgView>
    decreases params.len(),
{
    if params.len() == 0 {
        Seq::empty()
    } else {
        let front = args_of(params.drop_last());
        match params.last() {
            FnParam::Typed { name: Some(n), ty, inject } => front.push(
                FnArgView {
                    name: n@,
                    ty: ty.text@,
                    artifact: is_artifact(ty),
                    inject: inject.deep_view(),
                },
            ),
            _ => front,
        }
    }
}

/// The named arguments of a function.
pub fn fn_args(f: &FnDecl) -> (r: Vec<FnArg>)
    ensures
        r.deep_view() == args_of(f.params@),
{
    let mut out: Vec<FnArg> = Vec::new();
    let mut i: usize = 0;
    proof {
        assert(f.params@.take(0) =~= Seq::<FnParam>::empty());
        assert(out.deep_view() =~= Seq::<FnArgView>::empty());
    }
    while i < f.params.len()
        invariant
            i <= f.params@.len(),
            out.deep_view() == args_of(f.params@.take(i as int)),
        decreases f.params@.len() - i,
    {
        proof {
            assert(f.params@.take(i + 1).drop_last() =~= f.params@.take(i as int));
            assert(f.params@.take(i + 1).last() == f.params@[i as int]);
        }
        match &f.params[i] {
            FnParam::Typed { name: Some(n), ty, inject } => {
                let inj: Option<String> = match inject {
                    Some(s) => Some(s.clone()),
                    None => None,
                };
                let a: FnArg = FnArg {
                    name: n.clone(),
                    ty: ty.text.clone(),
                    artifact: is_artifact_ty(ty),
                    inject: inj,
                };
                let ghost av = a.deep_view();
                let ghost before = out.deep_view();
                out.push(a);
                proof {
                    assert(out.deep_view() =~= before.push(av));
                }
            },
            _ => {},
        }
        i = i + 1;
    }
    proof {
        assert(f.params@.take(i as int) =~= f.params@);
    }
    out
}

// ---- checks -----------------------------------------------------------------------
/// Why a parameter has no place in a template's signature.
pub open spec fn param_problem(p: FnParam, kind: Seq<char>) -> Option<Seq<char>> {
    match p {
        FnParam::Receiver => Some("#["@ + kind + "] must be a free function (no `self`)"@),
        FnParam::Typed { name, ty: _, inject: _ } => match name {
            Some(_) => None,
            None => Some(
                "unsupported parameter pattern in a #["@ + kind
                    + "]: bind a plain identifier (each parameter becomes a named Argo input)"@,
            ),
        },
    }
}

pub open spec fn first_param_problem(params: Seq<FnParam>, kind: Seq<char>) -> Option<Seq<char>>
    decreases params.len(),
{
    if params.len() == 0 {
        None
    } else {
        match first_param_problem(params.drop_last(), kind) {
            Some(m) => Some(m),
            None => param_problem(params.last(), kind),
        }
    }
}

/// Why a function cannot be a template.
pub open spec fn shape_problem(f: FnDecl, kind: Seq<char>) -> Option<Seq<char>> {
    if f.generic {
        Some(
            "#["@ + kind
                + "] does not support generic functions: the template lowers to one unit-struct identity with one concrete signature (its inputs become a fixed Argo parameter list)"@,
        )
    } else {
        first_param_problem(f.params@, kind)
    }
}

proof fn lemma_first_param(params: Seq<FnParam>, n: int, kind: Seq<char>)
    requires
        0 <= n <= params.len(),
        first_param_problem(params.take(n), kind) is Some,
    ensures
        first_param_problem(params, kind) == first_param_problem(params.take(n), kind),
    decreases params.len(),
{
    if n < params.len() {
        assert(params.drop_last().take(n) =~= params.take(n));
        lemma_first_param(params.drop_last(), n, kind);
    } else {
        assert(params.take(n) =~= params);
    }
}

/// Refuses generic functions, methods, and parameters without a name.
pub fn check_fn_shape(f: &FnDecl, kind: &str) -> (r: Result<(), String>)
    ensures
        match r {
            Ok(_) => shape_problem(*f, kind@) is None,
            Err(m) => shape_problem(*f, kind@) == Some(m@),
        },
{
    if f.generic {
        return Err(
            cat3(
                "#[",
                kind,
                "] does not support generic functions: the template lowers to one unit-struct identity with one concrete signature (its inputs become a fixed Argo parameter list)",
            ),
        );
    }
    let mut i: usize = 0;
    proof {
        assert(f.params@.take(0) =~= Seq::<FnParam>::empty());
    }
    while i < f.params.len()
        invariant
            !f.generic,
            i <= f.params@.len(),
            first_param_problem(f.params@.take(i as int), kind@) is None,
        decreases f.params@.len() - i,
    {
        proof {
            assert(f.params@.take(i + 1).drop_last() =~= f.params@.take(i as int));
            assert(f.params@.take(i + 1).last() == f.params@[i as int]);
            if first_param_problem(f.params@.take(i + 1), kind@) is Some {
                lemma_first_param(f.params@, i + 1, kind@);
            }
        }
        match &f.params[i] {
            FnParam::Receiver => {
                return Err(cat3("#[", kind, "] must be a free function (no `self`)"));
            },
            FnParam::Typed { name, ty: _, inject: _ } => {
                if name.is_none() {
                    return Err(
                        cat3(
                            "unsupported parameter pattern in a #[",
                            kind,
                            "]: bind a plain identifier (each parameter becomes a named Argo input)",
                        ),
                    );
                }
            },
        }
        i = i + 1;
    }
    proof {
        assert(f.params@.take(i as int) =~= f.params@);
    }
    Ok(())
}

pub open spec fn unsafe_param(n: Seq<char>, why: Seq<char>) -> Seq<char> {
    "Argo parameter name `"@ + n
        + "` is unsafe: a YAML 1.1 parser (including Argo's Go YAML→JSON) reads the bare word `"@
        + n + "` as "@ + (why
        + ", not a string — likewise y/yes/n/no/on/off/true/false (any case) and null/~. The emitted workflow would be silently mis-typed. Rename this argument."@)
}

pub open spec fn unsafe_name(n: Seq<char>, why: Seq<char>) -> Seq<char> {
    "`name = \""@ + n + "\"` is unsafe: a YAML 1.1 parser (including Argo's) reads `"@ + n
        + "` as "@ + (why + ", not a string. Choose a different Argo name."@)
}

pub open spec fn first_unsafe(args: Seq<FnArgView>) -> Option<Seq<char>>
    decreases args.len(),
{
    if args.len() == 0 {
        None
    } else {
        match first_unsafe(args.drop_last()) {
            Some(m) => Some(m),
            None => match misread(args.last().name) {
                Some(why) => Some(unsafe_param(args.last().name, why)),
                None => None,
            },
        }
    }
}

/// Why a name would be mistaken by a YAML 1.1 parser.
pub open spec fn yaml_name_problem(args: Seq<FnArgView>, over: Option<Seq<char>>) -> Option<
    Seq<char>,
> {
    match first_unsafe(args) {
        Some(m) => Some(m),
        None => match over {
            Some(n) => match misread(n) {
                Some(why) => Some(unsafe_name(n, why)),
                None => None,
            },
            None => None,
        },
    }
}

proof fn lemma_first_unsafe(args: Seq<FnArgView>, n: int)
    requires
        0 <= n <= args.len(),
        first_unsafe(args.take(n)) is Some,
    ensures
        first_unsafe(args) == first_unsafe(args.take(n)),
    decreases args.len(),
{
    if n < args.len() {
        assert(args.drop_last().take(n) =~= args.take(n));
        lemma_first_unsafe(args.drop_last(), n);
    } else {
        assert(args.take(n) =~= args);
    }
}

/// Refuses argument names and name overrides that a YAML 1.1 parser would not
/// read as text.
pub fn check_yaml_safe_names(args: &Vec<FnArg>, over: &Option<String>) -> (r: Result<(), String>)
    ensures
        match r {
            Ok(_) => yaml_name_problem(args.deep_view(), over.deep_view()) is None,
            Err(m) => yaml_name_problem(args.deep_view(), over.deep_view()) == Some(m@),
        },
{
    let ghost all = args.deep_view();
    let mut i: usize = 0;
    proof {
        assert(all.take(0) =~= Seq::<FnArgView>::empty());
    }
    while i < args.len()
        invariant
            all == args.deep_view(),
            i <= args@.len(),
            first_unsafe(all.take(i as int)) is None,
        decreases args@.len() - i,
    {
        proof {
            assert(all.take(i + 1).drop_last() =~= all.take(i as int));
            assert(all.take(i + 1).last() == args@[i as int].deep_view());
            if first_unsafe(all.take(i + 1)) is Some {
                lemma_first_unsafe(all, i + 1);
            }
        }
        let n: &str = args[i].name.as_str();
        match yaml_ambiguous(n) {
            Some(why) => {
                let mut m: String = cat5(
                    "Argo parameter name `",
                    n,
                    "` is unsafe: a YAML 1.1 parser (including Argo's Go YAML→JSON) reads the bare word `",
                    n,
                    "` as ",
                );
                let end: String = crate::text::cat2(
                    why,
                    ", not a string — likewise y/yes/n/no/on/off/true/false (any case) and null/~. The emitted workflow would be silently mis-typed. Rename this argument.",
                );
                m.append(end.as_str());
                return Err(m);
            },
            None => {},
        }
        i = i + 1;
    }
    proof {
        assert(all.take(i as int) =~= all);
    }
    match over {
        Some(n) => match yaml_ambiguous(n.as_str()) {
            Some(why) => {
                let mut m: String = cat5(
                    "`name = \"",
                    n.as_str(),
                    "\"` is unsafe: a YAML 1.1 parser (including Argo's) reads `",
                    n.as_str(),
                    "` as ",
                );
                let end: String = crate::text::cat2(
                    why,
                    ", not a string. Choose a different Argo name.",
                );
                m.append(end.as_str());
                Err(m)
            },
            None => Ok(()),
        },
        None => Ok(()),
    }
}

// ---- what becomes of the arguments ---------------------------------------------------
/// The arguments of a template by what becomes of them.
pub struct Signature {
    /// All arguments.
    pub inputs: Vec<String>,
    pub input_types: Vec<String>,
    pub input_kinds: Vec<IoKind>,
    /// Arguments that a caller passes inline.
    pub params: Vec<String>,
    /// What stands on the command line: a parameter each, or what Argo fills in.
    pub argv: Vec<String>,
    /// Arguments that are artifacts.
    pub artifacts: Vec<String>,
}

#[verifier::ext_equal]
pub struct SignatureView {
    pub inputs: Seq<Seq<char>>,
    pub input_types: Seq<Seq<char>>,
    pub input_kinds: Seq<IoKind>,
    pub params: Seq<Seq<char>>,
    pub argv: Seq<Seq<char>>,
    pub artifacts: Seq<Seq<char>>,
}

impl DeepView for Signature {
    type V = SignatureView;

    open spec fn deep_view(&self) -> SignatureView {
        SignatureView {
            inputs: self.inputs.deep_view(),
            input_types: self.input_types.deep_view(),
            input_kinds: self.input_kinds@,
            params: self.params.deep_view(),
            argv: self.argv.deep_view(),
            artifacts: self.artifacts.deep_view(),
        }
    }
}

pub open spec fn kind_for(artifact: bool) -> IoKind {
    if artifact {
        IoKind::Artifact
    } else {
        IoKind::Parameter
    }
}

pub open spec fn signature_of(args: Seq<FnArgView>) -> SignatureView
    decreases args.len(),
{
    if args.len() == 0 {
        SignatureView {
            inputs: Seq::empty(),
            input_types: Seq::empty(),
            input_kinds: Seq::empty(),
            params: Seq::empty(),
            argv: Seq::empty(),
            artifacts: Seq::empty(),
        }
    } else {
        let s = signature_of(args.drop_last());
        let a = args.last();
        SignatureView {
            inputs: s.inputs.push(a.name),
            input_types: s.input_types.push(a.ty),
            input_kinds: s.input_kinds.push(kind_for(a.artifact)),
            params: if !a.artifact && a.inject is None {
                s.params.push(a.name)
            } else {
                s.params
            },
            argv: if a.artifact {
                s.argv
            } else {
                s.argv.push(
                    match a.inject {
                        Some(e) => e,
                        None => param_ref(a.name),
                    },
                )
            },
            artifacts: if a.artifact {
                s.artifacts.push(a.name)
            } else {
                s.artifacts
            },
        }
    }
}

fn push_text(v: &mut Vec<String>, s: String)
    ensures
        final(v).deep_view() == old(v).deep_view().push(s@),
{
    let ghost before = v.deep_view();
    let ghost sv = s@;
    v.push(s);
    proof {
        assert(v.deep_view() =~= before.push(sv));
    }
}

/// Sorts the arguments of a template by what becomes of them.
pub fn signature(args: &Vec<FnArg>) -> (r: Signature)
    ensures
        r.deep_view() == signature_of(args.deep_view()),
{
    let ghost all = args.deep_view();
    let mut s: Signature = Signature {
        inputs: Vec::new(),
        input_types: Vec::new(),
        input_kinds: Vec::new(),
        params: Vec::new(),
        argv: Vec::new(),
        artifacts: Vec::new(),
    };
    let mut i: usize = 0;
    proof {
        assert(all.take(0) =~= Seq::<FnArgView>::empty());
        assert(s.deep_view() =~= signature_of(all.take(0)));
    }
    while i < args.len()
        invariant
            all == args.deep_view(),
            i <= args@.len(),
            s.deep_view() == signature_of(all.take(i as int)),
        decreases args@.len() - i,
    {
        proof {
            assert(all.take(i + 1).drop_last() =~= all.take(i as int));
            assert(all.take(i + 1).last() == args@[i as int].deep_view());
        }
        let a: &FnArg = &args[i];
        push_text(&mut s.inputs, a.name.clone());
        push_text(&mut s.input_types, a.ty.clone());
        if a.artifact {
            s.input_kinds.push(IoKind::Artifact);
            push_text(&mut s.artifacts, a.name.clone());
        } else {
            s.input_kinds.push(IoKind::Parameter);
            match &a.inject {
                Some(e) => push_text(&mut s.argv, e.clone()),
                None => {
                    push_text(&mut s.params, a.name.clone());
                    push_text(&mut s.argv, cat3("{{inputs.parameters.", a.name.as_str(), "}}"));
                },
            }
        }
        i = i + 1;
    }
    proof {
        assert(all.take(i as int) =~= all);
    }
    s
}

/// Every argument is a parameter, an artifact, or filled in by Argo: the command
/// line holds one element for each that is no artifact.
pub proof fn law_signature_counts(args: Seq<FnArgView>)
    ensures
        signature_of(args).inputs.len() == args.len(),
        signature_of(args).input_kinds.len() == args.len(),
        signature_of(args).argv.len() + signature_of(args).artifacts.len() == args.len(),
        signature_of(args).params.len() <= signature_of(args).argv.len(),
    decreases args.len(),
{
    if args.len() > 0 {
        law_signature_counts(args.drop_last());
    }
}

/// How an argument reaches a body that runs.
#[derive(Clone, Copy, PartialEq, Eq, Structural)]
pub enum Slot {
    /// From this place on the command line.
    Argv(usize),
    /// From its file.
    File,
}

pub open spec fn slots_of(args: Seq<FnArgView>) -> Seq<Slot>
    decreases args.len(),
{
    if args.len() == 0 {
        Seq::empty()
    } else {
        let front = args.drop_last();
        if args.last().artifact {
            slots_of(front).push(Slot::File)
        } else {
            slots_of(front).push(Slot::Argv(signature_of(front).argv.len() as usize))
        }
    }
}

/// Where each argument of a running body comes from: artifacts from files, the
/// rest from the command line in order.
pub fn arg_slots(args: &Vec<FnArg>) -> (r: Vec<Slot>)
    ensures
        r@ == slots_of(args.deep_view()),
{
    let ghost all = args.deep_view();
    let mut out: Vec<Slot> = Vec::new();
    let mut n: usize = 0;
    let mut i: usize = 0;
    proof {
        assert(all.take(0) =~= Seq::<FnArgView>::empty());
    }
    while i < args.len()
        invariant
            all == args.deep_view(),
            i <= args@.len(),
            n <= i,
            n == signature_of(all.take(i as int)).argv.len(),
            out@ == slots_of(all.take(i as int)),
        decreases args@.len() - i,
    {
        proof {
            assert(all.take(i + 1).drop_last() =~= all.take(i as int));
            assert(all.take(i + 1).last() == args@[i as int].deep_view());
        }
        if args[i].artifact {
            out.push(Slot::File);
        } else {
            out.push(Slot::Argv(n));
            n = n + 1;
        }
        i = i + 1;
    }
    proof {
        assert(all.take(i as int) =~= all);
    }
    out
}

/// What a template passes on the command line is what the body that it starts
/// reads there: the place that an argument is read from holds that argument's
/// reference or injected expression, and an argument read from a file is an
/// artifact.
pub proof fn law_slots_match_argv(args: Seq<FnArgView>, i: int)
    requires
        0 <= i < args.len() <= usize::MAX,
    ensures
        slots_of(args).len() == args.len(),
        match slots_of(args)[i] {
            Slot::File => args[i].artifact,
            Slot::Argv(k) => {
                &&& !args[i].artifact
                &&& k < signature_of(args).argv.len()
                &&& signature_of(args).argv[k as int] == (match args[i].inject {
                    Some(e) => e,
                    None => param_ref(args[i].name),
                })
            },
        },
    decreases args.len(),
{
    let front = args.drop_last();
    law_signature_counts(front);
    lemma_slots_len(front);
    if i < front.len() {
        law_slots_match_argv(front, i);
        assert(front[i] == args[i]);
    }
}

proof fn lemma_slots_len(args: Seq<FnArgView>)
    ensures
        slots_of(args).len() == args.len(),
    decreases args.len(),
{
    if args.len() > 0 {
        lemma_slots_len(args.drop_last());
    }
}

/// Why a command line of `n` elements does not fit a template that expects
/// `want`.
pub open spec fn argv_problem(name: Seq<char>, n: nat, want: nat) -> Option<Seq<char>> {
    if n == want {
        None
    } else {
        Some(
            name + ": argv has "@ + crate::text::dec(n) + " arg(s), expected "@ + crate::text::dec(
                want,
            ) + " parameter(s) (binary <-> template version drift?)"@,
        )
    }
}

/// Checks that a command line fits the template it was started for.
pub fn check_argv(name: &str, n: usize, want: usize) -> (r: Result<(), String>)
    ensures
        match r {
            Ok(_) => argv_problem(name@, n as nat, want as nat) is None,
            Err(m) => argv_problem(name@, n as nat, want as nat) == Some(m@),
        },
{
    if n == want {
        Ok(())
    } else {
        let a: String = crate::text::decimal(n as u128);
        let b: String = crate::text::decimal(want as u128);
        let mut m: String = cat5(
            name,
            ": argv has ",
            a.as_str(),
            " arg(s), expected ",
            b.as_str(),
        );
        m.append(" parameter(s) (binary <-> template version drift?)");
        Err(m)
    }
}

} // verus!
