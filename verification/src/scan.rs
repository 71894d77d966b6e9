//! The static scan of a container's or a fragment's body: what it declares with
//! `host!`, `load_artifact!`, `save_artifact!`, `secret!` and `pvc!` on any
//! branch, and which functions it calls.

use crate::ast::{Expr, FnDecl, Lit, MacroCall, Path, PathView, Stmt};
use crate::maps::Data;
use crate::munge::{
    host_mount, host_mount_path, in_artifact, in_artifact_path, out_artifact, out_artifact_path,
    secret_env, secret_env_name,
};
use crate::scope::{add_one, add_path};
use crate::sorted::{insert_by, insert_secret, insert_text, secret_lt, text_lt};
use crate::text::str_eq;
use vstd::prelude::*;

verus! {

/// What a declaration macro declares.
#[derive(Clone, Copy, PartialEq, Eq, Structural)]
pub enum DeclKind {
    Host,
    InArtifact,
    OutArtifact,
    Secret,
    SecretOpt,
    Pvc,
}

/// The declaration macro called `name`.
pub open spec fn kind_named(name: Seq<char>) -> Option<DeclKind> {
    if name == "host"@ {
        Some(DeclKind::Host)
    } else if name == "load_artifact"@ || name == "load_artifact_str"@ {
        Some(DeclKind::InArtifact)
    } else if name == "save_artifact"@ || name == "save_artifact_str"@ {
        Some(DeclKind::OutArtifact)
    } else if name == "secret"@ {
        Some(DeclKind::Secret)
    } else if name == "secret_opt"@ {
        Some(DeclKind::SecretOpt)
    } else if name == "pvc"@ {
        Some(DeclKind::Pvc)
    } else {
        None
    }
}

pub open spec fn last_segment(p: Path) -> Option<Seq<char>> {
    if p.segments@.len() > 0 {
        Some(p.segments@.last()@)
    } else {
        None
    }
}

pub open spec fn kind_of(m: MacroCall) -> Option<DeclKind> {
    match last_segment(m.path) {
        Some(n) => kind_named(n),
        None => None,
    }
}

fn last_name(p: &Path) -> (r: Option<&str>)
    ensures
        match r {
            Some(s) => last_segment(*p) == Some(s@),
            None => last_segment(*p) is None,
        },
{
    if p.segments.len() > 0 {
        Some(p.segments[p.segments.len() - 1].as_str())
    } else {
        None
    }
}

/// Which declaration macro an invocation is, however its path is qualified.
pub fn decl_kind(m: &MacroCall) -> (r: Option<DeclKind>)
    ensures
        r == kind_of(*m),
{
    match last_name(&m.path) {
        None => None,
        Some(n) => {
            if str_eq(n, "host") {
                Some(DeclKind::Host)
            } else if str_eq(n, "load_artifact") || str_eq(n, "load_artifact_str") {
                Some(DeclKind::InArtifact)
            } else if str_eq(n, "save_artifact") || str_eq(n, "save_artifact_str") {
                Some(DeclKind::OutArtifact)
            } else if str_eq(n, "secret") {
                Some(DeclKind::Secret)
            } else if str_eq(n, "secret_opt") {
                Some(DeclKind::SecretOpt)
            } else if str_eq(n, "pvc") {
                Some(DeclKind::Pvc)
            } else {
                None
            }
        },
    }
}

// ---- literal arguments ------------------------------------------------------------
pub open spec fn lit_text(e: Expr) -> Option<Seq<char>> {
    match e {
        Expr::Lit(Lit::Str(s)) => Some(s@),
        _ => None,
    }
}

pub open spec fn first_lit(m: MacroCall) -> Option<Seq<char>> {
    match m.args {
        Some(args) => if args@.len() > 0 {
            lit_text(args@[0])
        } else {
            None
        },
        None => None,
    }
}

pub open spec fn only_lit(m: MacroCall) -> Option<Seq<char>> {
    match m.args {
        Some(args) => if args@.len() == 1 {
            lit_text(args@[0])
        } else {
            None
        },
        None => None,
    }
}

pub open spec fn two_lits(m: MacroCall) -> Option<(Seq<char>, Seq<char>)> {
    match m.args {
        Some(args) => if args@.len() == 2 {
            match (lit_text(args@[0]), lit_text(args@[1])) {
                (Some(a), Some(b)) => Some((a, b)),
                _ => None,
            }
        } else {
            None
        },
        None => None,
    }
}

fn str_lit(e: &Expr) -> (r: Option<String>)
    ensures
        r.deep_view() == lit_text(*e),
{
    match e {
        Expr::Lit(Lit::Str(s)) => Some(s.clone()),
        _ => None,
    }
}

/// The first argument, where it is a string literal.
pub fn first_str_lit(m: &MacroCall) -> (r: Option<String>)
    ensures
        r.deep_view() == first_lit(*m),
{
    match &m.args {
        Some(args) => if args.len() > 0 {
            str_lit(&args[0])
        } else {
            None
        },
        None => None,
    }
}

/// The sole argument, where it is a string literal.
pub fn only_str_lit(m: &MacroCall) -> (r: Option<String>)
    ensures
        r.deep_view() == only_lit(*m),
{
    match &m.args {
        Some(args) => if args.len() == 1 {
            str_lit(&args[0])
        } else {
            None
        },
        None => None,
    }
}

/// Both arguments, where there are two and they are string literals.
pub fn two_str_lits(m: &MacroCall) -> (r: Option<(String, String)>)
    ensures
        r.deep_view() == two_lits(*m),
{
    match &m.args {
        Some(args) => if args.len() == 2 {
            match (str_lit(&args[0]), str_lit(&args[1])) {
                (Some(a), Some(b)) => Some((a, b)),
                _ => None,
            }
        } else {
            None
        },
        None => None,
    }
}

// ---- the scan ---------------------------------------------------------------------
/// One thing that the scan found.
pub enum Found {
    Host(String),
    InArtifact(String),
    OutArtifact(String),
    Secret(String, String, bool),
    Pvc(Path),
    Callee(String),
}

#[verifier::ext_equal]
pub enum FoundView {
    Host(Seq<char>),
    InArtifact(Seq<char>),
    OutArtifact(Seq<char>),
    Secret(Seq<char>, Seq<char>, bool),
    Pvc(PathView),
    Callee(Seq<char>),
}

impl DeepView for Found {
    type V = FoundView;

    open spec fn deep_view(&self) -> FoundView {
        match self {
            Found::Host(s) => FoundView::Host(s@),
            Found::InArtifact(s) => FoundView::InArtifact(s@),
            Found::OutArtifact(s) => FoundView::OutArtifact(s@),
            Found::Secret(n, k, o) => FoundView::Secret(n@, k@, *o),
            Found::Pvc(p) => FoundView::Pvc(p.deep_view()),
            Found::Callee(s) => FoundView::Callee(s@),
        }
    }
}

/// What a macro invocation declares. One that is not well-formed declares
/// nothing.
pub open spec fn declared(m: MacroCall) -> Option<FoundView> {
    match kind_of(m) {
        Some(DeclKind::Host) => match only_lit(m) {
            Some(s) => Some(FoundView::Host(s)),
            None => None,
        },
        Some(DeclKind::InArtifact) => match only_lit(m) {
            Some(s) => Some(FoundView::InArtifact(s)),
            None => None,
        },
        Some(DeclKind::OutArtifact) => match first_lit(m) {
            Some(s) => Some(FoundView::OutArtifact(s)),
            None => None,
        },
        Some(DeclKind::Secret) => match two_lits(m) {
            Some((n, k)) => Some(FoundView::Secret(n, k, false)),
            None => None,
        },
        Some(DeclKind::SecretOpt) => match two_lits(m) {
            Some((n, k)) => Some(FoundView::Secret(n, k, true)),
            None => None,
        },
        Some(DeclKind::Pvc) => match m.type_arg {
            Some(p) => Some(FoundView::Pvc(p.deep_view())),
            None => None,
        },
        None => None,
    }
}

pub open spec fn opt_seq(o: Option<FoundView>) -> Seq<FoundView> {
    match o {
        Some(f) => seq![f],
        None => Seq::empty(),
    }
}

/// What an expression declares and calls, in source order; a callee by its last
/// segment.
pub open spec fn found_in(e: Expr) -> Seq<FoundView>
    decreases e,
{
    match e {
        Expr::Lit(_) => Seq::empty(),
        Expr::Path(_) => Seq::empty(),
        Expr::Field { base, member: _ } => found_in(*base),
        Expr::Index { base, index } => found_in(*base) + found_in(*index),
        Expr::MethodCall { receiver, method: _, args } => found_in(*receiver) + found_in_all(args@),
        Expr::Call { func, args, text: _ } => (match *func {
            Expr::Path(p) => match last_segment(p) {
                Some(n) => seq![FoundView::Callee(n)],
                None => Seq::empty(),
            },
            _ => Seq::empty(),
        }) + found_in(*func) + found_in_all(args@),
        Expr::Closure { inputs: _, body } => found_in(*body),
        Expr::Block { stmts } => found_in_stmts(stmts@),
        Expr::If(i) => found_in(*i.cond) + found_in_stmts(i.then_branch@) + match i.else_branch {
            Some(x) => found_in(*x),
            None => Seq::empty(),
        },
        Expr::Binary { op: _, left, right } => found_in(*left) + found_in(*right),
        Expr::Not { expr } => found_in(*expr),
        Expr::Assign { left, right } => found_in(*left) + found_in(*right),
        Expr::Return { value } => match value {
            Some(x) => found_in(*x),
            None => Seq::empty(),
        },
        Expr::Paren { expr } => found_in(*expr),
        Expr::Group { expr } => found_in(*expr),
        Expr::Reference { mutable: _, expr } => found_in(*expr),
        Expr::Macro(m) => opt_seq(declared(m)),
        Expr::Other { kind: _, parts, stmts } => found_in_all(parts@) + found_in_stmts(stmts@),
    }
}

pub open spec fn found_in_all(s: Seq<Expr>) -> Seq<FoundView>
    decreases s,
{
    if s.len() == 0 {
        Seq::empty()
    } else {
        found_in_all(s.drop_last()) + found_in(s.last())
    }
}

pub open spec fn found_in_stmt(s: Stmt) -> Seq<FoundView>
    decreases s,
{
    match s {
        Stmt::Local { pat: _, init } => match init {
            Some(i) => found_in(i.expr) + match i.diverge {
                Some(x) => found_in(*x),
                None => Seq::empty(),
            },
            None => Seq::empty(),
        },
        Stmt::Expr { expr, semi: _ } => found_in(expr),
        Stmt::Macro(m) => opt_seq(declared(m)),
        Stmt::Item => Seq::empty(),
    }
}

pub open spec fn found_in_stmts(s: Seq<Stmt>) -> Seq<FoundView>
    decreases s,
{
    if s.len() == 0 {
        Seq::empty()
    } else {
        found_in_stmts(s.drop_last()) + found_in_stmt(s.last())
    }
}

fn push_found(acc: &mut Vec<Found>, f: Found)
    ensures
        final(acc).deep_view() == old(acc).deep_view() + seq![f.deep_view()],
{
    let ghost before = acc.deep_view();
    let ghost fv = f.deep_view();
    acc.push(f);
    proof {
        assert(acc.deep_view() =~= before + seq![fv]);
    }
}

fn scan_macro(m: &MacroCall, acc: &mut Vec<Found>)
    ensures
        final(acc).deep_view() == old(acc).deep_view() + opt_seq(declared(*m)),
{
    proof {
        assert(acc.deep_view() + Seq::<FoundView>::empty() =~= acc.deep_view());
    }
    match decl_kind(m) {
        Some(DeclKind::Host) => {
            if let Some(s) = only_str_lit(m) {
                push_found(acc, Found::Host(s));
            }
        },
        Some(DeclKind::InArtifact) => {
            if let Some(s) = only_str_lit(m) {
                push_found(acc, Found::InArtifact(s));
            }
        },
        Some(DeclKind::OutArtifact) => {
            if let Some(s) = first_str_lit(m) {
                push_found(acc, Found::OutArtifact(s));
            }
        },
        Some(DeclKind::Secret) => {
            if let Some((n, k)) = two_str_lits(m) {
                push_found(acc, Found::Secret(n, k, false));
            }
        },
        Some(DeclKind::SecretOpt) => {
            if let Some((n, k)) = two_str_lits(m) {
                push_found(acc, Found::Secret(n, k, true));
            }
        },
        Some(DeclKind::Pvc) => {
            if let Some(p) = &m.type_arg {
                push_found(acc, Found::Pvc(p.dup()));
            }
        },
        None => {},
    }
}

fn scan_expr(e: &Expr, acc: &mut Vec<Found>)
    ensures
        final(acc).deep_view() == old(acc).deep_view() + found_in(*e),
    decreases *e,
{
    let ghost a0 = acc.deep_view();
    match e {
        Expr::Lit(_) => {},
        Expr::Path(_) => {},
        Expr::Field { base, member: _ } => scan_expr(base, acc),
        Expr::Index { base, index } => {
            scan_expr(base, acc);
            scan_expr(index, acc);
        },
        Expr::MethodCall { receiver, method: _, args } => {
            scan_expr(receiver, acc);
            scan_exprs(args, acc);
        },
        Expr::Call { func, args, text: _ } => {
            match &**func {
                Expr::Path(p) => match last_name(p) {
                    Some(n) => push_found(acc, Found::Callee(n.to_owned())),
                    None => {},
                },
                _ => {},
            }
            scan_expr(func, acc);
            scan_exprs(args, acc);
        },
        Expr::Closure { inputs: _, body } => scan_expr(body, acc),
        Expr::Block { stmts } => scan_stmts(stmts, acc),
        Expr::If(i) => {
            scan_expr(&i.cond, acc);
            scan_stmts(&i.then_branch, acc);
            match &i.else_branch {
                Some(x) => scan_expr(x, acc),
                None => {},
            }
        },
        Expr::Binary { op: _, left, right } => {
            scan_expr(left, acc);
            scan_expr(right, acc);
        },
        Expr::Not { expr } => scan_expr(expr, acc),
        Expr::Assign { left, right } => {
            scan_expr(left, acc);
            scan_expr(right, acc);
        },
        Expr::Return { value } => {
            match value {
                Some(x) => scan_expr(x, acc),
                None => {},
            }
        },
        Expr::Paren { expr } => scan_expr(expr, acc),
        Expr::Group { expr } => scan_expr(expr, acc),
        Expr::Reference { mutable: _, expr } => scan_expr(expr, acc),
        Expr::Macro(m) => scan_macro(m, acc),
        Expr::Other { kind: _, parts, stmts } => {
            scan_exprs(parts, acc);
            scan_stmts(stmts, acc);
        },
    }
    proof {
        assert(acc.deep_view() =~= a0 + found_in(*e));
    }
}

fn scan_exprs(v: &Vec<Expr>, acc: &mut Vec<Found>)
    ensures
        final(acc).deep_view() == old(acc).deep_view() + found_in_all(v@),
    decreases v@,
{
    let ghost a0 = acc.deep_view();
    let mut i: usize = 0;
    proof {
        assert(v@.take(0) =~= Seq::<Expr>::empty());
        assert(a0 + found_in_all(v@.take(0)) =~= a0);
    }
    while i < v.len()
        invariant
            i <= v@.len(),
            acc.deep_view() == a0 + found_in_all(v@.take(i as int)),
        decreases v@.len() - i,
    {
        scan_expr(&v[i], acc);
        proof {
            let t = v@.take(i + 1);
            assert(t.drop_last() =~= v@.take(i as int));
            assert(t.last() == v@[i as int]);
            assert(acc.deep_view() =~= a0 + found_in_all(t));
        }
        i = i + 1;
    }
    proof {
        assert(v@.take(i as int) =~= v@);
    }
}

fn scan_stmts(v: &Vec<Stmt>, acc: &mut Vec<Found>)
    ensures
        final(acc).deep_view() == old(acc).deep_view() + found_in_stmts(v@),
    decreases v@,
{
    let ghost a0 = acc.deep_view();
    let mut i: usize = 0;
    proof {
        assert(v@.take(0) =~= Seq::<Stmt>::empty());
        assert(a0 + found_in_stmts(v@.take(0)) =~= a0);
    }
    while i < v.len()
        invariant
            i <= v@.len(),
            acc.deep_view() == a0 + found_in_stmts(v@.take(i as int)),
        decreases v@.len() - i,
    {
        let ghost a1 = acc.deep_view();
        match &v[i] {
            Stmt::Local { pat: _, init } => {
                match init {
                    Some(n) => {
                        scan_expr(&n.expr, acc);
                        match &n.diverge {
                            Some(x) => scan_expr(x, acc),
                            None => {},
                        }
                    },
                    None => {},
                }
            },
            Stmt::Expr { expr, semi: _ } => scan_expr(expr, acc),
            Stmt::Macro(m) => scan_macro(m, acc),
            Stmt::Item => {},
        }
        proof {
            let t = v@.take(i + 1);
            assert(t.drop_last() =~= v@.take(i as int));
            assert(t.last() == v@[i as int]);
            assert(acc.deep_view() =~= a1 + found_in_stmt(v@[i as int]));
            assert(acc.deep_view() =~= a0 + found_in_stmts(t));
        }
        i = i + 1;
    }
    proof {
        assert(v@.take(i as int) =~= v@);
    }
}

/// What a body declares and calls, each once.
pub struct BodyScan {
    pub host_paths: Vec<String>,
    pub in_artifacts: Vec<String>,
    pub out_artifacts: Vec<String>,
    pub secrets: Vec<(String, String, bool)>,
    pub pvc_types: Vec<Path>,
    pub callees: Vec<String>,
}

#[verifier::ext_equal]
pub struct BodyScanView {
    pub host_paths: Seq<Seq<char>>,
    pub in_artifacts: Seq<Seq<char>>,
    pub out_artifacts: Seq<Seq<char>>,
    pub secrets: Seq<(Seq<char>, Seq<char>, bool)>,
    pub pvc_types: Seq<PathView>,
    pub callees: Seq<Seq<char>>,
}

impl DeepView for BodyScan {
    type V = BodyScanView;

    open spec fn deep_view(&self) -> BodyScanView {
        BodyScanView {
            host_paths: self.host_paths.deep_view(),
            in_artifacts: self.in_artifacts.deep_view(),
            out_artifacts: self.out_artifacts.deep_view(),
            secrets: self.secrets.deep_view(),
            pvc_types: self.pvc_types.deep_view(),
            callees: self.callees.deep_view(),
        }
    }
}

impl BodyScanView {
    pub open spec fn empty() -> BodyScanView {
        BodyScanView {
            host_paths: Seq::empty(),
            in_artifacts: Seq::empty(),
            out_artifacts: Seq::empty(),
            secrets: Seq::empty(),
            pvc_types: Seq::empty(),
            callees: Seq::empty(),
        }
    }

    /// With one more thing found, in its place.
    pub open spec fn with(self, f: FoundView) -> BodyScanView {
        match f {
            FoundView::Host(s) => BodyScanView {
                host_paths: insert_by(self.host_paths, s, text_lt()),
                ..self
            },
            FoundView::InArtifact(s) => BodyScanView {
                in_artifacts: insert_by(self.in_artifacts, s, text_lt()),
                ..self
            },
            FoundView::OutArtifact(s) => BodyScanView {
                out_artifacts: insert_by(self.out_artifacts, s, text_lt()),
                ..self
            },
            FoundView::Secret(n, k, o) => BodyScanView {
                secrets: insert_by(self.secrets, (n, k, o), secret_lt()),
                ..self
            },
            FoundView::Pvc(p) => BodyScanView { pvc_types: add_path(self.pvc_types, p), ..self },
            FoundView::Callee(s) => BodyScanView {
                callees: insert_by(self.callees, s, text_lt()),
                ..self
            },
        }
    }
}

/// The scan that finds `found`: texts and secrets in order, claims in order of
/// appearance, each once.
pub open spec fn scan_of(found: Seq<FoundView>) -> BodyScanView
    decreases found.len(),
{
    if found.len() == 0 {
        BodyScanView::empty()
    } else {
        scan_of(found.drop_last()).with(found.last())
    }
}

/// Scans the body of a function.
pub fn scan_body(f: &FnDecl) -> (r: BodyScan)
    ensures
        r.deep_view() == scan_of(found_in_stmts(f.body@)),
{
    let mut found: Vec<Found> = Vec::new();
    proof {
        assert(found.deep_view() =~= Seq::<FoundView>::empty());
    }
    scan_stmts(&f.body, &mut found);
    let ghost all = found.deep_view();
    proof {
        assert(all =~= found_in_stmts(f.body@));
    }
    let mut s: BodyScan = BodyScan {
        host_paths: Vec::new(),
        in_artifacts: Vec::new(),
        out_artifacts: Vec::new(),
        secrets: Vec::new(),
        pvc_types: Vec::new(),
        callees: Vec::new(),
    };
    let mut i: usize = 0;
    proof {
        assert(all.take(0) =~= Seq::<FoundView>::empty());
        assert(s.deep_view() =~= BodyScanView::empty());
    }
    while i < found.len()
        invariant
            all == found.deep_view(),
            i <= found@.len(),
            s.deep_view() == scan_of(all.take(i as int)),
        decreases found@.len() - i,
    {
        proof {
            assert(all.take(i + 1).drop_last() =~= all.take(i as int));
            assert(all.take(i + 1).last() == found@[i as int].deep_view());
        }
        match &found[i] {
            Found::Host(x) => insert_text(&mut s.host_paths, x.clone()),
            Found::InArtifact(x) => insert_text(&mut s.in_artifacts, x.clone()),
            Found::OutArtifact(x) => insert_text(&mut s.out_artifacts, x.clone()),
            Found::Secret(n, k, o) => insert_secret(&mut s.secrets, (n.clone(), k.clone(), *o)),
            Found::Pvc(p) => add_one(&mut s.pvc_types, p),
            Found::Callee(x) => insert_text(&mut s.callees, x.clone()),
        }
        i = i + 1;
    }
    proof {
        assert(all.take(i as int) =~= all);
    }
    s
}

/// Every declaration and every call that the scan finds is in its result, on
/// whatever branch it stands.
pub proof fn law_scan_complete(found: Seq<FoundView>, i: int)
    requires
        0 <= i < found.len(),
    ensures
        match found[i] {
            FoundView::Host(s) => scan_of(found).host_paths.contains(s),
            FoundView::InArtifact(s) => scan_of(found).in_artifacts.contains(s),
            FoundView::OutArtifact(s) => scan_of(found).out_artifacts.contains(s),
            FoundView::Secret(n, k, o) => scan_of(found).secrets.contains((n, k, o)),
            FoundView::Callee(s) => scan_of(found).callees.contains(s),
            FoundView::Pvc(p) => crate::scope::has_text(scan_of(found).pvc_types, p.text),
        },
    decreases found.len(),
{
    let front = scan_of(found.drop_last());
    if i < found.len() - 1 {
        law_scan_complete(found.drop_last(), i);
        assert(found.drop_last()[i] == found[i]);
        match found[i] {
            FoundView::Pvc(p) => {
                let k = choose|k: int|
                    0 <= k < front.pvc_types.len() && (#[trigger] front.pvc_types[k]).text
                        == p.text;
                assert(scan_of(found).pvc_types[k] == front.pvc_types[k]);
            },
            _ => {},
        }
    }
    match found.last() {
        FoundView::Host(s) => lemma_insert_contains(front.host_paths, s, text_lt()),
        FoundView::InArtifact(s) => lemma_insert_contains(front.in_artifacts, s, text_lt()),
        FoundView::OutArtifact(s) => lemma_insert_contains(front.out_artifacts, s, text_lt()),
        FoundView::Secret(n, k, o) => lemma_insert_contains(
            front.secrets,
            (n, k, o),
            secret_lt(),
        ),
        FoundView::Callee(s) => lemma_insert_contains(front.callees, s, text_lt()),
        FoundView::Pvc(p) => {
            if !crate::scope::has_text(front.pvc_types, p.text) {
                let r = scan_of(found).pvc_types;
                assert(r[r.len() - 1].text == p.text);
            }
        },
    }
}

proof fn lemma_insert_contains<A>(acc: Seq<A>, x: A, lt: spec_fn(A, A) -> bool)
    ensures
        insert_by(acc, x, lt).contains(x),
        forall|y: A| acc.contains(y) ==> #[trigger] insert_by(acc, x, lt).contains(y),
    decreases acc.len(),
{
    let r = insert_by(acc, x, lt);
    if acc.len() == 0 {
        assert(r[0] == x);
    } else if lt(acc[0], x) {
        let t = acc.drop_first();
        lemma_insert_contains(t, x, lt);
        let q = insert_by(t, x, lt);
        let k = choose|k: int| 0 <= k < q.len() && q[k] == x;
        assert(r[k + 1] == x);
        assert forall|y: A| acc.contains(y) implies #[trigger] r.contains(y) by {
            let j = choose|j: int| 0 <= j < acc.len() && acc[j] == y;
            if j == 0 {
                assert(r[0] == y);
            } else {
                assert(t[j - 1] == y);
                assert(t.contains(y));
                assert(q.contains(y));
                let m = choose|m: int| 0 <= m < q.len() && q[m] == y;
                assert(r[m + 1] == y);
            }
        }
    } else if acc[0] != x {
        assert(r[0] == x);
        assert forall|y: A| acc.contains(y) implies #[trigger] r.contains(y) by {
            let j = choose|j: int| 0 <= j < acc.len() && acc[j] == y;
            assert(r[j + 1] == y);
        }
    } else {
        assert(acc[0] == x);
    }
}

// ---- expansion --------------------------------------------------------------------
/// What a declaration macro stands for in the body that runs: calls with paths
/// and names worked out.
pub enum DeclCall<'a> {
    /// The mount path of a host path.
    Host { mount: String },
    LoadArtifact { path: String, name: String },
    LoadArtifactStr { path: String, name: String },
    SaveArtifact { path: String, name: String, data: &'a Expr },
    SaveArtifactStr { path: String, name: String, data: &'a Expr },
    SecretValue { env: String, name: String, key: String },
    SecretValueOpt { env: String },
    /// The mount path of a claim's type.
    Pvc { claim: &'a Path },
}

pub enum DeclCallView {
    Host { mount: Seq<char> },
    LoadArtifact { path: Seq<char>, name: Seq<char> },
    LoadArtifactStr { path: Seq<char>, name: Seq<char> },
    SaveArtifact { path: Seq<char>, name: Seq<char>, data: Expr },
    SaveArtifactStr { path: Seq<char>, name: Seq<char>, data: Expr },
    SecretValue { env: Seq<char>, name: Seq<char>, key: Seq<char> },
    SecretValueOpt { env: Seq<char> },
    Pvc { claim: Path },
}

impl<'a> DeepView for DeclCall<'a> {
    type V = DeclCallView;

    open spec fn deep_view(&self) -> DeclCallView {
        match self {
            DeclCall::Host { mount } => DeclCallView::Host { mount: mount@ },
            DeclCall::LoadArtifact { path, name } => DeclCallView::LoadArtifact {
                path: path@,
                name: name@,
            },
            DeclCall::LoadArtifactStr { path, name } => DeclCallView::LoadArtifactStr {
                path: path@,
                name: name@,
            },
            DeclCall::SaveArtifact { path, name, data } => DeclCallView::SaveArtifact {
                path: path@,
                name: name@,
                data: **data,
            },
            DeclCall::SaveArtifactStr { path, name, data } => DeclCallView::SaveArtifactStr {
                path: path@,
                name: name@,
                data: **data,
            },
            DeclCall::SecretValue { env, name, key } => DeclCallView::SecretValue {
                env: env@,
                name: name@,
                key: key@,
            },
            DeclCall::SecretValueOpt { env } => DeclCallView::SecretValueOpt { env: env@ },
            DeclCall::Pvc { claim } => DeclCallView::Pvc { claim: **claim },
        }
    }
}

/// The name and the data of `save_artifact!("name", data)`.
pub open spec fn save_parts(m: MacroCall) -> Option<(Seq<char>, Expr)> {
    match m.args {
        Some(args) => if args@.len() == 2 {
            match lit_text(args@[0]) {
                Some(n) => Some((n, args@[1])),
                None => None,
            }
        } else {
            None
        },
        None => None,
    }
}

fn save_args(m: &MacroCall) -> (r: Option<(String, &Expr)>)
    ensures
        match r {
            Some((n, d)) => save_parts(*m) == Some((n@, *d)),
            None => save_parts(*m) is None,
        },
{
    match &m.args {
        Some(args) => if args.len() == 2 {
            match str_lit(&args[0]) {
                Some(n) => Some((n, &args[1])),
                None => None,
            }
        } else {
            None
        },
        None => None,
    }
}

/// What an invocation of the declaration macro `public` stands for.
pub open spec fn expanded(public: Seq<char>, m: MacroCall) -> Option<DeclCallView> {
    if public == "host"@ {
        match only_lit(m) {
            Some(s) => Some(DeclCallView::Host { mount: host_mount(s) }),
            None => None,
        }
    } else if public == "load_artifact"@ {
        match only_lit(m) {
            Some(s) => Some(DeclCallView::LoadArtifact { path: in_artifact(s), name: s }),
            None => None,
        }
    } else if public == "load_artifact_str"@ {
        match only_lit(m) {
            Some(s) => Some(DeclCallView::LoadArtifactStr { path: in_artifact(s), name: s }),
            None => None,
        }
    } else if public == "save_artifact"@ {
        match save_parts(m) {
            Some((s, data)) => Some(
                DeclCallView::SaveArtifact { path: out_artifact(s), name: s, data },
            ),
            None => None,
        }
    } else if public == "save_artifact_str"@ {
        match save_parts(m) {
            Some((s, data)) => Some(
                DeclCallView::SaveArtifactStr { path: out_artifact(s), name: s, data },
            ),
            None => None,
        }
    } else if public == "secret"@ {
        match two_lits(m) {
            Some((n, k)) => Some(
                DeclCallView::SecretValue { env: secret_env(n, k), name: n, key: k },
            ),
            None => None,
        }
    } else if public == "secret_opt"@ {
        match two_lits(m) {
            Some((n, k)) => Some(DeclCallView::SecretValueOpt { env: secret_env(n, k) }),
            None => None,
        }
    } else if public == "pvc"@ {
        match m.type_arg {
            Some(p) => Some(DeclCallView::Pvc { claim: p }),
            None => None,
        }
    } else {
        None
    }
}

/// What an invocation of the declaration macro `public` stands for; `None` where
/// it is not well-formed.
pub fn rewrite_decl_call<'a>(public: &str, m: &'a MacroCall) -> (r: Option<DeclCall<'a>>)
    ensures
        r.deep_view() == expanded(public@, *m),
{
    if str_eq(public, "host") {
        match only_str_lit(m) {
            Some(s) => Some(DeclCall::Host { mount: host_mount_path(s.as_str()) }),
            None => None,
        }
    } else if str_eq(public, "load_artifact") {
        match only_str_lit(m) {
            Some(s) => Some(
                DeclCall::LoadArtifact { path: in_artifact_path(s.as_str()), name: s },
            ),
            None => None,
        }
    } else if str_eq(public, "load_artifact_str") {
        match only_str_lit(m) {
            Some(s) => Some(
                DeclCall::LoadArtifactStr { path: in_artifact_path(s.as_str()), name: s },
            ),
            None => None,
        }
    } else if str_eq(public, "save_artifact") {
        match save_args(m) {
            Some((s, data)) => Some(
                DeclCall::SaveArtifact { path: out_artifact_path(s.as_str()), name: s, data },
            ),
            None => None,
        }
    } else if str_eq(public, "save_artifact_str") {
        match save_args(m) {
            Some((s, data)) => Some(
                DeclCall::SaveArtifactStr { path: out_artifact_path(s.as_str()), name: s, data },
            ),
            None => None,
        }
    } else if str_eq(public, "secret") {
        match two_str_lits(m) {
            Some((n, k)) => Some(
                DeclCall::SecretValue {
                    env: secret_env_name(n.as_str(), k.as_str()),
                    name: n,
                    key: k,
                },
            ),
            None => None,
        }
    } else if str_eq(public, "secret_opt") {
        match two_str_lits(m) {
            Some((n, k)) => Some(
                DeclCall::SecretValueOpt { env: secret_env_name(n.as_str(), k.as_str()) },
            ),
            None => None,
        }
    } else if str_eq(public, "pvc") {
        match &m.type_arg {
            Some(p) => Some(DeclCall::Pvc { claim: p }),
            None => None,
        }
    } else {
        None
    }
}

/// A body finds what it declares where the scan says: the code that stands for a
/// declaration macro goes by the name, the path or the variable of what the scan
/// records for it.
pub proof fn law_expansion_agrees_with_scan(m: MacroCall)
    requires
        last_segment(m.path) is Some,
    ensures
        match expanded(last_segment(m.path)->0, m) {
            Some(DeclCallView::Host { mount }) => declared(m) matches Some(FoundView::Host(s))
                && mount == host_mount(s),
            Some(DeclCallView::LoadArtifact { path, name }) => declared(m) == Some(
                FoundView::InArtifact(name),
            ) && path == in_artifact(name),
            Some(DeclCallView::LoadArtifactStr { path, name }) => declared(m) == Some(
                FoundView::InArtifact(name),
            ) && path == in_artifact(name),
            Some(DeclCallView::SaveArtifact { path, name, data: _ }) => declared(m) == Some(
                FoundView::OutArtifact(name),
            ) && path == out_artifact(name),
            Some(DeclCallView::SaveArtifactStr { path, name, data: _ }) => declared(m) == Some(
                FoundView::OutArtifact(name),
            ) && path == out_artifact(name),
            Some(DeclCallView::SecretValue { env, name, key }) => declared(m) == Some(
                FoundView::Secret(name, key, false),
            ) && env == secret_env(name, key),
            Some(DeclCallView::SecretValueOpt { env }) => declared(m) matches Some(
                FoundView::Secret(n, k, true),
            ) && env == secret_env(n, k),
            Some(DeclCallView::Pvc { claim }) => declared(m) == Some(
                FoundView::Pvc(claim.deep_view()),
            ),
            None => true,
        },
{
    reveal_strlit("host");
    reveal_strlit("load_artifact");
    reveal_strlit("load_artifact_str");
    reveal_strlit("save_artifact");
    reveal_strlit("save_artifact_str");
    reveal_strlit("secret");
    reveal_strlit("secret_opt");
    reveal_strlit("pvc");
}

} // verus!
