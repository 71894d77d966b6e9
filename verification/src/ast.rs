//! The syntax that the analyzer reads: plain expressions, statements and
//! patterns of a function body.

use crate::maps::Data;
use vstd::prelude::*;

verus! {

/// A literal. Numbers are held by their decimal digits.
pub enum Lit {
    Str(String),
    Int(String),
    Float(String),
    Bool(bool),
    Char(char),
    /// Byte, byte-string and C-string literals.
    Other,
}

/// A path: its segments, whether it has neither a leading `::` nor generic
/// arguments, whether it is qualified (`<T as U>::f`), and its token text.
#[derive(Debug, PartialEq)]
pub struct Path {
    pub segments: Vec<String>,
    pub plain: bool,
    pub qualified: bool,
    pub text: String,
}

#[verifier::ext_equal]
pub struct PathView {
    pub segments: Seq<Seq<char>>,
    pub plain: bool,
    pub qualified: bool,
    pub text: Seq<char>,
}

impl DeepView for Path {
    type V = PathView;

    open spec fn deep_view(&self) -> PathView {
        PathView {
            segments: self.segments.deep_view(),
            plain: self.plain,
            qualified: self.qualified,
            text: self.text@,
        }
    }
}

impl PathView {
    /// Every field at its empty value.
    pub open spec fn empty() -> PathView {
        PathView {
            segments: Seq::empty(),
            plain: false,
            qualified: false,
            text: Seq::empty(),
        }
    }
}

impl Default for Path {
    fn default() -> (r: Self)
        ensures
            r.deep_view() == PathView::empty(),
    {
        let r: Path = Path {
            segments: Vec::new(),
            plain: false,
            qualified: false,
            text: String::new(),
        };
        proof {
            assert(r.deep_view() =~= PathView::empty());
        }
        r
    }
}

impl Data for Path {
    fn same(&self, other: &Self) -> (r: bool) {
        self.segments.same(&other.segments)
            && self.plain.same(&other.plain)
            && self.qualified.same(&other.qualified)
            && self.text.same(&other.text)
    }

    fn dup(&self) -> (r: Self) {
        Path {
            segments: self.segments.dup(),
            plain: self.plain.dup(),
            qualified: self.qualified.dup(),
            text: self.text.dup(),
        }
    }
}


/// What a field access names.
pub enum Member {
    Named(String),
    /// A tuple field.
    Unnamed,
}

#[derive(Clone, Copy, PartialEq, Eq, Structural)]
pub enum BinOp {
    Add,
    Eq,
    Ne,
    Lt,
    Le,
    Gt,
    Ge,
    And,
    Or,
    Other,
}

/// Expressions that are told apart only in diagnostics.
#[derive(Clone, Copy, PartialEq, Eq, Structural)]
pub enum OtherKind {
    ForLoop,
    While,
    Loop,
    Match,
    Try,
    Async,
    Await,
    Unsafe,
    Plain,
}

/// A macro invocation: its path, its arguments where they are expressions
/// between commas, and its argument where that is a path.
pub struct MacroCall {
    pub path: Path,
    pub args: Option<Vec<Expr>>,
    pub type_arg: Option<Path>,
}

pub struct IfExpr {
    pub cond: Box<Expr>,
    pub then_branch: Vec<Stmt>,
    pub else_branch: Option<Box<Expr>>,
}

pub enum Expr {
    Lit(Lit),
    Path(Path),
    Field { base: Box<Expr>, member: Member },
    Index { base: Box<Expr>, index: Box<Expr> },
    MethodCall { receiver: Box<Expr>, method: String, args: Vec<Expr> },
    /// `text` is the token text of the whole call.
    Call { func: Box<Expr>, args: Vec<Expr>, text: String },
    Closure { inputs: Vec<Pat>, body: Box<Expr> },
    Block { stmts: Vec<Stmt> },
    If(IfExpr),
    Binary { op: BinOp, left: Box<Expr>, right: Box<Expr> },
    Not { expr: Box<Expr> },
    Assign { left: Box<Expr>, right: Box<Expr> },
    Return { value: Option<Box<Expr>> },
    Paren { expr: Box<Expr> },
    Group { expr: Box<Expr> },
    Reference { mutable: bool, expr: Box<Expr> },
    Macro(MacroCall),
    /// Anything else, with the expressions and the statements inside it in
    /// source order.
    Other { kind: OtherKind, parts: Vec<Expr>, stmts: Vec<Stmt> },
}

pub enum Pat {
    /// A name; `simple` unless it is bound by `ref` or has a subpattern.
    Ident { name: String, simple: bool },
    Wild,
    Type { pat: Box<Pat> },
    Other,
}

/// The right-hand side of a `let`; `diverge` is the block of a `let … else`.
pub struct Init {
    pub expr: Expr,
    pub diverge: Option<Box<Expr>>,
}

pub enum Stmt {
    Local { pat: Pat, init: Option<Init> },
    Expr { expr: Expr, semi: bool },
    Macro(MacroCall),
    Item,
}

/// A type as it is written: its token text, and, where it is a path, its last
/// segment and whether that has arguments.
pub struct TypeRef {
    pub text: String,
    pub leaf: Option<(String, bool)>,
}

/// A parameter of a function.
pub enum FnParam {
    Receiver,
    /// `name` where the pattern is an identifier; `inject` is the expression of
    /// an `#[inject("…")]` attribute.
    Typed { name: Option<String>, ty: TypeRef, inject: Option<String> },
}

/// A function under an attribute.
pub struct FnDecl {
    pub name: String,
    pub is_async: bool,
    pub generic: bool,
    pub params: Vec<FnParam>,
    pub output: Option<TypeRef>,
    pub body: Vec<Stmt>,
}

impl PathView {
    /// The name that the path is, where it is a single plain identifier.
    pub open spec fn ident(self) -> Option<Seq<char>> {
        if self.plain && self.segments.len() == 1 {
            Some(self.segments[0])
        } else {
            None
        }
    }

    /// The path that is the identifier `name`.
    pub open spec fn of(name: Seq<char>) -> PathView {
        PathView { segments: seq![name], plain: true, qualified: false, text: name }
    }

    /// The last segment.
    pub open spec fn leaf(self) -> Seq<char> {
        if self.segments.len() > 0 {
            self.segments.last()
        } else {
            "task"@
        }
    }
}

impl Path {
    /// Whether the path is the identifier `name`.
    pub fn is_ident(&self, name: &str) -> (r: bool)
        ensures
            r == (self.deep_view().ident() == Some(name@)),
    {
        self.plain && self.segments.len() == 1 && crate::text::str_eq(
            self.segments[0].as_str(),
            name,
        )
    }

    pub fn of(name: &str) -> (r: Path)
        ensures
            r.deep_view() == PathView::of(name@),
    {
        let mut segments: Vec<String> = Vec::new();
        segments.push(name.to_owned());
        let r: Path = Path { segments, plain: true, qualified: false, text: name.to_owned() };
        proof {
            assert(r.deep_view().segments =~= seq![name@]);
        }
        r
    }
}

/// `e` without the parentheses, groups and borrows around it.
pub open spec fn core_of(e: Expr) -> Expr
    decreases e,
{
    match e {
        Expr::Paren { expr } => core_of(*expr),
        Expr::Group { expr } => core_of(*expr),
        Expr::Reference { mutable: _, expr } => core_of(*expr),
        _ => e,
    }
}

/// What is left of an expression without parentheses, groups and borrows.
pub fn unwrap_expr(e: &Expr) -> (r: &Expr)
    ensures
        *r == core_of(*e),
    decreases *e,
{
    match e {
        Expr::Paren { expr } => unwrap_expr(expr),
        Expr::Group { expr } => unwrap_expr(expr),
        Expr::Reference { mutable: _, expr } => unwrap_expr(expr),
        _ => e,
    }
}

pub proof fn lemma_core(e: Expr)
    ensures
        core_of(e) == e || decreases_to!(e => core_of(e)),
        !(core_of(e) is Paren),
        !(core_of(e) is Group),
        !(core_of(e) is Reference),
        core_of(core_of(e)) == core_of(e),
    decreases e,
{
    match e {
        Expr::Paren { expr } => lemma_core(*expr),
        Expr::Group { expr } => lemma_core(*expr),
        Expr::Reference { mutable: _, expr } => lemma_core(*expr),
        _ => {},
    }
}

/// The callee and the arguments of `e`, where it calls a path.
pub open spec fn call_of(e: Expr) -> Option<(Path, Seq<Expr>)> {
    match core_of(e) {
        Expr::Call { func, args, text: _ } => match *func {
            Expr::Path(p) => Some((p, args@)),
            _ => None,
        },
        _ => None,
    }
}

pub proof fn lemma_call(e: Expr)
    ensures
        call_of(e) matches Some((_, args)) ==> decreases_to!(e => args),
{
    lemma_core(e);
}

/// `e` as a call of a path: its callee and its arguments.
pub fn call_parts(e: &Expr) -> (r: Option<(&Path, &Vec<Expr>)>)
    ensures
        match r {
            Some((p, args)) => call_of(*e) == Some((*p, args@)),
            None => call_of(*e) is None,
        },
{
    match unwrap_expr(e) {
        Expr::Call { func, args, text: _ } => match &**func {
            Expr::Path(p) => Some((p, args)),
            _ => None,
        },
        _ => None,
    }
}

/// The token text of `e`, a call under parentheses, groups and borrows.
pub open spec fn call_text(e: Expr) -> Seq<char>
    decreases e,
{
    match e {
        Expr::Paren { expr } => "("@ + call_text(*expr) + ")"@,
        Expr::Group { expr } => call_text(*expr),
        Expr::Reference { mutable, expr } => if mutable {
            "& mut "@ + call_text(*expr)
        } else {
            "& "@ + call_text(*expr)
        },
        Expr::Call { func: _, args: _, text } => text@,
        _ => Seq::empty(),
    }
}

pub fn call_key(e: &Expr) -> (r: String)
    ensures
        r@ == call_text(*e),
    decreases *e,
{
    match e {
        Expr::Paren { expr } => {
            let t: String = call_key(expr);
            crate::text::cat3("(", t.as_str(), ")")
        },
        Expr::Group { expr } => call_key(expr),
        Expr::Reference { mutable, expr } => {
            let t: String = call_key(expr);
            if *mutable {
                crate::text::cat2("& mut ", t.as_str())
            } else {
                crate::text::cat2("& ", t.as_str())
            }
        },
        Expr::Call { func: _, args: _, text } => text.clone(),
        _ => String::new(),
    }
}

/// Where a chain of field accesses starts, and the names along it.
pub enum Chain {
    /// Some access names a tuple field.
    Tuple,
    Root(Expr, Seq<Seq<char>>),
}

/// The chain of field accesses `base.a.b.c`; no access at all is the empty
/// chain.
pub open spec fn chain_of(e: Expr) -> Chain
    decreases e,
{
    match e {
        Expr::Paren { expr } => chain_of(*expr),
        Expr::Group { expr } => chain_of(*expr),
        Expr::Reference { mutable: _, expr } => chain_of(*expr),
        Expr::Field { base, member } => match member {
            Member::Named(n) => match chain_of(*base) {
                Chain::Root(b, path) => Chain::Root(b, path.push(n@)),
                Chain::Tuple => Chain::Tuple,
            },
            Member::Unnamed => Chain::Tuple,
        },
        _ => Chain::Root(e, Seq::empty()),
    }
}

pub fn field_chain(e: &Expr) -> (r: Option<(&Expr, Vec<String>)>)
    ensures
        match r {
            Some((b, path)) => chain_of(*e) == Chain::Root(*b, path.deep_view()),
            None => chain_of(*e) is Tuple,
        },
    decreases *e,
{
    match e {
        Expr::Paren { expr } => field_chain(expr),
        Expr::Group { expr } => field_chain(expr),
        Expr::Reference { mutable: _, expr } => field_chain(expr),
        Expr::Field { base, member } => match member {
            Member::Named(n) => match field_chain(base) {
                Some((b, path)) => {
                    let mut path = path;
                    let ghost before = path.deep_view();
                    path.push(n.clone());
                    proof {
                        assert(path.deep_view() =~= before.push(n@));
                    }
                    Some((b, path))
                },
                None => None,
            },
            Member::Unnamed => None,
        },
        _ => {
            let path: Vec<String> = Vec::new();
            proof {
                assert(path.deep_view() =~= Seq::<Seq<char>>::empty());
            }
            Some((e, path))
        },
    }
}

} // verus!
