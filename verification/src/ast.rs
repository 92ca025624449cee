use vstd::prelude::*;
use crate::span::Span;

verus! {

/// How an identifier occurrence is bound, as the host's scope analyzer
/// labelled it.  The rules only act on `CatchClause`, but the other kinds
/// must stay distinguishable so that unrelated bindings of the same name
/// do not mis-fire.
#[derive(Clone, Copy, PartialEq, Eq, Structural, Debug)]
pub enum BindingKind {
    Var,
    Let,
    Const,
    Function,
    Class,
    Param,
    CatchClause,
    Import,
    Type,
}

/// The resolved binding of one identifier occurrence: its kind and the
/// span of its declaration site.
#[derive(Clone, Copy, PartialEq, Eq, Structural, Debug)]
pub struct Variable {
    pub kind: BindingKind,
    pub decl_span: Span,
}

/// An identifier occurrence.  `binding` is the scope map's answer for this
/// occurrence; `None` when the identifier does not resolve to a binding.
#[derive(Clone, Copy, PartialEq, Eq, Structural, Debug)]
pub struct Ident {
    pub span: Span,
    pub binding: Option<Variable>,
}

/// One declarator of a `var` / `let` / `const` statement.
pub struct VarDeclarator {
    pub span: Span,
    pub name: Pat,
    pub init: Option<Expr>,
}

/// One `case` (or `default`, when `test` is `None`) clause of a `switch`.
pub struct SwitchCase {
    pub span: Span,
    pub test: Option<Expr>,
    pub cons: Vec<Stmt>,
}

/// The `catch` part of a `try` statement.  `param` is absent for
/// `catch { ... }`.
pub struct CatchClause {
    pub span: Span,
    pub param: Option<Pat>,
    pub body: Vec<Stmt>,
}

/// The initializer slot of a classic `for` statement.
pub enum ForInit {
    Var(Vec<VarDeclarator>),
    Expr(Box<Expr>),
}

/// The left-hand slot of a `for..in` / `for..of` statement.
pub enum ForHead {
    Var(Vec<VarDeclarator>),
    Pat(Box<Pat>),
}

/// A member of a class body.  A stray `;` between members is an
/// `Empty` member, mirroring how the parser represents it.
pub enum ClassMember {
    Empty(Span),
    Method { span: Span, params: Vec<Pat>, body: Vec<Stmt> },
    Prop { span: Span, value: Option<Box<Expr>> },
}

/// An assignment target or binding pattern.
pub enum Pat {
    /// A plain identifier target.
    Ident(Ident),
    /// `[p1, p2, ...]`; the host drops elision holes.
    Array { span: Span, elems: Vec<Pat> },
    /// `{k1: p1, ...}`; each property contributes its value pattern, a
    /// shorthand `{x}` contributes the identifier pattern `x`, and a rest
    /// property contributes a `Rest` pattern.
    Object { span: Span, props: Vec<Pat> },
    /// A default-value pattern `p = expr`.
    Default { span: Span, pat: Box<Pat>, value: Box<Expr> },
    /// A rest element `...p`.
    Rest { span: Span, pat: Box<Pat> },
    /// A non-pattern target such as a member access `o.p`; it writes a
    /// property, never an identifier binding.
    Expr { span: Span, expr: Box<Expr> },
}

/// An expression.  Only the shapes the rules decide on are distinguished;
/// every other expression is `Other`, keeping its child expressions in
/// source order so that traversal order is preserved.
pub enum Expr {
    Ident(Ident),
    /// Any assignment expression, plain or augmented; `target` is the
    /// left-hand side, `value` the right-hand side.
    Assign { span: Span, target: Box<Pat>, value: Box<Expr> },
    /// A function or arrow expression with a block body.
    Fn { span: Span, params: Vec<Pat>, body: Vec<Stmt> },
    /// A class expression.
    Class { span: Span, members: Vec<ClassMember> },
    Other { span: Span, children: Vec<Expr> },
}

/// A statement.  Constructs without bespoke rule behaviour keep their
/// child statements under `Block` or their child expressions under
/// `Other` (`return e;`, `throw e;`, and the like).
pub enum Stmt {
    /// An empty statement: a lone `;`.
    Empty(Span),
    /// A block, module body, or namespace body.
    Block(Span, Vec<Stmt>),
    /// An expression statement.
    Expr(Span, Expr),
    /// A `var` / `let` / `const` declaration.
    Var(Span, Vec<VarDeclarator>),
    If { span: Span, test: Expr, cons: Box<Stmt>, alt: Option<Box<Stmt>> },
    For {
        span: Span,
        init: Option<ForInit>,
        test: Option<Expr>,
        update: Option<Expr>,
        body: Box<Stmt>,
    },
    ForIn { span: Span, left: ForHead, right: Expr, body: Box<Stmt> },
    ForOf { span: Span, left: ForHead, right: Expr, body: Box<Stmt> },
    While { span: Span, test: Expr, body: Box<Stmt> },
    DoWhile { span: Span, test: Expr, body: Box<Stmt> },
    With { span: Span, obj: Expr, body: Box<Stmt> },
    Labeled { span: Span, label: Ident, body: Box<Stmt> },
    Switch { span: Span, disc: Expr, cases: Vec<SwitchCase> },
    Try {
        span: Span,
        block: Vec<Stmt>,
        handler: Option<CatchClause>,
        finalizer: Option<Vec<Stmt>>,
    },
    /// A function declaration.
    Fn { span: Span, params: Vec<Pat>, body: Vec<Stmt> },
    /// A class declaration.
    Class { span: Span, members: Vec<ClassMember> },
    /// An interface declaration; the rules only read how many supertypes
    /// it extends and how many members its body holds.
    Interface { span: Span, n_extends: usize, n_members: usize },
    /// Any other statement; its child expressions in source order.
    Other(Span, Vec<Expr>),
}

/// A parsed program: the file it came from and its top-level statements.
/// Its source extent is the whole source text, `[0, len)` of `file`.
pub struct Program {
    pub file: usize,
    pub body: Vec<Stmt>,
}

impl Stmt {
    pub open spec fn span(self) -> Span {
        match self {
            Stmt::Empty(sp) => sp,
            Stmt::Block(sp, _) => sp,
            Stmt::Expr(sp, _) => sp,
            Stmt::Var(sp, _) => sp,
            Stmt::If { span, .. } => span,
            Stmt::For { span, .. } => span,
            Stmt::ForIn { span, .. } => span,
            Stmt::ForOf { span, .. } => span,
            Stmt::While { span, .. } => span,
            Stmt::DoWhile { span, .. } => span,
            Stmt::With { span, .. } => span,
            Stmt::Labeled { span, .. } => span,
            Stmt::Switch { span, .. } => span,
            Stmt::Try { span, .. } => span,
            Stmt::Fn { span, .. } => span,
            Stmt::Class { span, .. } => span,
            Stmt::Interface { span, .. } => span,
            Stmt::Other(sp, _) => sp,
        }
    }

    /// True for the one statement shape the stray-semicolon rule reports.
    pub open spec fn is_empty_stmt(self) -> bool {
        self is Empty
    }
}

impl Expr {
    pub open spec fn span(self) -> Span {
        match self {
            Expr::Ident(id) => id.span,
            Expr::Assign { span, .. } => span,
            Expr::Fn { span, .. } => span,
            Expr::Class { span, .. } => span,
            Expr::Other { span, .. } => span,
        }
    }

    pub fn get_span(&self) -> (sp: Span)
        ensures
            sp == self.span(),
    {
        match self {
            Expr::Ident(id) => id.span,
            Expr::Assign { span, .. } => *span,
            Expr::Fn { span, .. } => *span,
            Expr::Class { span, .. } => *span,
            Expr::Other { span, .. } => *span,
        }
    }
}

/// Well-formedness of a statement against source file `file` of `len`
/// bytes: every span in the subtree lies inside the source extent.
pub open spec fn wf_stmt(s: Stmt, file: usize, len: nat) -> bool
    decreases s,
{
    s.span().inside(file, len) && match s {
        Stmt::Empty(_) => true,
        Stmt::Block(_, body) => wf_stmts(body@, file, len),
        Stmt::Expr(_, e) => wf_expr(e, file, len),
        Stmt::Var(_, decls) => wf_declarators(decls@, file, len),
        Stmt::If { test, cons, alt, .. } => {
            wf_expr(test, file, len) && wf_stmt(*cons, file, len)
                && (alt matches Some(a) ==> wf_stmt(*a, file, len))
        },
        Stmt::For { init, test, update, body, .. } => {
            (init matches Some(i) ==> wf_for_init(i, file, len))
                && (test matches Some(t) ==> wf_expr(t, file, len))
                && (update matches Some(u) ==> wf_expr(u, file, len))
                && wf_stmt(*body, file, len)
        },
        Stmt::ForIn { left, right, body, .. } => {
            wf_for_head(left, file, len) && wf_expr(right, file, len)
                && wf_stmt(*body, file, len)
        },
        Stmt::ForOf { left, right, body, .. } => {
            wf_for_head(left, file, len) && wf_expr(right, file, len)
                && wf_stmt(*body, file, len)
        },
        Stmt::While { test, body, .. } => {
            wf_expr(test, file, len) && wf_stmt(*body, file, len)
        },
        Stmt::DoWhile { test, body, .. } => {
            wf_expr(test, file, len) && wf_stmt(*body, file, len)
        },
        Stmt::With { obj, body, .. } => {
            wf_expr(obj, file, len) && wf_stmt(*body, file, len)
        },
        Stmt::Labeled { label, body, .. } => {
            label.span.inside(file, len) && wf_stmt(*body, file, len)
        },
        Stmt::Switch { disc, cases, .. } => {
            wf_expr(disc, file, len) && wf_cases(cases@, file, len)
        },
        Stmt::Try { block, handler, finalizer, .. } => {
            wf_stmts(block@, file, len)
                && (handler matches Some(h) ==> wf_catch(h, file, len))
                && (finalizer matches Some(f) ==> wf_stmts(f@, file, len))
        },
        Stmt::Fn { params, body, .. } => {
            wf_pats(params@, file, len) && wf_stmts(body@, file, len)
        },
        Stmt::Class { members, .. } => wf_members(members@, file, len),
        Stmt::Interface { .. } => true,
        Stmt::Other(_, children) => wf_exprs(children@, file, len),
    }
}

pub open spec fn wf_stmts(ss: Seq<Stmt>, file: usize, len: nat) -> bool
    decreases ss,
{
    if ss.len() == 0 {
        true
    } else {
        wf_stmts(ss.drop_last(), file, len) && wf_stmt(ss.last(), file, len)
    }
}

/// Well-formedness of a list gives well-formedness of each element.
pub proof fn lemma_wf_stmts_index(ss: Seq<Stmt>, file: usize, len: nat, i: int)
    requires
        wf_stmts(ss, file, len),
        0 <= i < ss.len(),
    ensures
        wf_stmt(ss[i], file, len),
    decreases ss,
{
    if i == ss.len() - 1 {
    } else {
        lemma_wf_stmts_index(ss.drop_last(), file, len, i);
        assert(ss.drop_last()[i] == ss[i]);
    }
}

pub open spec fn wf_expr(e: Expr, file: usize, len: nat) -> bool
    decreases e,
{
    e.span().inside(file, len) && match e {
        Expr::Ident(_) => true,
        Expr::Assign { target, value, .. } => {
            wf_pat(*target, file, len) && wf_expr(*value, file, len)
        },
        Expr::Fn { params, body, .. } => {
            wf_pats(params@, file, len) && wf_stmts(body@, file, len)
        },
        Expr::Class { members, .. } => wf_members(members@, file, len),
        Expr::Other { children, .. } => wf_exprs(children@, file, len),
    }
}

pub open spec fn wf_exprs(es: Seq<Expr>, file: usize, len: nat) -> bool
    decreases es,
{
    if es.len() == 0 {
        true
    } else {
        wf_exprs(es.drop_last(), file, len) && wf_expr(es.last(), file, len)
    }
}

/// Well-formedness of a list gives well-formedness of each element.
pub proof fn lemma_wf_exprs_index(es: Seq<Expr>, file: usize, len: nat, i: int)
    requires
        wf_exprs(es, file, len),
        0 <= i < es.len(),
    ensures
        wf_expr(es[i], file, len),
    decreases es,
{
    if i == es.len() - 1 {
    } else {
        lemma_wf_exprs_index(es.drop_last(), file, len, i);
        assert(es.drop_last()[i] == es[i]);
    }
}

pub open spec fn wf_pat(p: Pat, file: usize, len: nat) -> bool
    decreases p,
{
    match p {
        Pat::Ident(id) => id.span.inside(file, len),
        Pat::Array { span, elems } => {
            span.inside(file, len) && wf_pats(elems@, file, len)
        },
        Pat::Object { span, props } => {
            span.inside(file, len) && wf_pats(props@, file, len)
        },
        Pat::Default { span, pat, value } => {
            span.inside(file, len) && wf_pat(*pat, file, len)
                && wf_expr(*value, file, len)
        },
        Pat::Rest { span, pat } => {
            span.inside(file, len) && wf_pat(*pat, file, len)
        },
        Pat::Expr { span, expr } => {
            span.inside(file, len) && wf_expr(*expr, file, len)
        },
    }
}

pub open spec fn wf_pats(ps: Seq<Pat>, file: usize, len: nat) -> bool
    decreases ps,
{
    if ps.len() == 0 {
        true
    } else {
        wf_pats(ps.drop_last(), file, len) && wf_pat(ps.last(), file, len)
    }
}

/// Well-formedness of a list gives well-formedness of each element.
pub proof fn lemma_wf_pats_index(ps: Seq<Pat>, file: usize, len: nat, i: int)
    requires
        wf_pats(ps, file, len),
        0 <= i < ps.len(),
    ensures
        wf_pat(ps[i], file, len),
    decreases ps,
{
    if i == ps.len() - 1 {
    } else {
        lemma_wf_pats_index(ps.drop_last(), file, len, i);
        assert(ps.drop_last()[i] == ps[i]);
    }
}

pub open spec fn wf_member(m: ClassMember, file: usize, len: nat) -> bool
    decreases m,
{
    match m {
        ClassMember::Empty(sp) => sp.inside(file, len),
        ClassMember::Method { span, params, body } => {
            span.inside(file, len) && wf_pats(params@, file, len)
                && wf_stmts(body@, file, len)
        },
        ClassMember::Prop { span, value } => {
            span.inside(file, len) && (value matches Some(v) ==> wf_expr(*v, file, len))
        },
    }
}

pub open spec fn wf_members(ms: Seq<ClassMember>, file: usize, len: nat) -> bool
    decreases ms,
{
    if ms.len() == 0 {
        true
    } else {
        wf_members(ms.drop_last(), file, len) && wf_member(ms.last(), file, len)
    }
}

/// Well-formedness of a list gives well-formedness of each element.
pub proof fn lemma_wf_members_index(ms: Seq<ClassMember>, file: usize, len: nat, i: int)
    requires
        wf_members(ms, file, len),
        0 <= i < ms.len(),
    ensures
        wf_member(ms[i], file, len),
    decreases ms,
{
    if i == ms.len() - 1 {
    } else {
        lemma_wf_members_index(ms.drop_last(), file, len, i);
        assert(ms.drop_last()[i] == ms[i]);
    }
}

pub open spec fn wf_case(c: SwitchCase, file: usize, len: nat) -> bool
    decreases c,
{
    c.span.inside(file, len) && (c.test matches Some(t) ==> wf_expr(t, file, len))
        && wf_stmts(c.cons@, file, len)
}

pub open spec fn wf_cases(cs: Seq<SwitchCase>, file: usize, len: nat) -> bool
    decreases cs,
{
    if cs.len() == 0 {
        true
    } else {
        wf_cases(cs.drop_last(), file, len) && wf_case(cs.last(), file, len)
    }
}

/// Well-formedness of a list gives well-formedness of each element.
pub proof fn lemma_wf_cases_index(cs: Seq<SwitchCase>, file: usize, len: nat, i: int)
    requires
        wf_cases(cs, file, len),
        0 <= i < cs.len(),
    ensures
        wf_case(cs[i], file, len),
    decreases cs,
{
    if i == cs.len() - 1 {
    } else {
        lemma_wf_cases_index(cs.drop_last(), file, len, i);
        assert(cs.drop_last()[i] == cs[i]);
    }
}

pub open spec fn wf_declarator(d: VarDeclarator, file: usize, len: nat) -> bool
    decreases d,
{
    d.span.inside(file, len) && wf_pat(d.name, file, len)
        && (d.init matches Some(e) ==> wf_expr(e, file, len))
}

pub open spec fn wf_declarators(ds: Seq<VarDeclarator>, file: usize, len: nat) -> bool
    decreases ds,
{
    if ds.len() == 0 {
        true
    } else {
        wf_declarators(ds.drop_last(), file, len) && wf_declarator(ds.last(), file, len)
    }
}

/// Well-formedness of a list gives well-formedness of each element.
pub proof fn lemma_wf_declarators_index(ds: Seq<VarDeclarator>, file: usize, len: nat, i: int)
    requires
        wf_declarators(ds, file, len),
        0 <= i < ds.len(),
    ensures
        wf_declarator(ds[i], file, len),
    decreases ds,
{
    if i == ds.len() - 1 {
    } else {
        lemma_wf_declarators_index(ds.drop_last(), file, len, i);
        assert(ds.drop_last()[i] == ds[i]);
    }
}

pub open spec fn wf_catch(h: CatchClause, file: usize, len: nat) -> bool
    decreases h,
{
    h.span.inside(file, len) && (h.param matches Some(p) ==> wf_pat(p, file, len))
        && wf_stmts(h.body@, file, len)
}

pub open spec fn wf_for_init(fi: ForInit, file: usize, len: nat) -> bool
    decreases fi,
{
    match fi {
        ForInit::Var(ds) => wf_declarators(ds@, file, len),
        ForInit::Expr(e) => wf_expr(*e, file, len),
    }
}

pub open spec fn wf_for_head(fh: ForHead, file: usize, len: nat) -> bool
    decreases fh,
{
    match fh {
        ForHead::Var(ds) => wf_declarators(ds@, file, len),
        ForHead::Pat(p) => wf_pat(*p, file, len),
    }
}

/// Well-formedness of a whole program against its source text.
pub open spec fn wf_program(p: Program, len: nat) -> bool {
    wf_stmts(p.body@, p.file, len)
}

} // verus!
