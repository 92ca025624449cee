use vstd::prelude::*;
use crate::rules::Rule;
use crate::ast::{
    wf_case, wf_cases, wf_catch, wf_declarator, wf_declarators, wf_expr, wf_exprs, wf_for_head,
    wf_for_init, wf_member, wf_members, wf_pat, wf_pats, wf_program, wf_stmt, wf_stmts,
    CatchClause, ClassMember, Expr, ForHead, ForInit, Pat, Program, Stmt, SwitchCase,
    VarDeclarator,
};
use crate::context::{Context, Diagnostic};
use crate::span::Span;

verus! {

pub open spec fn diag(span: Span) -> Diagnostic {
    Diagnostic {
        span,
        code: "no-extra-semi",
        message: "Unnecessary semicolon.",
        hint: "Remove the extra (and unnecessary) semi-colon",
    }
}

pub open spec fn diags_of(spans: Seq<Span>) -> Seq<Diagnostic> {
    spans.map_values(|sp: Span| diag(sp))
}

pub proof fn lemma_diags_of_add(a: Seq<Span>, b: Seq<Span>)
    ensures
        diags_of(a + b) == diags_of(a) + diags_of(b),
{
    assert(diags_of(a + b) =~= diags_of(a) + diags_of(b));
}

/// Whether the grammar-mandated body slot of a construct is skipped:
/// exactly when the body is an empty statement, the author's explicit
/// "no body".
pub open spec fn skip_body(body: Stmt) -> bool {
    body.is_empty_stmt()
}

/// The spans of the empty statements that the selective walk reports
/// under one statement, in visit order: every empty statement met is
/// reported, but the empty body of a body-bearing construct (a loop,
/// `if` branch, `with`, or label) is not entered.
pub open spec fn semi_stmt(s: Stmt) -> Seq<Span>
    decreases s,
{
    match s {
        Stmt::Empty(sp) => seq![sp],
        Stmt::Block(_, body) => semi_stmts(body@),
        Stmt::Expr(_, e) => semi_expr(e),
        Stmt::Var(_, decls) => semi_declarators(decls@),
        Stmt::If { test, cons, alt, .. } => semi_expr(test) + (if skip_body(*cons) {
            Seq::empty()
        } else {
            semi_stmt(*cons)
        }) + (match alt {
            Some(a) => if skip_body(*a) {
                Seq::empty()
            } else {
                semi_stmt(*a)
            },
            None => Seq::empty(),
        }),
        Stmt::For { init, test, update, body, .. } => (match init {
            Some(i) => semi_for_init(i),
            None => Seq::empty(),
        }) + (match test {
            Some(t) => semi_expr(t),
            None => Seq::empty(),
        }) + (match update {
            Some(u) => semi_expr(u),
            None => Seq::empty(),
        }) + (if skip_body(*body) {
            Seq::empty()
        } else {
            semi_stmt(*body)
        }),
        Stmt::ForIn { left, right, body, .. } => semi_for_head(left) + semi_expr(right) + (
        if skip_body(*body) {
            Seq::empty()
        } else {
            semi_stmt(*body)
        }),
        Stmt::ForOf { left, right, body, .. } => semi_for_head(left) + semi_expr(right) + (
        if skip_body(*body) {
            Seq::empty()
        } else {
            semi_stmt(*body)
        }),
        Stmt::While { test, body, .. } => semi_expr(test) + (if skip_body(*body) {
            Seq::empty()
        } else {
            semi_stmt(*body)
        }),
        Stmt::DoWhile { test, body, .. } => semi_expr(test) + (if skip_body(*body) {
            Seq::empty()
        } else {
            semi_stmt(*body)
        }),
        Stmt::With { obj, body, .. } => semi_expr(obj) + (if skip_body(*body) {
            Seq::empty()
        } else {
            semi_stmt(*body)
        }),
        Stmt::Labeled { body, .. } => if skip_body(*body) {
            Seq::empty()
        } else {
            semi_stmt(*body)
        },
        Stmt::Switch { disc, cases, .. } => semi_expr(disc) + semi_cases(cases@),
        Stmt::Try { block, handler, finalizer, .. } => semi_stmts(block@) + (match handler {
            Some(h) => semi_catch(h),
            None => Seq::empty(),
        }) + (match finalizer {
            Some(f) => semi_stmts(f@),
            None => Seq::empty(),
        }),
        Stmt::Fn { params, body, .. } => semi_pats(params@) + semi_stmts(body@),
        Stmt::Class { members, .. } => semi_members(members@),
        Stmt::Interface { .. } => Seq::empty(),
        Stmt::Other(_, children) => semi_exprs(children@),
    }
}

pub open spec fn semi_stmts(ss: Seq<Stmt>) -> Seq<Span>
    decreases ss,
{
    if ss.len() == 0 {
        Seq::empty()
    } else {
        semi_stmts(ss.drop_last()) + semi_stmt(ss.last())
    }
}

pub open spec fn semi_expr(e: Expr) -> Seq<Span>
    decreases e,
{
    match e {
        Expr::Ident(_) => Seq::empty(),
        Expr::Assign { target, value, .. } => semi_pat(*target) + semi_expr(*value),
        Expr::Fn { params, body, .. } => semi_pats(params@) + semi_stmts(body@),
        Expr::Class { members, .. } => semi_members(members@),
        Expr::Other { children, .. } => semi_exprs(children@),
    }
}

pub open spec fn semi_exprs(es: Seq<Expr>) -> Seq<Span>
    decreases es,
{
    if es.len() == 0 {
        Seq::empty()
    } else {
        semi_exprs(es.drop_last()) + semi_expr(es.last())
    }
}

pub open spec fn semi_pat(p: Pat) -> Seq<Span>
    decreases p,
{
    match p {
        Pat::Ident(_) => Seq::empty(),
        Pat::Array { elems, .. } => semi_pats(elems@),
        Pat::Object { props, .. } => semi_pats(props@),
        Pat::Default { pat, value, .. } => semi_pat(*pat) + semi_expr(*value),
        Pat::Rest { pat, .. } => semi_pat(*pat),
        Pat::Expr { expr, .. } => semi_expr(*expr),
    }
}

pub open spec fn semi_pats(ps: Seq<Pat>) -> Seq<Span>
    decreases ps,
{
    if ps.len() == 0 {
        Seq::empty()
    } else {
        semi_pats(ps.drop_last()) + semi_pat(ps.last())
    }
}

/// A stray `;` in a class body is an empty member and is reported;
/// class bodies are walked normally.
pub open spec fn semi_member(m: ClassMember) -> Seq<Span>
    decreases m,
{
    match m {
        ClassMember::Empty(sp) => seq![sp],
        ClassMember::Method { params, body, .. } => semi_pats(params@) + semi_stmts(body@),
        ClassMember::Prop { value, .. } => match value {
            Some(v) => semi_expr(*v),
            None => Seq::empty(),
        },
    }
}

pub open spec fn semi_members(ms: Seq<ClassMember>) -> Seq<Span>
    decreases ms,
{
    if ms.len() == 0 {
        Seq::empty()
    } else {
        semi_members(ms.drop_last()) + semi_member(ms.last())
    }
}

pub open spec fn semi_case(c: SwitchCase) -> Seq<Span>
    decreases c,
{
    (match c.test {
        Some(t) => semi_expr(t),
        None => Seq::empty(),
    }) + semi_stmts(c.cons@)
}

pub open spec fn semi_cases(cs: Seq<SwitchCase>) -> Seq<Span>
    decreases cs,
{
    if cs.len() == 0 {
        Seq::empty()
    } else {
        semi_cases(cs.drop_last()) + semi_case(cs.last())
    }
}

pub open spec fn semi_declarator(d: VarDeclarator) -> Seq<Span>
    decreases d,
{
    semi_pat(d.name) + (match d.init {
        Some(e) => semi_expr(e),
        None => Seq::empty(),
    })
}

pub open spec fn semi_declarators(ds: Seq<VarDeclarator>) -> Seq<Span>
    decreases ds,
{
    if ds.len() == 0 {
        Seq::empty()
    } else {
        semi_declarators(ds.drop_last()) + semi_declarator(ds.last())
    }
}

pub open spec fn semi_catch(h: CatchClause) -> Seq<Span>
    decreases h,
{
    (match h.param {
        Some(p) => semi_pat(p),
        None => Seq::empty(),
    }) + semi_stmts(h.body@)
}

pub open spec fn semi_for_init(fi: ForInit) -> Seq<Span>
    decreases fi,
{
    match fi {
        ForInit::Var(ds) => semi_declarators(ds@),
        ForInit::Expr(e) => semi_expr(*e),
    }
}

pub open spec fn semi_for_head(fh: ForHead) -> Seq<Span>
    decreases fh,
{
    match fh {
        ForHead::Var(ds) => semi_declarators(ds@),
        ForHead::Pat(p) => semi_pat(*p),
    }
}

/// The spans this rule reports over a whole program, in visit order.
pub open spec fn program_spans(p: Program) -> Seq<Span> {
    semi_stmts(p.body@)
}

/// The diagnostics this rule reports over a whole program.
pub open spec fn program_diags(p: Program) -> Seq<Diagnostic> {
    diags_of(program_spans(p))
}

/// The traversal state of one stray-semicolon pass.  The walk decides
/// per construct whether to enter the body; there is no cross-construct
/// state.
pub struct NoExtraSemiVisitor;

impl NoExtraSemiVisitor {
    pub fn new() -> NoExtraSemiVisitor {
        NoExtraSemiVisitor
    }

    /// Report every empty statement the selective walk meets under `s`.
    pub fn visit_stmt(&self, ctx: &mut Context, s: &Stmt)
        requires
            old(ctx).inv(),
            wf_stmt(*s, old(ctx).file, old(ctx).source@.len()),
        ensures
            final(ctx).inv(),
            final(ctx).file == old(ctx).file,
            final(ctx).source == old(ctx).source,
            final(ctx).diagnostics@ == old(ctx).diagnostics@ + diags_of(semi_stmt(*s)),
        decreases *s, 0int,
    {
        match s {
            Stmt::Empty(sp) => {
                ctx.add_diagnostic_with_hint(
                    *sp,
                    "no-extra-semi",
                    "Unnecessary semicolon.",
                    "Remove the extra (and unnecessary) semi-colon",
                );
                proof {
                    assert(ctx.diagnostics@ =~= old(ctx).diagnostics@ + diags_of(semi_stmt(*s)));
                }
            },
            Stmt::Block(_, body) => {
                self.visit_stmts(ctx, body);
            },
            Stmt::Expr(_, e) => {
                self.visit_expr(ctx, e);
            },
            Stmt::Var(_, decls) => {
                self.visit_declarators(ctx, decls);
            },
            Stmt::If { test, cons, alt, .. } => {
                self.visit_expr(ctx, test);
                self.visit_body(ctx, cons);
                match alt {
                    Some(a) => {
                        self.visit_body(ctx, a);
                    },
                    None => {},
                }
                proof {
                    lemma_diags_of_add(semi_expr(*test), (if skip_body(**cons) {
                        Seq::empty()
                    } else {
                        semi_stmt(**cons)
                    }));
                    assert(ctx.diagnostics@ =~= old(ctx).diagnostics@ + diags_of(semi_stmt(*s)));
                }
            },
            Stmt::For { init, test, update, body, .. } => {
                match init {
                    Some(i) => {
                        self.visit_for_init(ctx, i);
                    },
                    None => {},
                }
                match test {
                    Some(t) => {
                        self.visit_expr(ctx, t);
                    },
                    None => {},
                }
                match update {
                    Some(u) => {
                        self.visit_expr(ctx, u);
                    },
                    None => {},
                }
                self.visit_body(ctx, body);
                proof {
                    assert(ctx.diagnostics@ =~= old(ctx).diagnostics@ + diags_of(semi_stmt(*s)));
                }
            },
            Stmt::ForIn { left, right, body, .. } => {
                self.visit_for_head(ctx, left);
                self.visit_expr(ctx, right);
                self.visit_body(ctx, body);
                proof {
                    assert(ctx.diagnostics@ =~= old(ctx).diagnostics@ + diags_of(semi_stmt(*s)));
                }
            },
            Stmt::ForOf { left, right, body, .. } => {
                self.visit_for_head(ctx, left);
                self.visit_expr(ctx, right);
                self.visit_body(ctx, body);
                proof {
                    assert(ctx.diagnostics@ =~= old(ctx).diagnostics@ + diags_of(semi_stmt(*s)));
                }
            },
            Stmt::While { test, body, .. } => {
                self.visit_expr(ctx, test);
                self.visit_body(ctx, body);
                proof {
                    assert(ctx.diagnostics@ =~= old(ctx).diagnostics@ + diags_of(semi_stmt(*s)));
                }
            },
            Stmt::DoWhile { test, body, .. } => {
                self.visit_expr(ctx, test);
                self.visit_body(ctx, body);
                proof {
                    assert(ctx.diagnostics@ =~= old(ctx).diagnostics@ + diags_of(semi_stmt(*s)));
                }
            },
            Stmt::With { obj, body, .. } => {
                self.visit_expr(ctx, obj);
                self.visit_body(ctx, body);
                proof {
                    assert(ctx.diagnostics@ =~= old(ctx).diagnostics@ + diags_of(semi_stmt(*s)));
                }
            },
            Stmt::Labeled { body, .. } => {
                self.visit_body(ctx, body);
            },
            Stmt::Switch { disc, cases, .. } => {
                self.visit_expr(ctx, disc);
                self.visit_cases(ctx, cases);
                proof {
                    assert(ctx.diagnostics@ =~= old(ctx).diagnostics@ + diags_of(semi_stmt(*s)));
                }
            },
            Stmt::Try { block, handler, finalizer, .. } => {
                self.visit_stmts(ctx, block);
                match handler {
                    Some(h) => {
                        self.visit_catch(ctx, h);
                    },
                    None => {},
                }
                match finalizer {
                    Some(f) => {
                        self.visit_stmts(ctx, f);
                    },
                    None => {},
                }
                proof {
                    assert(ctx.diagnostics@ =~= old(ctx).diagnostics@ + diags_of(semi_stmt(*s)));
                }
            },
            Stmt::Fn { params, body, .. } => {
                self.visit_pats(ctx, params);
                self.visit_stmts(ctx, body);
                proof {
                    assert(ctx.diagnostics@ =~= old(ctx).diagnostics@ + diags_of(semi_stmt(*s)));
                }
            },
            Stmt::Class { members, .. } => {
                self.visit_members(ctx, members);
            },
            Stmt::Interface { .. } => {
                proof {
                    assert(ctx.diagnostics@ =~= old(ctx).diagnostics@ + diags_of(semi_stmt(*s)));
                }
            },
            Stmt::Other(_, children) => {
                self.visit_exprs(ctx, children);
            },
        }
    }

    /// Enter a grammar-mandated body slot: skipped exactly when the
    /// body is the empty statement.
    fn visit_body(&self, ctx: &mut Context, body: &Box<Stmt>)
        requires
            old(ctx).inv(),
            wf_stmt(**body, old(ctx).file, old(ctx).source@.len()),
        ensures
            final(ctx).inv(),
            final(ctx).file == old(ctx).file,
            final(ctx).source == old(ctx).source,
            final(ctx).diagnostics@ == old(ctx).diagnostics@ + (if skip_body(**body) {
                Seq::empty()
            } else {
                diags_of(semi_stmt(**body))
            }),
        decreases **body, 1int,
    {
        match &**body {
            Stmt::Empty(_) => {},
            b => {
                self.visit_stmt(ctx, b);
            },
        }
    }

    fn visit_stmts(&self, ctx: &mut Context, ss: &Vec<Stmt>)
        requires
            old(ctx).inv(),
            wf_stmts(ss@, old(ctx).file, old(ctx).source@.len()),
        ensures
            final(ctx).inv(),
            final(ctx).file == old(ctx).file,
            final(ctx).source == old(ctx).source,
            final(ctx).diagnostics@ == old(ctx).diagnostics@ + diags_of(semi_stmts(ss@)),
        decreases ss@, 0int,
    {
        let mut i: usize = 0;
        while i < ss.len()
            invariant
                ctx.inv(),
                ctx.file == old(ctx).file,
                ctx.source == old(ctx).source,
                i <= ss@.len(),
                wf_stmts(ss@, ctx.file, ctx.source@.len()),
                ctx.diagnostics@ == old(ctx).diagnostics@ + diags_of(
                    semi_stmts(ss@.take(i as int)),
                ),
            decreases ss@.len() - i,
        {
            proof {
                crate::ast::lemma_wf_stmts_index(ss@, ctx.file, ctx.source@.len(), i as int);
            }
            self.visit_stmt(ctx, &ss[i]);
            proof {
                assert(ss@.take(i + 1).drop_last() =~= ss@.take(i as int));
                assert(ss@.take(i + 1).last() == ss@[i as int]);
                lemma_diags_of_add(semi_stmts(ss@.take(i as int)), semi_stmt(ss@[i as int]));
                assert(ctx.diagnostics@ =~= old(ctx).diagnostics@ + diags_of(
                    semi_stmts(ss@.take(i + 1)),
                ));
            }
            i = i + 1;
        }
        proof {
            assert(ss@.take(ss@.len() as int) =~= ss@);
        }
    }

    fn visit_expr(&self, ctx: &mut Context, e: &Expr)
        requires
            old(ctx).inv(),
            wf_expr(*e, old(ctx).file, old(ctx).source@.len()),
        ensures
            final(ctx).inv(),
            final(ctx).file == old(ctx).file,
            final(ctx).source == old(ctx).source,
            final(ctx).diagnostics@ == old(ctx).diagnostics@ + diags_of(semi_expr(*e)),
        decreases *e, 0int,
    {
        match e {
            Expr::Ident(_) => {
                proof {
                    assert(ctx.diagnostics@ =~= old(ctx).diagnostics@ + diags_of(semi_expr(*e)));
                }
            },
            Expr::Assign { target, value, .. } => {
                self.visit_pat(ctx, target);
                self.visit_expr(ctx, value);
                proof {
                    assert(ctx.diagnostics@ =~= old(ctx).diagnostics@ + diags_of(semi_expr(*e)));
                }
            },
            Expr::Fn { params, body, .. } => {
                self.visit_pats(ctx, params);
                self.visit_stmts(ctx, body);
                proof {
                    assert(ctx.diagnostics@ =~= old(ctx).diagnostics@ + diags_of(semi_expr(*e)));
                }
            },
            Expr::Class { members, .. } => {
                self.visit_members(ctx, members);
            },
            Expr::Other { children, .. } => {
                self.visit_exprs(ctx, children);
            },
        }
    }

    fn visit_exprs(&self, ctx: &mut Context, es: &Vec<Expr>)
        requires
            old(ctx).inv(),
            wf_exprs(es@, old(ctx).file, old(ctx).source@.len()),
        ensures
            final(ctx).inv(),
            final(ctx).file == old(ctx).file,
            final(ctx).source == old(ctx).source,
            final(ctx).diagnostics@ == old(ctx).diagnostics@ + diags_of(semi_exprs(es@)),
        decreases es@, 0int,
    {
        let mut i: usize = 0;
        while i < es.len()
            invariant
                ctx.inv(),
                ctx.file == old(ctx).file,
                ctx.source == old(ctx).source,
                i <= es@.len(),
                wf_exprs(es@, ctx.file, ctx.source@.len()),
                ctx.diagnostics@ == old(ctx).diagnostics@ + diags_of(
                    semi_exprs(es@.take(i as int)),
                ),
            decreases es@.len() - i,
        {
            proof {
                crate::ast::lemma_wf_exprs_index(es@, ctx.file, ctx.source@.len(), i as int);
            }
            self.visit_expr(ctx, &es[i]);
            proof {
                assert(es@.take(i + 1).drop_last() =~= es@.take(i as int));
                assert(es@.take(i + 1).last() == es@[i as int]);
                lemma_diags_of_add(semi_exprs(es@.take(i as int)), semi_expr(es@[i as int]));
                assert(ctx.diagnostics@ =~= old(ctx).diagnostics@ + diags_of(
                    semi_exprs(es@.take(i + 1)),
                ));
            }
            i = i + 1;
        }
        proof {
            assert(es@.take(es@.len() as int) =~= es@);
        }
    }

    fn visit_pat(&self, ctx: &mut Context, p: &Pat)
        requires
            old(ctx).inv(),
            wf_pat(*p, old(ctx).file, old(ctx).source@.len()),
        ensures
            final(ctx).inv(),
            final(ctx).file == old(ctx).file,
            final(ctx).source == old(ctx).source,
            final(ctx).diagnostics@ == old(ctx).diagnostics@ + diags_of(semi_pat(*p)),
        decreases *p, 0int,
    {
        match p {
            Pat::Ident(_) => {
                proof {
                    assert(ctx.diagnostics@ =~= old(ctx).diagnostics@ + diags_of(semi_pat(*p)));
                }
            },
            Pat::Array { elems, .. } => {
                self.visit_pats(ctx, elems);
            },
            Pat::Object { props, .. } => {
                self.visit_pats(ctx, props);
            },
            Pat::Default { pat, value, .. } => {
                self.visit_pat(ctx, pat);
                self.visit_expr(ctx, value);
                proof {
                    assert(ctx.diagnostics@ =~= old(ctx).diagnostics@ + diags_of(semi_pat(*p)));
                }
            },
            Pat::Rest { pat, .. } => {
                self.visit_pat(ctx, pat);
            },
            Pat::Expr { expr, .. } => {
                self.visit_expr(ctx, expr);
            },
        }
    }

    fn visit_pats(&self, ctx: &mut Context, ps: &Vec<Pat>)
        requires
            old(ctx).inv(),
            wf_pats(ps@, old(ctx).file, old(ctx).source@.len()),
        ensures
            final(ctx).inv(),
            final(ctx).file == old(ctx).file,
            final(ctx).source == old(ctx).source,
            final(ctx).diagnostics@ == old(ctx).diagnostics@ + diags_of(semi_pats(ps@)),
        decreases ps@, 0int,
    {
        let mut i: usize = 0;
        while i < ps.len()
            invariant
                ctx.inv(),
                ctx.file == old(ctx).file,
                ctx.source == old(ctx).source,
                i <= ps@.len(),
                wf_pats(ps@, ctx.file, ctx.source@.len()),
                ctx.diagnostics@ == old(ctx).diagnostics@ + diags_of(
                    semi_pats(ps@.take(i as int)),
                ),
            decreases ps@.len() - i,
        {
            proof {
                crate::ast::lemma_wf_pats_index(ps@, ctx.file, ctx.source@.len(), i as int);
            }
            self.visit_pat(ctx, &ps[i]);
            proof {
                assert(ps@.take(i + 1).drop_last() =~= ps@.take(i as int));
                assert(ps@.take(i + 1).last() == ps@[i as int]);
                lemma_diags_of_add(semi_pats(ps@.take(i as int)), semi_pat(ps@[i as int]));
                assert(ctx.diagnostics@ =~= old(ctx).diagnostics@ + diags_of(
                    semi_pats(ps@.take(i + 1)),
                ));
            }
            i = i + 1;
        }
        proof {
            assert(ps@.take(ps@.len() as int) =~= ps@);
        }
    }

    fn visit_member(&self, ctx: &mut Context, m: &ClassMember)
        requires
            old(ctx).inv(),
            wf_member(*m, old(ctx).file, old(ctx).source@.len()),
        ensures
            final(ctx).inv(),
            final(ctx).file == old(ctx).file,
            final(ctx).source == old(ctx).source,
            final(ctx).diagnostics@ == old(ctx).diagnostics@ + diags_of(semi_member(*m)),
        decreases *m, 0int,
    {
        match m {
            ClassMember::Empty(sp) => {
                ctx.add_diagnostic_with_hint(
                    *sp,
                    "no-extra-semi",
                    "Unnecessary semicolon.",
                    "Remove the extra (and unnecessary) semi-colon",
                );
                proof {
                    assert(ctx.diagnostics@ =~= old(ctx).diagnostics@ + diags_of(semi_member(*m)));
                }
            },
            ClassMember::Method { params, body, .. } => {
                self.visit_pats(ctx, params);
                self.visit_stmts(ctx, body);
                proof {
                    assert(ctx.diagnostics@ =~= old(ctx).diagnostics@ + diags_of(semi_member(*m)));
                }
            },
            ClassMember::Prop { value, .. } => {
                match value {
                    Some(v) => {
                        self.visit_expr(ctx, v);
                    },
                    None => {},
                }
                proof {
                    assert(ctx.diagnostics@ =~= old(ctx).diagnostics@ + diags_of(semi_member(*m)));
                }
            },
        }
    }

    fn visit_members(&self, ctx: &mut Context, ms: &Vec<ClassMember>)
        requires
            old(ctx).inv(),
            wf_members(ms@, old(ctx).file, old(ctx).source@.len()),
        ensures
            final(ctx).inv(),
            final(ctx).file == old(ctx).file,
            final(ctx).source == old(ctx).source,
            final(ctx).diagnostics@ == old(ctx).diagnostics@ + diags_of(semi_members(ms@)),
        decreases ms@, 0int,
    {
        let mut i: usize = 0;
        while i < ms.len()
            invariant
                ctx.inv(),
                ctx.file == old(ctx).file,
                ctx.source == old(ctx).source,
                i <= ms@.len(),
                wf_members(ms@, ctx.file, ctx.source@.len()),
                ctx.diagnostics@ == old(ctx).diagnostics@ + diags_of(
                    semi_members(ms@.take(i as int)),
                ),
            decreases ms@.len() - i,
        {
            proof {
                crate::ast::lemma_wf_members_index(ms@, ctx.file, ctx.source@.len(), i as int);
            }
            self.visit_member(ctx, &ms[i]);
            proof {
                assert(ms@.take(i + 1).drop_last() =~= ms@.take(i as int));
                assert(ms@.take(i + 1).last() == ms@[i as int]);
                lemma_diags_of_add(semi_members(ms@.take(i as int)), semi_member(ms@[i as int]));
                assert(ctx.diagnostics@ =~= old(ctx).diagnostics@ + diags_of(
                    semi_members(ms@.take(i + 1)),
                ));
            }
            i = i + 1;
        }
        proof {
            assert(ms@.take(ms@.len() as int) =~= ms@);
        }
    }

    fn visit_case(&self, ctx: &mut Context, c: &SwitchCase)
        requires
            old(ctx).inv(),
            wf_case(*c, old(ctx).file, old(ctx).source@.len()),
        ensures
            final(ctx).inv(),
            final(ctx).file == old(ctx).file,
            final(ctx).source == old(ctx).source,
            final(ctx).diagnostics@ == old(ctx).diagnostics@ + diags_of(semi_case(*c)),
        decreases *c, 0int,
    {
        match &c.test {
            Some(t) => {
                self.visit_expr(ctx, t);
            },
            None => {},
        }
        self.visit_stmts(ctx, &c.cons);
        proof {
            assert(ctx.diagnostics@ =~= old(ctx).diagnostics@ + diags_of(semi_case(*c)));
        }
    }

    fn visit_cases(&self, ctx: &mut Context, cs: &Vec<SwitchCase>)
        requires
            old(ctx).inv(),
            wf_cases(cs@, old(ctx).file, old(ctx).source@.len()),
        ensures
            final(ctx).inv(),
            final(ctx).file == old(ctx).file,
            final(ctx).source == old(ctx).source,
            final(ctx).diagnostics@ == old(ctx).diagnostics@ + diags_of(semi_cases(cs@)),
        decreases cs@, 0int,
    {
        let mut i: usize = 0;
        while i < cs.len()
            invariant
                ctx.inv(),
                ctx.file == old(ctx).file,
                ctx.source == old(ctx).source,
                i <= cs@.len(),
                wf_cases(cs@, ctx.file, ctx.source@.len()),
                ctx.diagnostics@ == old(ctx).diagnostics@ + diags_of(
                    semi_cases(cs@.take(i as int)),
                ),
            decreases cs@.len() - i,
        {
            proof {
                crate::ast::lemma_wf_cases_index(cs@, ctx.file, ctx.source@.len(), i as int);
            }
            self.visit_case(ctx, &cs[i]);
            proof {
                assert(cs@.take(i + 1).drop_last() =~= cs@.take(i as int));
                assert(cs@.take(i + 1).last() == cs@[i as int]);
                lemma_diags_of_add(semi_cases(cs@.take(i as int)), semi_case(cs@[i as int]));
                assert(ctx.diagnostics@ =~= old(ctx).diagnostics@ + diags_of(
                    semi_cases(cs@.take(i + 1)),
                ));
            }
            i = i + 1;
        }
        proof {
            assert(cs@.take(cs@.len() as int) =~= cs@);
        }
    }

    fn visit_declarator(&self, ctx: &mut Context, d: &VarDeclarator)
        requires
            old(ctx).inv(),
            wf_declarator(*d, old(ctx).file, old(ctx).source@.len()),
        ensures
            final(ctx).inv(),
            final(ctx).file == old(ctx).file,
            final(ctx).source == old(ctx).source,
            final(ctx).diagnostics@ == old(ctx).diagnostics@ + diags_of(semi_declarator(*d)),
        decreases *d, 0int,
    {
        self.visit_pat(ctx, &d.name);
        match &d.init {
            Some(e) => {
                self.visit_expr(ctx, e);
            },
            None => {},
        }
        proof {
            assert(ctx.diagnostics@ =~= old(ctx).diagnostics@ + diags_of(semi_declarator(*d)));
        }
    }

    fn visit_declarators(&self, ctx: &mut Context, ds: &Vec<VarDeclarator>)
        requires
            old(ctx).inv(),
            wf_declarators(ds@, old(ctx).file, old(ctx).source@.len()),
        ensures
            final(ctx).inv(),
            final(ctx).file == old(ctx).file,
            final(ctx).source == old(ctx).source,
            final(ctx).diagnostics@ == old(ctx).diagnostics@ + diags_of(semi_declarators(ds@)),
        decreases ds@, 0int,
    {
        let mut i: usize = 0;
        while i < ds.len()
            invariant
                ctx.inv(),
                ctx.file == old(ctx).file,
                ctx.source == old(ctx).source,
                i <= ds@.len(),
                wf_declarators(ds@, ctx.file, ctx.source@.len()),
                ctx.diagnostics@ == old(ctx).diagnostics@ + diags_of(
                    semi_declarators(ds@.take(i as int)),
                ),
            decreases ds@.len() - i,
        {
            proof {
                crate::ast::lemma_wf_declarators_index(ds@, ctx.file, ctx.source@.len(), i as int);
            }
            self.visit_declarator(ctx, &ds[i]);
            proof {
                assert(ds@.take(i + 1).drop_last() =~= ds@.take(i as int));
                assert(ds@.take(i + 1).last() == ds@[i as int]);
                lemma_diags_of_add(
                    semi_declarators(ds@.take(i as int)),
                    semi_declarator(ds@[i as int]),
                );
                assert(ctx.diagnostics@ =~= old(ctx).diagnostics@ + diags_of(
                    semi_declarators(ds@.take(i + 1)),
                ));
            }
            i = i + 1;
        }
        proof {
            assert(ds@.take(ds@.len() as int) =~= ds@);
        }
    }

    fn visit_catch(&self, ctx: &mut Context, h: &CatchClause)
        requires
            old(ctx).inv(),
            wf_catch(*h, old(ctx).file, old(ctx).source@.len()),
        ensures
            final(ctx).inv(),
            final(ctx).file == old(ctx).file,
            final(ctx).source == old(ctx).source,
            final(ctx).diagnostics@ == old(ctx).diagnostics@ + diags_of(semi_catch(*h)),
        decreases *h, 0int,
    {
        match &h.param {
            Some(p) => {
                self.visit_pat(ctx, p);
            },
            None => {},
        }
        self.visit_stmts(ctx, &h.body);
        proof {
            assert(ctx.diagnostics@ =~= old(ctx).diagnostics@ + diags_of(semi_catch(*h)));
        }
    }

    fn visit_for_init(&self, ctx: &mut Context, fi: &ForInit)
        requires
            old(ctx).inv(),
            wf_for_init(*fi, old(ctx).file, old(ctx).source@.len()),
        ensures
            final(ctx).inv(),
            final(ctx).file == old(ctx).file,
            final(ctx).source == old(ctx).source,
            final(ctx).diagnostics@ == old(ctx).diagnostics@ + diags_of(semi_for_init(*fi)),
        decreases *fi, 0int,
    {
        match fi {
            ForInit::Var(ds) => {
                self.visit_declarators(ctx, ds);
            },
            ForInit::Expr(e) => {
                self.visit_expr(ctx, e);
            },
        }
    }

    fn visit_for_head(&self, ctx: &mut Context, fh: &ForHead)
        requires
            old(ctx).inv(),
            wf_for_head(*fh, old(ctx).file, old(ctx).source@.len()),
        ensures
            final(ctx).inv(),
            final(ctx).file == old(ctx).file,
            final(ctx).source == old(ctx).source,
            final(ctx).diagnostics@ == old(ctx).diagnostics@ + diags_of(semi_for_head(*fh)),
        decreases *fh, 0int,
    {
        match fh {
            ForHead::Var(ds) => {
                self.visit_declarators(ctx, ds);
            },
            ForHead::Pat(p) => {
                self.visit_pat(ctx, p);
            },
        }
    }

    /// Run the whole pass over one program.
    pub fn visit_program(&self, ctx: &mut Context, p: &Program)
        requires
            old(ctx).inv(),
            wf_program(*p, old(ctx).source@.len()),
            p.file == old(ctx).file,
        ensures
            final(ctx).inv(),
            final(ctx).file == old(ctx).file,
            final(ctx).source == old(ctx).source,
            final(ctx).diagnostics@ == old(ctx).diagnostics@ + program_diags(*p),
    {
        self.visit_stmts(ctx, &p.body);
    }
}


/// The rule value the registry hands out: stateless, reusable across
/// programs.
pub struct NoExtraSemi;

impl NoExtraSemi {
    pub fn new() -> Box<NoExtraSemi> {
        Box::new(NoExtraSemi)
    }

    /// The classification tags of this rule.
    pub fn tags(&self) -> (t: Vec<&'static str>)
        ensures
            t@ == seq!["recommended"],
    {
        let mut t: Vec<&'static str> = Vec::new();
        t.push("recommended");
        proof {
            assert(t@ =~= seq!["recommended"]);
        }
        t
    }

    /// The stable diagnostic code of this rule.
    pub fn code(&self) -> (c: &'static str)
        ensures
            c == Rule::StraySemicolon.code_spec(),
    {
        Rule::StraySemicolon.code()
    }

    /// Run this rule once over one program, appending its diagnostics.
    pub fn lint_program(&self, context: &mut Context, program: &Program)
        requires
            old(context).inv(),
            crate::ast::wf_program(*program, old(context).source@.len()),
            program.file == old(context).file,
        ensures
            final(context).inv(),
            final(context).file == old(context).file,
            final(context).source == old(context).source,
            final(context).diagnostics@ == old(context).diagnostics@ + crate::rules::rule_diags(
                Rule::StraySemicolon,
                *program,
                old(context).source@,
            ),
    {
        let v = NoExtraSemiVisitor::new();
        v.visit_program(context, program);
    }

    /// The rationale of this rule, with example blocks.
    pub fn docs(&self) -> &'static str {
        r#"Disallows the use of unnecessary semi-colons

Extra (and unnecessary) semi-colons can cause confusion when reading the
code as well as making the code less clean.

### Invalid:
```typescript
const x = 5;;

function foo() {};
```

### Valid:
```typescript
const x = 5;

function foo() {}
```
"#
    }
}

} // verus!
