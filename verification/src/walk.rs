use vstd::prelude::*;
use crate::ast::{
    CatchClause, ClassMember, Expr, ForHead, ForInit, Pat, Program, Stmt, SwitchCase,
    VarDeclarator,
};
use crate::span::Span;
use crate::context::{Context, Diagnostic};
use crate::ast::{
    lemma_wf_cases_index, lemma_wf_declarators_index, lemma_wf_exprs_index,
    lemma_wf_members_index, lemma_wf_pats_index, lemma_wf_stmts_index, wf_case, wf_cases,
    wf_catch, wf_declarator, wf_declarators, wf_expr, wf_exprs, wf_for_head, wf_for_init,
    wf_member, wf_members, wf_pat, wf_pats, wf_program, wf_stmt, wf_stmts,
};
use crate::rules::no_duplicate_case::NoDuplicateCaseVisitor;
use crate::rules::no_empty_interface::NoEmptyInterfaceVisitor;
use crate::rules::no_ex_assign::NoExAssignVisitor;
use crate::rules::{
    event_diags, events_diags, lemma_events_diags_add, lemma_events_diags_singleton, Rule,
};

verus! {

/// One observation of the default pre-order traversal: a node kind that
/// some rule decides on, together with what that rule reads from it.
/// The stream of events of a program fixes, for each rule that uses the
/// default traversal, both which diagnostics it reports and their order.
pub enum Event {
    Switch { span: Span, cases: Vec<SwitchCase> },
    Interface { span: Span, n_extends: usize, n_members: usize },
    Assign { span: Span, target: Pat },
}

/// The events of one statement, in the order the default traversal
/// meets them: the statement's own event first, then its children in
/// source order.
pub open spec fn events_stmt(s: Stmt) -> Seq<Event>
    decreases s,
{
    match s {
        Stmt::Empty(_) => Seq::empty(),
        Stmt::Block(_, body) => events_stmts(body@),
        Stmt::Expr(_, e) => events_expr(e),
        Stmt::Var(_, decls) => events_declarators(decls@),
        Stmt::If { test, cons, alt, .. } => events_expr(test) + events_stmt(*cons) + (
        match alt {
            Some(a) => events_stmt(*a),
            None => Seq::empty(),
        }),
        Stmt::For { init, test, update, body, .. } => (match init {
            Some(i) => events_for_init(i),
            None => Seq::empty(),
        }) + (match test {
            Some(t) => events_expr(t),
            None => Seq::empty(),
        }) + (match update {
            Some(u) => events_expr(u),
            None => Seq::empty(),
        }) + events_stmt(*body),
        Stmt::ForIn { left, right, body, .. } => events_for_head(left) + events_expr(right)
            + events_stmt(*body),
        Stmt::ForOf { left, right, body, .. } => events_for_head(left) + events_expr(right)
            + events_stmt(*body),
        Stmt::While { test, body, .. } => events_expr(test) + events_stmt(*body),
        Stmt::DoWhile { test, body, .. } => events_expr(test) + events_stmt(*body),
        Stmt::With { obj, body, .. } => events_expr(obj) + events_stmt(*body),
        Stmt::Labeled { body, .. } => events_stmt(*body),
        Stmt::Switch { span, disc, cases } => seq![Event::Switch { span, cases }]
            + events_expr(disc) + events_cases(cases@),
        Stmt::Try { block, handler, finalizer, .. } => events_stmts(block@) + (match handler {
            Some(h) => events_catch(h),
            None => Seq::empty(),
        }) + (match finalizer {
            Some(f) => events_stmts(f@),
            None => Seq::empty(),
        }),
        Stmt::Fn { params, body, .. } => events_pats(params@) + events_stmts(body@),
        Stmt::Class { members, .. } => events_members(members@),
        Stmt::Interface { span, n_extends, n_members } => seq![
            Event::Interface { span, n_extends, n_members },
        ],
        Stmt::Other(_, children) => events_exprs(children@),
    }
}

pub open spec fn events_stmts(ss: Seq<Stmt>) -> Seq<Event>
    decreases ss,
{
    if ss.len() == 0 {
        Seq::empty()
    } else {
        events_stmts(ss.drop_last()) + events_stmt(ss.last())
    }
}

pub open spec fn events_expr(e: Expr) -> Seq<Event>
    decreases e,
{
    match e {
        Expr::Ident(_) => Seq::empty(),
        Expr::Assign { span, target, value } => seq![
            Event::Assign { span, target: *target },
        ] + events_pat(*target) + events_expr(*value),
        Expr::Fn { params, body, .. } => events_pats(params@) + events_stmts(body@),
        Expr::Class { members, .. } => events_members(members@),
        Expr::Other { children, .. } => events_exprs(children@),
    }
}

pub open spec fn events_exprs(es: Seq<Expr>) -> Seq<Event>
    decreases es,
{
    if es.len() == 0 {
        Seq::empty()
    } else {
        events_exprs(es.drop_last()) + events_expr(es.last())
    }
}

pub open spec fn events_pat(p: Pat) -> Seq<Event>
    decreases p,
{
    match p {
        Pat::Ident(_) => Seq::empty(),
        Pat::Array { elems, .. } => events_pats(elems@),
        Pat::Object { props, .. } => events_pats(props@),
        Pat::Default { pat, value, .. } => events_pat(*pat) + events_expr(*value),
        Pat::Rest { pat, .. } => events_pat(*pat),
        Pat::Expr { expr, .. } => events_expr(*expr),
    }
}

pub open spec fn events_pats(ps: Seq<Pat>) -> Seq<Event>
    decreases ps,
{
    if ps.len() == 0 {
        Seq::empty()
    } else {
        events_pats(ps.drop_last()) + events_pat(ps.last())
    }
}

pub open spec fn events_member(m: ClassMember) -> Seq<Event>
    decreases m,
{
    match m {
        ClassMember::Empty(_) => Seq::empty(),
        ClassMember::Method { params, body, .. } => events_pats(params@) + events_stmts(body@),
        ClassMember::Prop { value, .. } => match value {
            Some(v) => events_expr(*v),
            None => Seq::empty(),
        },
    }
}

pub open spec fn events_members(ms: Seq<ClassMember>) -> Seq<Event>
    decreases ms,
{
    if ms.len() == 0 {
        Seq::empty()
    } else {
        events_members(ms.drop_last()) + events_member(ms.last())
    }
}

pub open spec fn events_case(c: SwitchCase) -> Seq<Event>
    decreases c,
{
    (match c.test {
        Some(t) => events_expr(t),
        None => Seq::empty(),
    }) + events_stmts(c.cons@)
}

pub open spec fn events_cases(cs: Seq<SwitchCase>) -> Seq<Event>
    decreases cs,
{
    if cs.len() == 0 {
        Seq::empty()
    } else {
        events_cases(cs.drop_last()) + events_case(cs.last())
    }
}

pub open spec fn events_declarator(d: VarDeclarator) -> Seq<Event>
    decreases d,
{
    events_pat(d.name) + (match d.init {
        Some(e) => events_expr(e),
        None => Seq::empty(),
    })
}

pub open spec fn events_declarators(ds: Seq<VarDeclarator>) -> Seq<Event>
    decreases ds,
{
    if ds.len() == 0 {
        Seq::empty()
    } else {
        events_declarators(ds.drop_last()) + events_declarator(ds.last())
    }
}

pub open spec fn events_catch(h: CatchClause) -> Seq<Event>
    decreases h,
{
    (match h.param {
        Some(p) => events_pat(p),
        None => Seq::empty(),
    }) + events_stmts(h.body@)
}

pub open spec fn events_for_init(fi: ForInit) -> Seq<Event>
    decreases fi,
{
    match fi {
        ForInit::Var(ds) => events_declarators(ds@),
        ForInit::Expr(e) => events_expr(*e),
    }
}

pub open spec fn events_for_head(fh: ForHead) -> Seq<Event>
    decreases fh,
{
    match fh {
        ForHead::Var(ds) => events_declarators(ds@),
        ForHead::Pat(p) => events_pat(*p),
    }
}

/// The events of a whole program, top-level statements in order.
pub open spec fn events_program(p: Program) -> Seq<Event> {
    events_stmts(p.body@)
}

/// Two helper lemmas over three- and four-way event concatenations.
pub proof fn lemma_events_diags_add3(r: Rule, a: Seq<Event>, b: Seq<Event>, c: Seq<Event>, src: Seq<u8>)
    ensures
        events_diags(r, a + b + c, src) == events_diags(r, a, src) + events_diags(r, b, src)
            + events_diags(r, c, src),
{
    lemma_events_diags_add(r, a, b, src);
    lemma_events_diags_add(r, a + b, c, src);
}

pub proof fn lemma_events_diags_add4(
    r: Rule,
    a: Seq<Event>,
    b: Seq<Event>,
    c: Seq<Event>,
    d: Seq<Event>,
    src: Seq<u8>,
)
    ensures
        events_diags(r, a + b + c + d, src) == events_diags(r, a, src) + events_diags(r, b, src)
            + events_diags(r, c, src) + events_diags(r, d, src),
{
    lemma_events_diags_add3(r, a, b, c, src);
    lemma_events_diags_add(r, a + b + c, d, src);
}

#[verifier::rlimit(100)]
#[verifier::rlimit(100)]
#[verifier::spinoff_prover]
fn walk_stmt(r: Rule, ctx: &mut Context, s: &Stmt)
    requires
        old(ctx).inv(),
        wf_stmt(*s, old(ctx).file, old(ctx).source@.len()),
    ensures
        final(ctx).inv(),
        final(ctx).file == old(ctx).file,
        final(ctx).source == old(ctx).source,
        final(ctx).diagnostics@ == old(ctx).diagnostics@ + events_diags(
            r,
            events_stmt(*s),
            old(ctx).source@,
        ),
    decreases *s, 1int,
{
    match s {
        Stmt::Empty(..) | Stmt::Block(..) | Stmt::Expr(..) | Stmt::Var(..)
        | Stmt::Labeled { .. } | Stmt::Class { .. } | Stmt::Other(..) => {
            walk_stmt_simple(r, ctx, s);
        },
        Stmt::If { .. } => {
            walk_stmt_if(r, ctx, s);
        },
        Stmt::For { .. } => {
            walk_stmt_for(r, ctx, s);
        },
        Stmt::ForIn { .. } => {
            walk_stmt_forin(r, ctx, s);
        },
        Stmt::ForOf { .. } => {
            walk_stmt_forof(r, ctx, s);
        },
        Stmt::While { .. } => {
            walk_stmt_while(r, ctx, s);
        },
        Stmt::DoWhile { .. } => {
            walk_stmt_dowhile(r, ctx, s);
        },
        Stmt::With { .. } => {
            walk_stmt_with(r, ctx, s);
        },
        Stmt::Try { .. } => {
            walk_stmt_try(r, ctx, s);
        },
        Stmt::Fn { .. } => {
            walk_stmt_fn(r, ctx, s);
        },
        Stmt::Switch { .. } => {
            walk_stmt_switch(r, ctx, s);
        },
        Stmt::Interface { .. } => {
            walk_stmt_interface(r, ctx, s);
        },
    }
}

/// The leaf and plain-recursion arms of the statement walk.
#[verifier::rlimit(100)]
#[verifier::spinoff_prover]
fn walk_stmt_simple(r: Rule, ctx: &mut Context, s: &Stmt)
    requires
        old(ctx).inv(),
        wf_stmt(*s, old(ctx).file, old(ctx).source@.len()),
        s matches Stmt::Empty(..) || s matches Stmt::Block(..) || s matches Stmt::Expr(..) || s matches Stmt::Var(..) || s matches Stmt::Labeled { .. } || s matches Stmt::Class { .. } || s matches Stmt::Other(..),
    ensures
        final(ctx).inv(),
        final(ctx).file == old(ctx).file,
        final(ctx).source == old(ctx).source,
        final(ctx).diagnostics@ == old(ctx).diagnostics@ + events_diags(
            r,
            events_stmt(*s),
            old(ctx).source@,
        ),
    decreases *s, 0int,
{
    match s {
        Stmt::Empty(_) => {
            proof {
                assert(ctx.diagnostics@ =~= old(ctx).diagnostics@ + events_diags(
                    r,
                    events_stmt(*s),
                    ctx.source@,
                ));
            }
        },        Stmt::Block(_, body) => {
            walk_stmts(r, ctx, body);
        },        Stmt::Expr(_, e) => {
            walk_expr(r, ctx, e);
        },        Stmt::Var(_, decls) => {
            walk_declarators(r, ctx, decls);
        },        Stmt::Labeled { body, .. } => {
            walk_stmt(r, ctx, body);
        },        Stmt::Class { members, .. } => {
            walk_members(r, ctx, members);
        },        Stmt::Other(_, children) => {
            walk_exprs(r, ctx, children);
        },
        _ => {
            proof {
                assert(false);
            }
        },
    }
}

/// One arm of the statement walk, split out to keep each proof small.
#[verifier::rlimit(100)]
#[verifier::spinoff_prover]
fn walk_stmt_switch(r: Rule, ctx: &mut Context, s: &Stmt)
    requires
        old(ctx).inv(),
        wf_stmt(*s, old(ctx).file, old(ctx).source@.len()),
        s matches Stmt::Switch { .. },
    ensures
        final(ctx).inv(),
        final(ctx).file == old(ctx).file,
        final(ctx).source == old(ctx).source,
        final(ctx).diagnostics@ == old(ctx).diagnostics@ + events_diags(
            r,
            events_stmt(*s),
            old(ctx).source@,
        ),
    decreases *s, 0int,
{
    match s {
        Stmt::Switch { span, disc, cases } => {
            let ghost ev = Event::Switch { span: *span, cases: *cases };
            match r {
                Rule::DuplicateCase => {
                    let v = NoDuplicateCaseVisitor::new();
                    v.visit_switch_stmt(ctx, cases);
                },
                _ => {},
            }
            proof {
                lemma_events_diags_singleton(r, ev, ctx.source@);
                assert(ctx.diagnostics@ =~= old(ctx).diagnostics@ + events_diags(
                    r,
                    seq![ev],
                    ctx.source@,
                ));
            }
            walk_expr(r, ctx, disc);
            walk_cases(r, ctx, cases);
            proof {
                lemma_events_diags_add3(
                    r,
                    seq![ev],
                    events_expr(*disc),
                    events_cases(cases@),
                    ctx.source@,
                );
                assert(ctx.diagnostics@ =~= old(ctx).diagnostics@ + events_diags(
                    r,
                    events_stmt(*s),
                    ctx.source@,
                ));
            }
        },        _ => {
            proof {
                assert(false);
            }
        },
    }
}

/// One arm of the statement walk, split out to keep each proof small.
#[verifier::rlimit(100)]
#[verifier::spinoff_prover]
fn walk_stmt_interface(r: Rule, ctx: &mut Context, s: &Stmt)
    requires
        old(ctx).inv(),
        wf_stmt(*s, old(ctx).file, old(ctx).source@.len()),
        s matches Stmt::Interface { .. },
    ensures
        final(ctx).inv(),
        final(ctx).file == old(ctx).file,
        final(ctx).source == old(ctx).source,
        final(ctx).diagnostics@ == old(ctx).diagnostics@ + events_diags(
            r,
            events_stmt(*s),
            old(ctx).source@,
        ),
    decreases *s, 0int,
{
    match s {
        Stmt::Interface { span, n_extends, n_members } => {
            let ghost ev = Event::Interface {
                span: *span,
                n_extends: *n_extends,
                n_members: *n_members,
            };
            match r {
                Rule::EmptyInterface => {
                    let v = NoEmptyInterfaceVisitor::new();
                    v.visit_ts_interface_decl(ctx, *span, *n_extends, *n_members);
                },
                _ => {},
            }
            proof {
                lemma_events_diags_singleton(r, ev, ctx.source@);
                assert(ctx.diagnostics@ =~= old(ctx).diagnostics@ + events_diags(
                    r,
                    events_stmt(*s),
                    ctx.source@,
                ));
            }
        },        _ => {
            proof {
                assert(false);
            }
        },
    }
}

/// One arm of the statement walk, split out to keep each proof small.
#[verifier::rlimit(100)]
#[verifier::spinoff_prover]
fn walk_stmt_if(r: Rule, ctx: &mut Context, s: &Stmt)
    requires
        old(ctx).inv(),
        wf_stmt(*s, old(ctx).file, old(ctx).source@.len()),
        s matches Stmt::If { .. },
    ensures
        final(ctx).inv(),
        final(ctx).file == old(ctx).file,
        final(ctx).source == old(ctx).source,
        final(ctx).diagnostics@ == old(ctx).diagnostics@ + events_diags(
            r,
            events_stmt(*s),
            old(ctx).source@,
        ),
    decreases *s, 0int,
{
    match s {
        Stmt::If { test, cons, alt, .. } => {
            walk_expr(r, ctx, test);
            walk_stmt(r, ctx, cons);
            match alt {
                Some(a) => {
                    walk_stmt(r, ctx, a);
                },
                None => {},
            }
            proof {
                let ga = match alt {
                    Some(a) => events_stmt(**a),
                    None => Seq::<Event>::empty(),
                };
                lemma_events_diags_add3(r, events_expr(*test), events_stmt(**cons), ga, ctx.source@);
                assert(ctx.diagnostics@ =~= old(ctx).diagnostics@ + events_diags(
                    r,
                    events_stmt(*s),
                    ctx.source@,
                ));
            }
        },
        _ => {
            proof {
                assert(false);
            }
        },
    }
}

/// One arm of the statement walk, split out to keep each proof small.
#[verifier::rlimit(100)]
#[verifier::spinoff_prover]
fn walk_stmt_for(r: Rule, ctx: &mut Context, s: &Stmt)
    requires
        old(ctx).inv(),
        wf_stmt(*s, old(ctx).file, old(ctx).source@.len()),
        s matches Stmt::For { .. },
    ensures
        final(ctx).inv(),
        final(ctx).file == old(ctx).file,
        final(ctx).source == old(ctx).source,
        final(ctx).diagnostics@ == old(ctx).diagnostics@ + events_diags(
            r,
            events_stmt(*s),
            old(ctx).source@,
        ),
    decreases *s, 0int,
{
    match s {
        Stmt::For { init, test, update, body, .. } => {
            match init {
                Some(fi) => {
                    walk_for_init(r, ctx, fi);
                },
                None => {},
            }
            match test {
                Some(t) => {
                    walk_expr(r, ctx, t);
                },
                None => {},
            }
            match update {
                Some(u) => {
                    walk_expr(r, ctx, u);
                },
                None => {},
            }
            walk_stmt(r, ctx, body);
            proof {
                let gi = match init {
                    Some(fi) => events_for_init(*fi),
                    None => Seq::<Event>::empty(),
                };
                let gt = match test {
                    Some(t) => events_expr(*t),
                    None => Seq::<Event>::empty(),
                };
                let gu = match update {
                    Some(u) => events_expr(*u),
                    None => Seq::<Event>::empty(),
                };
                lemma_events_diags_add4(r, gi, gt, gu, events_stmt(**body), ctx.source@);
                assert(ctx.diagnostics@ =~= old(ctx).diagnostics@ + events_diags(
                    r,
                    events_stmt(*s),
                    ctx.source@,
                ));
            }
        },
        _ => {
            proof {
                assert(false);
            }
        },
    }
}

/// One arm of the statement walk, split out to keep each proof small.
#[verifier::rlimit(100)]
#[verifier::spinoff_prover]
fn walk_stmt_forin(r: Rule, ctx: &mut Context, s: &Stmt)
    requires
        old(ctx).inv(),
        wf_stmt(*s, old(ctx).file, old(ctx).source@.len()),
        s matches Stmt::ForIn { .. },
    ensures
        final(ctx).inv(),
        final(ctx).file == old(ctx).file,
        final(ctx).source == old(ctx).source,
        final(ctx).diagnostics@ == old(ctx).diagnostics@ + events_diags(
            r,
            events_stmt(*s),
            old(ctx).source@,
        ),
    decreases *s, 0int,
{
    match s {
        Stmt::ForIn { left, right, body, .. } => {
            walk_for_head(r, ctx, left);
            walk_expr(r, ctx, right);
            walk_stmt(r, ctx, body);
            proof {
                lemma_events_diags_add3(
                    r,
                    events_for_head(*left),
                    events_expr(*right),
                    events_stmt(**body),
                    ctx.source@,
                );
                assert(ctx.diagnostics@ =~= old(ctx).diagnostics@ + events_diags(
                    r,
                    events_stmt(*s),
                    ctx.source@,
                ));
            }
        },
        _ => {
            proof {
                assert(false);
            }
        },
    }
}

/// One arm of the statement walk, split out to keep each proof small.
#[verifier::rlimit(100)]
#[verifier::spinoff_prover]
fn walk_stmt_forof(r: Rule, ctx: &mut Context, s: &Stmt)
    requires
        old(ctx).inv(),
        wf_stmt(*s, old(ctx).file, old(ctx).source@.len()),
        s matches Stmt::ForOf { .. },
    ensures
        final(ctx).inv(),
        final(ctx).file == old(ctx).file,
        final(ctx).source == old(ctx).source,
        final(ctx).diagnostics@ == old(ctx).diagnostics@ + events_diags(
            r,
            events_stmt(*s),
            old(ctx).source@,
        ),
    decreases *s, 0int,
{
    match s {
        Stmt::ForOf { left, right, body, .. } => {
            walk_for_head(r, ctx, left);
            walk_expr(r, ctx, right);
            walk_stmt(r, ctx, body);
            proof {
                lemma_events_diags_add3(
                    r,
                    events_for_head(*left),
                    events_expr(*right),
                    events_stmt(**body),
                    ctx.source@,
                );
                assert(ctx.diagnostics@ =~= old(ctx).diagnostics@ + events_diags(
                    r,
                    events_stmt(*s),
                    ctx.source@,
                ));
            }
        },

        _ => {
            proof {
                assert(false);
            }
        },
    }
}

/// One arm of the statement walk, split out to keep each proof small.
#[verifier::rlimit(100)]
#[verifier::spinoff_prover]
fn walk_stmt_while(r: Rule, ctx: &mut Context, s: &Stmt)
    requires
        old(ctx).inv(),
        wf_stmt(*s, old(ctx).file, old(ctx).source@.len()),
        s matches Stmt::While { .. },
    ensures
        final(ctx).inv(),
        final(ctx).file == old(ctx).file,
        final(ctx).source == old(ctx).source,
        final(ctx).diagnostics@ == old(ctx).diagnostics@ + events_diags(
            r,
            events_stmt(*s),
            old(ctx).source@,
        ),
    decreases *s, 0int,
{
    match s {
        Stmt::While { test, body, .. } => {
            walk_expr(r, ctx, test);
            walk_stmt(r, ctx, body);
            proof {
                lemma_events_diags_add(r, events_expr(*test), events_stmt(**body), ctx.source@);
                assert(ctx.diagnostics@ =~= old(ctx).diagnostics@ + events_diags(
                    r,
                    events_stmt(*s),
                    ctx.source@,
                ));
            }
        },
        _ => {
            proof {
                assert(false);
            }
        },
    }
}

/// One arm of the statement walk, split out to keep each proof small.
#[verifier::rlimit(100)]
#[verifier::spinoff_prover]
fn walk_stmt_dowhile(r: Rule, ctx: &mut Context, s: &Stmt)
    requires
        old(ctx).inv(),
        wf_stmt(*s, old(ctx).file, old(ctx).source@.len()),
        s matches Stmt::DoWhile { .. },
    ensures
        final(ctx).inv(),
        final(ctx).file == old(ctx).file,
        final(ctx).source == old(ctx).source,
        final(ctx).diagnostics@ == old(ctx).diagnostics@ + events_diags(
            r,
            events_stmt(*s),
            old(ctx).source@,
        ),
    decreases *s, 0int,
{
    match s {
        Stmt::DoWhile { test, body, .. } => {
            walk_expr(r, ctx, test);
            walk_stmt(r, ctx, body);
            proof {
                lemma_events_diags_add(r, events_expr(*test), events_stmt(**body), ctx.source@);
                assert(ctx.diagnostics@ =~= old(ctx).diagnostics@ + events_diags(
                    r,
                    events_stmt(*s),
                    ctx.source@,
                ));
            }
        },
        _ => {
            proof {
                assert(false);
            }
        },
    }
}

/// One arm of the statement walk, split out to keep each proof small.
#[verifier::rlimit(100)]
#[verifier::spinoff_prover]
fn walk_stmt_with(r: Rule, ctx: &mut Context, s: &Stmt)
    requires
        old(ctx).inv(),
        wf_stmt(*s, old(ctx).file, old(ctx).source@.len()),
        s matches Stmt::With { .. },
    ensures
        final(ctx).inv(),
        final(ctx).file == old(ctx).file,
        final(ctx).source == old(ctx).source,
        final(ctx).diagnostics@ == old(ctx).diagnostics@ + events_diags(
            r,
            events_stmt(*s),
            old(ctx).source@,
        ),
    decreases *s, 0int,
{
    match s {
        Stmt::With { obj, body, .. } => {
            walk_expr(r, ctx, obj);
            walk_stmt(r, ctx, body);
            proof {
                lemma_events_diags_add(r, events_expr(*obj), events_stmt(**body), ctx.source@);
                assert(ctx.diagnostics@ =~= old(ctx).diagnostics@ + events_diags(
                    r,
                    events_stmt(*s),
                    ctx.source@,
                ));
            }
        },
        _ => {
            proof {
                assert(false);
            }
        },
    }
}

/// One arm of the statement walk, split out to keep each proof small.
#[verifier::rlimit(100)]
#[verifier::spinoff_prover]
fn walk_stmt_try(r: Rule, ctx: &mut Context, s: &Stmt)
    requires
        old(ctx).inv(),
        wf_stmt(*s, old(ctx).file, old(ctx).source@.len()),
        s matches Stmt::Try { .. },
    ensures
        final(ctx).inv(),
        final(ctx).file == old(ctx).file,
        final(ctx).source == old(ctx).source,
        final(ctx).diagnostics@ == old(ctx).diagnostics@ + events_diags(
            r,
            events_stmt(*s),
            old(ctx).source@,
        ),
    decreases *s, 0int,
{
    match s {
        Stmt::Try { block, handler, finalizer, .. } => {
            walk_stmts(r, ctx, block);
            match handler {
                Some(h) => {
                    walk_catch(r, ctx, h);
                },
                None => {},
            }
            match finalizer {
                Some(f) => {
                    walk_stmts(r, ctx, f);
                },
                None => {},
            }
            proof {
                let gh = match handler {
                    Some(h) => events_catch(*h),
                    None => Seq::<Event>::empty(),
                };
                let gf = match finalizer {
                    Some(f) => events_stmts(f@),
                    None => Seq::<Event>::empty(),
                };
                lemma_events_diags_add3(r, events_stmts(block@), gh, gf, ctx.source@);
                assert(ctx.diagnostics@ =~= old(ctx).diagnostics@ + events_diags(
                    r,
                    events_stmt(*s),
                    ctx.source@,
                ));
            }
        },
        _ => {
            proof {
                assert(false);
            }
        },
    }
}

/// One arm of the statement walk, split out to keep each proof small.
#[verifier::rlimit(100)]
#[verifier::spinoff_prover]
fn walk_stmt_fn(r: Rule, ctx: &mut Context, s: &Stmt)
    requires
        old(ctx).inv(),
        wf_stmt(*s, old(ctx).file, old(ctx).source@.len()),
        s matches Stmt::Fn { .. },
    ensures
        final(ctx).inv(),
        final(ctx).file == old(ctx).file,
        final(ctx).source == old(ctx).source,
        final(ctx).diagnostics@ == old(ctx).diagnostics@ + events_diags(
            r,
            events_stmt(*s),
            old(ctx).source@,
        ),
    decreases *s, 0int,
{
    match s {
        Stmt::Fn { params, body, .. } => {
            walk_pats(r, ctx, params);
            walk_stmts(r, ctx, body);
            proof {
                lemma_events_diags_add(r, events_pats(params@), events_stmts(body@), ctx.source@);
                assert(ctx.diagnostics@ =~= old(ctx).diagnostics@ + events_diags(
                    r,
                    events_stmt(*s),
                    ctx.source@,
                ));
            }
        },


        _ => {
            proof {
                assert(false);
            }
        },
    }
}

fn walk_stmts(r: Rule, ctx: &mut Context, ss: &Vec<Stmt>)
    requires
        old(ctx).inv(),
        wf_stmts(ss@, old(ctx).file, old(ctx).source@.len()),
    ensures
        final(ctx).inv(),
        final(ctx).file == old(ctx).file,
        final(ctx).source == old(ctx).source,
        final(ctx).diagnostics@ == old(ctx).diagnostics@ + events_diags(
            r,
            events_stmts(ss@),
            old(ctx).source@,
        ),
    decreases ss@, 1int,
{
    let mut i: usize = 0;
    while i < ss.len()
        invariant
            ctx.inv(),
            ctx.file == old(ctx).file,
            ctx.source == old(ctx).source,
            i <= ss@.len(),
            wf_stmts(ss@, ctx.file, ctx.source@.len()),
            ctx.diagnostics@ == old(ctx).diagnostics@ + events_diags(
                r,
                events_stmts(ss@.take(i as int)),
                ctx.source@,
            ),
        decreases ss@.len() - i,
    {
        proof {
            lemma_wf_stmts_index(ss@, ctx.file, ctx.source@.len(), i as int);
        }
        walk_stmt(r, ctx, &ss[i]);
        proof {
            assert(ss@.take(i + 1).drop_last() =~= ss@.take(i as int));
            assert(ss@.take(i + 1).last() == ss@[i as int]);
            lemma_events_diags_add(
                r,
                events_stmts(ss@.take(i as int)),
                events_stmt(ss@[i as int]),
                ctx.source@,
            );
            assert(ctx.diagnostics@ =~= old(ctx).diagnostics@ + events_diags(
                r,
                events_stmts(ss@.take(i + 1)),
                ctx.source@,
            ));
        }
        i = i + 1;
    }
    proof {
        assert(ss@.take(ss@.len() as int) =~= ss@);
    }
}

fn walk_expr(r: Rule, ctx: &mut Context, e: &Expr)
    requires
        old(ctx).inv(),
        wf_expr(*e, old(ctx).file, old(ctx).source@.len()),
    ensures
        final(ctx).inv(),
        final(ctx).file == old(ctx).file,
        final(ctx).source == old(ctx).source,
        final(ctx).diagnostics@ == old(ctx).diagnostics@ + events_diags(
            r,
            events_expr(*e),
            old(ctx).source@,
        ),
    decreases *e, 1int,
{
    match e {
        Expr::Ident(_) => {
            proof {
                assert(ctx.diagnostics@ =~= old(ctx).diagnostics@ + events_diags(
                    r,
                    events_expr(*e),
                    ctx.source@,
                ));
            }
        },
        Expr::Assign { span, target, value } => {
            let ghost ev = Event::Assign { span: *span, target: **target };
            match r {
                Rule::ExceptionAssign => {
                    let v = NoExAssignVisitor::new();
                    v.visit_assign_expr(ctx, *span, target);
                },
                _ => {},
            }
            proof {
                lemma_events_diags_singleton(r, ev, ctx.source@);
                assert(ctx.diagnostics@ =~= old(ctx).diagnostics@ + events_diags(
                    r,
                    seq![ev],
                    ctx.source@,
                ));
            }
            walk_pat(r, ctx, target);
            walk_expr(r, ctx, value);
            proof {
                lemma_events_diags_add3(
                    r,
                    seq![ev],
                    events_pat(**target),
                    events_expr(**value),
                    ctx.source@,
                );
                assert(ctx.diagnostics@ =~= old(ctx).diagnostics@ + events_diags(
                    r,
                    events_expr(*e),
                    ctx.source@,
                ));
            }
        },
        Expr::Fn { params, body, .. } => {
            walk_pats(r, ctx, params);
            walk_stmts(r, ctx, body);
            proof {
                lemma_events_diags_add(r, events_pats(params@), events_stmts(body@), ctx.source@);
                assert(ctx.diagnostics@ =~= old(ctx).diagnostics@ + events_diags(
                    r,
                    events_expr(*e),
                    ctx.source@,
                ));
            }
        },
        Expr::Class { members, .. } => {
            walk_members(r, ctx, members);
        },
        Expr::Other { children, .. } => {
            walk_exprs(r, ctx, children);
        },
    }
}

fn walk_exprs(r: Rule, ctx: &mut Context, es: &Vec<Expr>)
    requires
        old(ctx).inv(),
        wf_exprs(es@, old(ctx).file, old(ctx).source@.len()),
    ensures
        final(ctx).inv(),
        final(ctx).file == old(ctx).file,
        final(ctx).source == old(ctx).source,
        final(ctx).diagnostics@ == old(ctx).diagnostics@ + events_diags(
            r,
            events_exprs(es@),
            old(ctx).source@,
        ),
    decreases es@, 1int,
{
    let mut i: usize = 0;
    while i < es.len()
        invariant
            ctx.inv(),
            ctx.file == old(ctx).file,
            ctx.source == old(ctx).source,
            i <= es@.len(),
            wf_exprs(es@, ctx.file, ctx.source@.len()),
            ctx.diagnostics@ == old(ctx).diagnostics@ + events_diags(
                r,
                events_exprs(es@.take(i as int)),
                ctx.source@,
            ),
        decreases es@.len() - i,
    {
        proof {
            lemma_wf_exprs_index(es@, ctx.file, ctx.source@.len(), i as int);
        }
        walk_expr(r, ctx, &es[i]);
        proof {
            assert(es@.take(i + 1).drop_last() =~= es@.take(i as int));
            assert(es@.take(i + 1).last() == es@[i as int]);
            lemma_events_diags_add(
                r,
                events_exprs(es@.take(i as int)),
                events_expr(es@[i as int]),
                ctx.source@,
            );
            assert(ctx.diagnostics@ =~= old(ctx).diagnostics@ + events_diags(
                r,
                events_exprs(es@.take(i + 1)),
                ctx.source@,
            ));
        }
        i = i + 1;
    }
    proof {
        assert(es@.take(es@.len() as int) =~= es@);
    }
}

fn walk_pat(r: Rule, ctx: &mut Context, p: &Pat)
    requires
        old(ctx).inv(),
        wf_pat(*p, old(ctx).file, old(ctx).source@.len()),
    ensures
        final(ctx).inv(),
        final(ctx).file == old(ctx).file,
        final(ctx).source == old(ctx).source,
        final(ctx).diagnostics@ == old(ctx).diagnostics@ + events_diags(
            r,
            events_pat(*p),
            old(ctx).source@,
        ),
    decreases *p, 1int,
{
    match p {
        Pat::Ident(_) => {
            proof {
                assert(ctx.diagnostics@ =~= old(ctx).diagnostics@ + events_diags(
                    r,
                    events_pat(*p),
                    ctx.source@,
                ));
            }
        },
        Pat::Array { elems, .. } => {
            walk_pats(r, ctx, elems);
        },
        Pat::Object { props, .. } => {
            walk_pats(r, ctx, props);
        },
        Pat::Default { pat, value, .. } => {
            walk_pat(r, ctx, pat);
            walk_expr(r, ctx, value);
            proof {
                lemma_events_diags_add(r, events_pat(**pat), events_expr(**value), ctx.source@);
                assert(ctx.diagnostics@ =~= old(ctx).diagnostics@ + events_diags(
                    r,
                    events_pat(*p),
                    ctx.source@,
                ));
            }
        },
        Pat::Rest { pat, .. } => {
            walk_pat(r, ctx, pat);
        },
        Pat::Expr { expr, .. } => {
            walk_expr(r, ctx, expr);
        },
    }
}

fn walk_pats(r: Rule, ctx: &mut Context, ps: &Vec<Pat>)
    requires
        old(ctx).inv(),
        wf_pats(ps@, old(ctx).file, old(ctx).source@.len()),
    ensures
        final(ctx).inv(),
        final(ctx).file == old(ctx).file,
        final(ctx).source == old(ctx).source,
        final(ctx).diagnostics@ == old(ctx).diagnostics@ + events_diags(
            r,
            events_pats(ps@),
            old(ctx).source@,
        ),
    decreases ps@, 1int,
{
    let mut i: usize = 0;
    while i < ps.len()
        invariant
            ctx.inv(),
            ctx.file == old(ctx).file,
            ctx.source == old(ctx).source,
            i <= ps@.len(),
            wf_pats(ps@, ctx.file, ctx.source@.len()),
            ctx.diagnostics@ == old(ctx).diagnostics@ + events_diags(
                r,
                events_pats(ps@.take(i as int)),
                ctx.source@,
            ),
        decreases ps@.len() - i,
    {
        proof {
            lemma_wf_pats_index(ps@, ctx.file, ctx.source@.len(), i as int);
        }
        walk_pat(r, ctx, &ps[i]);
        proof {
            assert(ps@.take(i + 1).drop_last() =~= ps@.take(i as int));
            assert(ps@.take(i + 1).last() == ps@[i as int]);
            lemma_events_diags_add(
                r,
                events_pats(ps@.take(i as int)),
                events_pat(ps@[i as int]),
                ctx.source@,
            );
            assert(ctx.diagnostics@ =~= old(ctx).diagnostics@ + events_diags(
                r,
                events_pats(ps@.take(i + 1)),
                ctx.source@,
            ));
        }
        i = i + 1;
    }
    proof {
        assert(ps@.take(ps@.len() as int) =~= ps@);
    }
}

fn walk_member(r: Rule, ctx: &mut Context, m: &ClassMember)
    requires
        old(ctx).inv(),
        wf_member(*m, old(ctx).file, old(ctx).source@.len()),
    ensures
        final(ctx).inv(),
        final(ctx).file == old(ctx).file,
        final(ctx).source == old(ctx).source,
        final(ctx).diagnostics@ == old(ctx).diagnostics@ + events_diags(
            r,
            events_member(*m),
            old(ctx).source@,
        ),
    decreases *m, 1int,
{
    match m {
        ClassMember::Empty(_) => {
            proof {
                assert(ctx.diagnostics@ =~= old(ctx).diagnostics@ + events_diags(
                    r,
                    events_member(*m),
                    ctx.source@,
                ));
            }
        },
        ClassMember::Method { params, body, .. } => {
            walk_pats(r, ctx, params);
            walk_stmts(r, ctx, body);
            proof {
                lemma_events_diags_add(r, events_pats(params@), events_stmts(body@), ctx.source@);
                assert(ctx.diagnostics@ =~= old(ctx).diagnostics@ + events_diags(
                    r,
                    events_member(*m),
                    ctx.source@,
                ));
            }
        },
        ClassMember::Prop { value, .. } => {
            match value {
                Some(v) => {
                    walk_expr(r, ctx, v);
                },
                None => {},
            }
            proof {
                assert(ctx.diagnostics@ =~= old(ctx).diagnostics@ + events_diags(
                    r,
                    events_member(*m),
                    ctx.source@,
                ));
            }
        },
    }
}

fn walk_members(r: Rule, ctx: &mut Context, ms: &Vec<ClassMember>)
    requires
        old(ctx).inv(),
        wf_members(ms@, old(ctx).file, old(ctx).source@.len()),
    ensures
        final(ctx).inv(),
        final(ctx).file == old(ctx).file,
        final(ctx).source == old(ctx).source,
        final(ctx).diagnostics@ == old(ctx).diagnostics@ + events_diags(
            r,
            events_members(ms@),
            old(ctx).source@,
        ),
    decreases ms@, 1int,
{
    let mut i: usize = 0;
    while i < ms.len()
        invariant
            ctx.inv(),
            ctx.file == old(ctx).file,
            ctx.source == old(ctx).source,
            i <= ms@.len(),
            wf_members(ms@, ctx.file, ctx.source@.len()),
            ctx.diagnostics@ == old(ctx).diagnostics@ + events_diags(
                r,
                events_members(ms@.take(i as int)),
                ctx.source@,
            ),
        decreases ms@.len() - i,
    {
        proof {
            lemma_wf_members_index(ms@, ctx.file, ctx.source@.len(), i as int);
        }
        walk_member(r, ctx, &ms[i]);
        proof {
            assert(ms@.take(i + 1).drop_last() =~= ms@.take(i as int));
            assert(ms@.take(i + 1).last() == ms@[i as int]);
            lemma_events_diags_add(
                r,
                events_members(ms@.take(i as int)),
                events_member(ms@[i as int]),
                ctx.source@,
            );
            assert(ctx.diagnostics@ =~= old(ctx).diagnostics@ + events_diags(
                r,
                events_members(ms@.take(i + 1)),
                ctx.source@,
            ));
        }
        i = i + 1;
    }
    proof {
        assert(ms@.take(ms@.len() as int) =~= ms@);
    }
}

fn walk_case(r: Rule, ctx: &mut Context, c: &SwitchCase)
    requires
        old(ctx).inv(),
        wf_case(*c, old(ctx).file, old(ctx).source@.len()),
    ensures
        final(ctx).inv(),
        final(ctx).file == old(ctx).file,
        final(ctx).source == old(ctx).source,
        final(ctx).diagnostics@ == old(ctx).diagnostics@ + events_diags(
            r,
            events_case(*c),
            old(ctx).source@,
        ),
    decreases *c, 1int,
{
    match &c.test {
        Some(t) => {
            walk_expr(r, ctx, t);
        },
        None => {},
    }
    walk_stmts(r, ctx, &c.cons);
    proof {
        let gt = match &c.test {
            Some(t) => events_expr(*t),
            None => Seq::<Event>::empty(),
        };
        lemma_events_diags_add(r, gt, events_stmts(c.cons@), ctx.source@);
        assert(ctx.diagnostics@ =~= old(ctx).diagnostics@ + events_diags(
            r,
            events_case(*c),
            ctx.source@,
        ));
    }
}

fn walk_cases(r: Rule, ctx: &mut Context, cs: &Vec<SwitchCase>)
    requires
        old(ctx).inv(),
        wf_cases(cs@, old(ctx).file, old(ctx).source@.len()),
    ensures
        final(ctx).inv(),
        final(ctx).file == old(ctx).file,
        final(ctx).source == old(ctx).source,
        final(ctx).diagnostics@ == old(ctx).diagnostics@ + events_diags(
            r,
            events_cases(cs@),
            old(ctx).source@,
        ),
    decreases cs@, 1int,
{
    let mut i: usize = 0;
    while i < cs.len()
        invariant
            ctx.inv(),
            ctx.file == old(ctx).file,
            ctx.source == old(ctx).source,
            i <= cs@.len(),
            wf_cases(cs@, ctx.file, ctx.source@.len()),
            ctx.diagnostics@ == old(ctx).diagnostics@ + events_diags(
                r,
                events_cases(cs@.take(i as int)),
                ctx.source@,
            ),
        decreases cs@.len() - i,
    {
        proof {
            lemma_wf_cases_index(cs@, ctx.file, ctx.source@.len(), i as int);
        }
        walk_case(r, ctx, &cs[i]);
        proof {
            assert(cs@.take(i + 1).drop_last() =~= cs@.take(i as int));
            assert(cs@.take(i + 1).last() == cs@[i as int]);
            lemma_events_diags_add(
                r,
                events_cases(cs@.take(i as int)),
                events_case(cs@[i as int]),
                ctx.source@,
            );
            assert(ctx.diagnostics@ =~= old(ctx).diagnostics@ + events_diags(
                r,
                events_cases(cs@.take(i + 1)),
                ctx.source@,
            ));
        }
        i = i + 1;
    }
    proof {
        assert(cs@.take(cs@.len() as int) =~= cs@);
    }
}

fn walk_declarator(r: Rule, ctx: &mut Context, d: &VarDeclarator)
    requires
        old(ctx).inv(),
        wf_declarator(*d, old(ctx).file, old(ctx).source@.len()),
    ensures
        final(ctx).inv(),
        final(ctx).file == old(ctx).file,
        final(ctx).source == old(ctx).source,
        final(ctx).diagnostics@ == old(ctx).diagnostics@ + events_diags(
            r,
            events_declarator(*d),
            old(ctx).source@,
        ),
    decreases *d, 1int,
{
    walk_pat(r, ctx, &d.name);
    match &d.init {
        Some(e) => {
            walk_expr(r, ctx, e);
        },
        None => {},
    }
    proof {
        let ge = match &d.init {
            Some(e) => events_expr(*e),
            None => Seq::<Event>::empty(),
        };
        lemma_events_diags_add(r, events_pat(d.name), ge, ctx.source@);
        assert(ctx.diagnostics@ =~= old(ctx).diagnostics@ + events_diags(
            r,
            events_declarator(*d),
            ctx.source@,
        ));
    }
}

fn walk_declarators(r: Rule, ctx: &mut Context, ds: &Vec<VarDeclarator>)
    requires
        old(ctx).inv(),
        wf_declarators(ds@, old(ctx).file, old(ctx).source@.len()),
    ensures
        final(ctx).inv(),
        final(ctx).file == old(ctx).file,
        final(ctx).source == old(ctx).source,
        final(ctx).diagnostics@ == old(ctx).diagnostics@ + events_diags(
            r,
            events_declarators(ds@),
            old(ctx).source@,
        ),
    decreases ds@, 1int,
{
    let mut i: usize = 0;
    while i < ds.len()
        invariant
            ctx.inv(),
            ctx.file == old(ctx).file,
            ctx.source == old(ctx).source,
            i <= ds@.len(),
            wf_declarators(ds@, ctx.file, ctx.source@.len()),
            ctx.diagnostics@ == old(ctx).diagnostics@ + events_diags(
                r,
                events_declarators(ds@.take(i as int)),
                ctx.source@,
            ),
        decreases ds@.len() - i,
    {
        proof {
            lemma_wf_declarators_index(ds@, ctx.file, ctx.source@.len(), i as int);
        }
        walk_declarator(r, ctx, &ds[i]);
        proof {
            assert(ds@.take(i + 1).drop_last() =~= ds@.take(i as int));
            assert(ds@.take(i + 1).last() == ds@[i as int]);
            lemma_events_diags_add(
                r,
                events_declarators(ds@.take(i as int)),
                events_declarator(ds@[i as int]),
                ctx.source@,
            );
            assert(ctx.diagnostics@ =~= old(ctx).diagnostics@ + events_diags(
                r,
                events_declarators(ds@.take(i + 1)),
                ctx.source@,
            ));
        }
        i = i + 1;
    }
    proof {
        assert(ds@.take(ds@.len() as int) =~= ds@);
    }
}

fn walk_catch(r: Rule, ctx: &mut Context, h: &CatchClause)
    requires
        old(ctx).inv(),
        wf_catch(*h, old(ctx).file, old(ctx).source@.len()),
    ensures
        final(ctx).inv(),
        final(ctx).file == old(ctx).file,
        final(ctx).source == old(ctx).source,
        final(ctx).diagnostics@ == old(ctx).diagnostics@ + events_diags(
            r,
            events_catch(*h),
            old(ctx).source@,
        ),
    decreases *h, 1int,
{
    match &h.param {
        Some(p) => {
            walk_pat(r, ctx, p);
        },
        None => {},
    }
    walk_stmts(r, ctx, &h.body);
    proof {
        let gp = match &h.param {
            Some(p) => events_pat(*p),
            None => Seq::<Event>::empty(),
        };
        lemma_events_diags_add(r, gp, events_stmts(h.body@), ctx.source@);
        assert(ctx.diagnostics@ =~= old(ctx).diagnostics@ + events_diags(
            r,
            events_catch(*h),
            ctx.source@,
        ));
    }
}

fn walk_for_init(r: Rule, ctx: &mut Context, fi: &ForInit)
    requires
        old(ctx).inv(),
        wf_for_init(*fi, old(ctx).file, old(ctx).source@.len()),
    ensures
        final(ctx).inv(),
        final(ctx).file == old(ctx).file,
        final(ctx).source == old(ctx).source,
        final(ctx).diagnostics@ == old(ctx).diagnostics@ + events_diags(
            r,
            events_for_init(*fi),
            old(ctx).source@,
        ),
    decreases *fi, 1int,
{
    match fi {
        ForInit::Var(ds) => {
            walk_declarators(r, ctx, ds);
        },
        ForInit::Expr(e) => {
            walk_expr(r, ctx, e);
        },
    }
}

fn walk_for_head(r: Rule, ctx: &mut Context, fh: &ForHead)
    requires
        old(ctx).inv(),
        wf_for_head(*fh, old(ctx).file, old(ctx).source@.len()),
    ensures
        final(ctx).inv(),
        final(ctx).file == old(ctx).file,
        final(ctx).source == old(ctx).source,
        final(ctx).diagnostics@ == old(ctx).diagnostics@ + events_diags(
            r,
            events_for_head(*fh),
            old(ctx).source@,
        ),
    decreases *fh, 1int,
{
    match fh {
        ForHead::Var(ds) => {
            walk_declarators(r, ctx, ds);
        },
        ForHead::Pat(p) => {
            walk_pat(r, ctx, p);
        },
    }
}

/// Run one default-traversal rule over a whole program.  The
/// stray-semicolon rule has its own walk and never comes through here.
pub fn run_rule(r: Rule, ctx: &mut Context, p: &Program)
    requires
        old(ctx).inv(),
        wf_program(*p, old(ctx).source@.len()),
        p.file == old(ctx).file,
    ensures
        final(ctx).inv(),
        final(ctx).file == old(ctx).file,
        final(ctx).source == old(ctx).source,
        final(ctx).diagnostics@ == old(ctx).diagnostics@ + events_diags(
            r,
            events_program(*p),
            old(ctx).source@,
        ),
{
    walk_stmts(r, ctx, &p.body);
}

} // verus!
