use vstd::prelude::*;
use crate::ast::Program;
use crate::rules::Rule;
use crate::ast::{BindingKind, Ident, Pat};
use crate::context::{Context, Diagnostic};
use crate::span::Span;

verus! {

pub open spec fn diag(span: Span) -> Diagnostic {
    Diagnostic {
        span,
        code: "no-ex-assign",
        message: "Reassigning exception parameter is not allowed",
        hint: "Use a different variable for the assignment",
    }
}

/// The identifiers an assignment to `p` actually writes, in source
/// order.  Member accesses reseat a property, not an identifier, and a
/// default value's identifiers are reads: neither contributes.
pub open spec fn pat_ids(p: Pat) -> Seq<Ident>
    decreases p,
{
    match p {
        Pat::Ident(id) => seq![id],
        Pat::Array { elems, .. } => pats_ids(elems@),
        Pat::Object { props, .. } => pats_ids(props@),
        Pat::Default { pat, .. } => pat_ids(*pat),
        Pat::Rest { pat, .. } => pat_ids(*pat),
        Pat::Expr { .. } => Seq::empty(),
    }
}

pub open spec fn pats_ids(ps: Seq<Pat>) -> Seq<Ident>
    decreases ps,
{
    if ps.len() == 0 {
        Seq::empty()
    } else {
        pats_ids(ps.drop_last()) + pat_ids(ps.last())
    }
}

/// Whether one of the written identifiers is bound as an
/// exception-handler parameter.
pub open spec fn any_catch_bound(ids: Seq<Ident>) -> bool {
    exists|i: int|
        0 <= i < ids.len() && ((#[trigger] ids[i]).binding matches Some(v) && v.kind
            == BindingKind::CatchClause)
}

/// The diagnostics of one assignment expression: one at the whole
/// assignment's span when a written identifier is catch-bound, and at
/// most one however many catch-bound names appear.
pub open spec fn assign_diags(span: Span, target: Pat) -> Seq<Diagnostic> {
    if any_catch_bound(pat_ids(target)) {
        seq![diag(span)]
    } else {
        Seq::empty()
    }
}

/// Append to `out` the identifiers that an assignment to `p` writes.
fn collect_lhs_ids(p: &Pat, out: &mut Vec<Ident>)
    ensures
        final(out)@ == old(out)@ + pat_ids(*p),
    decreases *p,
{
    match p {
        Pat::Ident(id) => {
            out.push(*id);
            proof {
                assert(out@ =~= old(out)@ + pat_ids(*p));
            }
        },
        Pat::Array { elems, .. } => {
            collect_lhs_ids_list(elems, out);
        },
        Pat::Object { props, .. } => {
            collect_lhs_ids_list(props, out);
        },
        Pat::Default { pat, .. } => {
            collect_lhs_ids(pat, out);
        },
        Pat::Rest { pat, .. } => {
            collect_lhs_ids(pat, out);
        },
        Pat::Expr { .. } => {
            proof {
                assert(out@ =~= old(out)@ + pat_ids(*p));
            }
        },
    }
}

fn collect_lhs_ids_list(ps: &Vec<Pat>, out: &mut Vec<Ident>)
    ensures
        final(out)@ == old(out)@ + pats_ids(ps@),
    decreases ps@,
{
    let mut i: usize = 0;
    while i < ps.len()
        invariant
            i <= ps@.len(),
            out@ == old(out)@ + pats_ids(ps@.take(i as int)),
        decreases ps@.len() - i,
    {
        collect_lhs_ids(&ps[i], out);
        proof {
            assert(ps@.take(i + 1).drop_last() =~= ps@.take(i as int));
            assert(ps@.take(i + 1).last() == ps@[i as int]);
            assert(out@ =~= old(out)@ + pats_ids(ps@.take(i + 1)));
        }
        i = i + 1;
    }
    proof {
        assert(ps@.take(ps@.len() as int) =~= ps@);
    }
}

/// The identifiers an assignment to `p` writes, in source order.
pub fn find_lhs_ids(p: &Pat) -> (ids: Vec<Ident>)
    ensures
        ids@ == pat_ids(*p),
{
    let mut out: Vec<Ident> = Vec::new();
    collect_lhs_ids(p, &mut out);
    proof {
        assert(out@ =~= pat_ids(*p));
    }
    out
}

/// The traversal state of one exception-reassignment pass.
pub struct NoExAssignVisitor;

impl NoExAssignVisitor {
    pub fn new() -> NoExAssignVisitor {
        NoExAssignVisitor
    }

    /// Decide one assignment expression: report once, at the
    /// assignment's span, when a written identifier resolves to a
    /// catch-clause binding.
    pub fn visit_assign_expr(&self, ctx: &mut Context, span: Span, target: &Pat)
        requires
            old(ctx).inv(),
            span.inside(old(ctx).file, old(ctx).source@.len()),
        ensures
            final(ctx).inv(),
            final(ctx).file == old(ctx).file,
            final(ctx).source == old(ctx).source,
            final(ctx).diagnostics@ == old(ctx).diagnostics@ + assign_diags(span, *target),
    {
        let ids = find_lhs_ids(target);
        let mut found = false;
        let mut i: usize = 0;
        while i < ids.len()
            invariant
                i <= ids@.len(),
                ids@ == pat_ids(*target),
                found == any_catch_bound(ids@.take(i as int)),
            decreases ids@.len() - i,
        {
            let is_catch = match ctx.variable(&ids[i]) {
                Some(v) => match v.kind {
                    BindingKind::CatchClause => true,
                    _ => false,
                },
                None => false,
            };
            proof {
                if is_catch {
                    assert(ids@.take(i + 1)[i as int] == ids@[i as int]);
                    assert(any_catch_bound(ids@.take(i + 1)));
                } else if any_catch_bound(ids@.take(i + 1)) {
                    let k = choose|k: int|
                        0 <= k < ids@.take(i + 1).len() && ((#[trigger] ids@.take(i + 1)[k]).binding matches Some(
                            v,
                        ) && v.kind == BindingKind::CatchClause);
                    if k < i {
                        assert(ids@.take(i as int)[k] == ids@.take(i + 1)[k]);
                        assert(any_catch_bound(ids@.take(i as int)));
                    }
                }
            }
            found = found || is_catch;
            i = i + 1;
        }
        proof {
            assert(ids@.take(ids@.len() as int) =~= ids@);
        }
        if found {
            ctx.add_diagnostic_with_hint(
                span,
                "no-ex-assign",
                "Reassigning exception parameter is not allowed",
                "Use a different variable for the assignment",
            );
            proof {
                assert(ctx.diagnostics@ =~= old(ctx).diagnostics@ + assign_diags(span, *target));
            }
        } else {
            proof {
                assert(ctx.diagnostics@ =~= old(ctx).diagnostics@ + assign_diags(span, *target));
            }
        }
    }
}


/// The rule value the registry hands out: stateless, reusable across
/// programs.
pub struct NoExAssign;

impl NoExAssign {
    pub fn new() -> Box<NoExAssign> {
        Box::new(NoExAssign)
    }

    /// The classification tags of this rule.
    pub fn tags(&self) -> (t: Vec<&'static str>)
        ensures
            t@ == seq!["recommended"],
    {
        let mut t: Vec<&'static str> = Vec::new();
        t.push("recommended");
        proof {
            assert(t@ =~= seq!["recommended"]);
        }
        t
    }

    /// The stable diagnostic code of this rule.
    pub fn code(&self) -> (c: &'static str)
        ensures
            c == Rule::ExceptionAssign.code_spec(),
    {
        Rule::ExceptionAssign.code()
    }

    /// Run this rule once over one program, appending its diagnostics.
    pub fn lint_program(&self, context: &mut Context, program: &Program)
        requires
            old(context).inv(),
            crate::ast::wf_program(*program, old(context).source@.len()),
            program.file == old(context).file,
        ensures
            final(context).inv(),
            final(context).file == old(context).file,
            final(context).source == old(context).source,
            final(context).diagnostics@ == old(context).diagnostics@ + crate::rules::rule_diags(
                Rule::ExceptionAssign,
                *program,
                old(context).source@,
            ),
    {
        crate::walk::run_rule(Rule::ExceptionAssign, context, program);
    }

    /// The rationale of this rule, with example blocks.
    pub fn docs(&self) -> &'static str {
        r#"Disallows the reassignment of exception parameters

Once the caught error is overwritten, the code has no reference to it
any more.

### Invalid:
```typescript
try {
  someFunc();
} catch (e) {
  e = true;
}
```

### Valid:
```typescript
try {
  someFunc();
} catch (e) {
  const anotherVar = true;
}
```
"#
    }
}

} // verus!
