use vstd::prelude::*;
use crate::rules::Rule;
use crate::ast::{wf_case, wf_cases, Program, SwitchCase};
use crate::context::{bytes_eq, snippet_of, Context, Diagnostic};
use crate::span::Span;

verus! {

pub open spec fn diag(span: Span) -> Diagnostic {
    Diagnostic {
        span,
        code: "no-duplicate-case",
        message: "Duplicate values in case are not allowed",
        hint: "Remove or rename the duplicate case clause",
    }
}

/// Whether some case of `cases` has a test expression whose source
/// snippet reads exactly `snip`.  Equality is by source text, not by
/// tree structure: whitespace and comments inside the test count.
pub open spec fn seen_among(cases: Seq<SwitchCase>, snip: Seq<u8>, src: Seq<u8>) -> bool {
    exists|i: int|
        0 <= i < cases.len() && ((#[trigger] cases[i]).test matches Some(t) && snippet_of(
            src,
            t.span(),
        ) == snip)
}

/// The diagnostics of one `switch`: one per case, in declaration order,
/// whose test snippet already occurred on an earlier case of the same
/// `switch`, placed at the duplicate test's span.
pub open spec fn switch_diags(cases: Seq<SwitchCase>, src: Seq<u8>) -> Seq<Diagnostic>
    decreases cases,
{
    if cases.len() == 0 {
        Seq::empty()
    } else {
        switch_diags(cases.drop_last(), src) + (match cases.last().test {
            Some(t) => if seen_among(cases.drop_last(), snippet_of(src, t.span()), src) {
                seq![diag(t.span())]
            } else {
                Seq::empty()
            },
            None => Seq::empty(),
        })
    }
}

/// Every diagnostic of one `switch` carries this rule's code.
pub proof fn lemma_switch_diags_code(cases: Seq<SwitchCase>, src: Seq<u8>)
    ensures
        forall|i: int|
            0 <= i < switch_diags(cases, src).len() ==> (#[trigger] switch_diags(cases, src)[i]).code
                == "no-duplicate-case",
    decreases cases,
{
    if cases.len() > 0 {
        lemma_switch_diags_code(cases.drop_last(), src);
        let prev = switch_diags(cases.drop_last(), src);
        assert forall|i: int| 0 <= i < switch_diags(cases, src).len() implies (
        #[trigger] switch_diags(cases, src)[i]).code == "no-duplicate-case" by {
            if i < prev.len() {
                assert(switch_diags(cases, src)[i] == prev[i]);
            } else {
                assert(switch_diags(cases, src)[i] == diag(cases.last().test->Some_0.span()));
            }
        }
    }
}

/// Whether one of the snippets collected so far is `snip`.
fn seen_contains(seen: &Vec<Vec<u8>>, snip: &Vec<u8>) -> (r: bool)
    ensures
        r == exists|k: int| 0 <= k < seen@.len() && (#[trigger] seen@[k])@ == snip@,
{
    let mut k: usize = 0;
    while k < seen.len()
        invariant
            k <= seen@.len(),
            forall|m: int| 0 <= m < k ==> (#[trigger] seen@[m])@ != snip@,
        decreases seen@.len() - k,
    {
        if bytes_eq(&seen[k], snip) {
            return true;
        }
        k = k + 1;
    }
    false
}

/// The traversal state of one duplicate-case pass.  The per-`switch`
/// seen-snippet set lives on the visiting call, so nested switches get
/// independent sets.
pub struct NoDuplicateCaseVisitor;

impl NoDuplicateCaseVisitor {
    pub fn new() -> NoDuplicateCaseVisitor {
        NoDuplicateCaseVisitor
    }

    /// Walk the cases of one `switch` in order, keeping the snippets of
    /// the tests already met, and report each case whose test snippet
    /// collides with an earlier one.
    pub fn visit_switch_stmt(&self, ctx: &mut Context, cases: &Vec<SwitchCase>)
        requires
            old(ctx).inv(),
            wf_cases(cases@, old(ctx).file, old(ctx).source@.len()),
        ensures
            final(ctx).inv(),
            final(ctx).file == old(ctx).file,
            final(ctx).source == old(ctx).source,
            final(ctx).diagnostics@ == old(ctx).diagnostics@ + switch_diags(
                cases@,
                old(ctx).source@,
            ),
    {
        let ghost src = old(ctx).source@;
        let mut seen: Vec<Vec<u8>> = Vec::new();
        let mut j: usize = 0;
        while j < cases.len()
            invariant
                ctx.inv(),
                ctx.file == old(ctx).file,
                ctx.source == old(ctx).source,
                src == old(ctx).source@,
                j <= cases@.len(),
                wf_cases(cases@, ctx.file, ctx.source@.len()),
                ctx.diagnostics@ == old(ctx).diagnostics@ + switch_diags(
                    cases@.take(j as int),
                    src,
                ),
                forall|k: int|
                    0 <= k < seen@.len() ==> seen_among(
                        cases@.take(j as int),
                        (#[trigger] seen@[k])@,
                        src,
                    ),
                forall|i: int|
                    0 <= i < j ==> ((#[trigger] cases@[i]).test matches Some(t) ==> exists|k: int|
                        0 <= k < seen@.len() && (#[trigger] seen@[k])@ == snippet_of(
                            src,
                            t.span(),
                        )),
            decreases cases@.len() - j,
        {
            let ghost prefix = cases@.take(j as int);
            proof {
                crate::ast::lemma_wf_cases_index(cases@, ctx.file, ctx.source@.len(), j as int);
                assert(wf_case(cases@[j as int], ctx.file, ctx.source@.len()));
                assert(cases@.take(j + 1).drop_last() =~= prefix);
                assert(cases@.take(j + 1).last() == cases@[j as int]);
            }
            match &cases[j].test {
                Some(t) => {
                    let sp = t.get_span();
                    let snip = ctx.snippet(sp);
                    let dup = seen_contains(&seen, &snip);
                    proof {
                        if dup {
                            assert(seen_among(prefix, snip@, src));
                        } else {
                            if seen_among(prefix, snip@, src) {
                                let i = choose|i: int|
                                    0 <= i < prefix.len() && ((#[trigger] prefix[i]).test matches Some(
                                        ti,
                                    ) && snippet_of(src, ti.span()) == snip@);
                                assert(cases@[i].test matches Some(ti) && snippet_of(
                                    src,
                                    ti.span(),
                                ) == snip@);
                                assert(false);
                            }
                        }
                        assert(switch_diags(cases@.take(j + 1), src) == switch_diags(prefix, src)
                            + if dup {
                            seq![diag(sp)]
                        } else {
                            Seq::<Diagnostic>::empty()
                        });
                    }
                    if dup {
                        ctx.add_diagnostic_with_hint(
                            sp,
                            "no-duplicate-case",
                            "Duplicate values in case are not allowed",
                            "Remove or rename the duplicate case clause",
                        );
                        proof {
                            assert(ctx.diagnostics@ =~= old(ctx).diagnostics@ + switch_diags(
                                cases@.take(j + 1),
                                src,
                            ));
                            assert forall|i: int|
                                0 <= i < j + 1 implies ((#[trigger] cases@[i]).test matches Some(
                                tt,
                            ) ==> exists|k: int|
                                0 <= k < seen@.len() && (#[trigger] seen@[k])@ == snippet_of(
                                    src,
                                    tt.span(),
                                )) by {
                                if i == j {
                                    assert(cases@[i].test == Some(*t));
                                    let k0 = choose|k: int|
                                        0 <= k < seen@.len() && (#[trigger] seen@[k])@ == snip@;
                                    assert(seen@[k0]@ == snippet_of(src, t.span()));
                                }
                            }
                        }
                    } else {
                        let ghost seen0 = seen@;
                        seen.push(snip);
                        proof {
                            assert(ctx.diagnostics@ =~= old(ctx).diagnostics@ + switch_diags(
                                cases@.take(j + 1),
                                src,
                            ));
                            assert forall|k: int| 0 <= k < seen@.len() implies seen_among(
                                cases@.take(j + 1),
                                (#[trigger] seen@[k])@,
                                src,
                            ) by {
                                if k < seen@.len() - 1 {
                                    assert(seen_among(prefix, seen@[k]@, src));
                                    let i = choose|i: int|
                                        0 <= i < prefix.len() && ((#[trigger] prefix[i]).test matches Some(
                                            ti,
                                        ) && snippet_of(src, ti.span()) == seen@[k]@);
                                    assert(cases@.take(j + 1)[i] == prefix[i]);
                                } else {
                                    assert(seen@[k]@ == snip@);
                                    assert(cases@.take(j + 1)[j as int].test matches Some(tt)
                                        && snippet_of(src, tt.span()) == snip@);
                                }
                            }
                            assert forall|i: int|
                                0 <= i < j + 1 implies ((#[trigger] cases@[i]).test matches Some(
                                tt,
                            ) ==> exists|k: int|
                                0 <= k < seen@.len() && (#[trigger] seen@[k])@ == snippet_of(
                                    src,
                                    tt.span(),
                                )) by {
                                if i == j {
                                    assert(cases@[i].test == Some(*t));
                                    assert(seen@[seen@.len() - 1]@ == snippet_of(src, t.span()));
                                } else {
                                    if cases@[i].test is Some {
                                        let ti = cases@[i].test->Some_0;
                                        let k0 = choose|k: int|
                                            0 <= k < seen0.len() && (#[trigger] seen0[k])@
                                                == snippet_of(src, ti.span());
                                        assert(seen@[k0]@ == snippet_of(src, ti.span()));
                                    }
                                }
                            }
                        }
                    }
                },
                None => {
                    proof {
                        assert(switch_diags(cases@.take(j + 1), src) == switch_diags(prefix, src));
                        assert(ctx.diagnostics@ =~= old(ctx).diagnostics@ + switch_diags(
                            cases@.take(j + 1),
                            src,
                        ));
                        assert forall|k: int| 0 <= k < seen@.len() implies seen_among(
                            cases@.take(j + 1),
                            (#[trigger] seen@[k])@,
                            src,
                        ) by {
                            assert(seen_among(prefix, seen@[k]@, src));
                            let i = choose|i: int|
                                0 <= i < prefix.len() && ((#[trigger] prefix[i]).test matches Some(
                                    ti,
                                ) && snippet_of(src, ti.span()) == seen@[k]@);
                            assert(cases@.take(j + 1)[i] == prefix[i]);
                        }
                    }
                },
            }
            j = j + 1;
        }
        proof {
            assert(cases@.take(cases@.len() as int) =~= cases@);
        }
    }
}


/// The rule value the registry hands out: stateless, reusable across
/// programs.
pub struct NoDuplicateCase;

impl NoDuplicateCase {
    pub fn new() -> Box<NoDuplicateCase> {
        Box::new(NoDuplicateCase)
    }

    /// The classification tags of this rule.
    pub fn tags(&self) -> (t: Vec<&'static str>)
        ensures
            t@ == seq!["recommended"],
    {
        let mut t: Vec<&'static str> = Vec::new();
        t.push("recommended");
        proof {
            assert(t@ =~= seq!["recommended"]);
        }
        t
    }

    /// The stable diagnostic code of this rule.
    pub fn code(&self) -> (c: &'static str)
        ensures
            c == Rule::DuplicateCase.code_spec(),
    {
        Rule::DuplicateCase.code()
    }

    /// Run this rule once over one program, appending its diagnostics.
    pub fn lint_program(&self, context: &mut Context, program: &Program)
        requires
            old(context).inv(),
            crate::ast::wf_program(*program, old(context).source@.len()),
            program.file == old(context).file,
        ensures
            final(context).inv(),
            final(context).file == old(context).file,
            final(context).source == old(context).source,
            final(context).diagnostics@ == old(context).diagnostics@ + crate::rules::rule_diags(
                Rule::DuplicateCase,
                *program,
                old(context).source@,
            ),
    {
        crate::walk::run_rule(Rule::DuplicateCase, context, program);
    }

    /// The rationale of this rule, with example blocks.
    pub fn docs(&self) -> &'static str {
        r#"Disallows using the same case clause in a switch statement more than once

When a case test expression is reused in a `switch` statement, the duplicate
clause can never be reached, which is almost always a mistake.

### Invalid:
```typescript
switch (someText) {
  case "a": break;
  case "b": break;
  case "a": break;
}
```

### Valid:
```typescript
switch (someText) {
  case "a": break;
  case "b": break;
  case "c": break;
}
```
"#
    }
}

} // verus!
