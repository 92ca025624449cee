use vstd::prelude::*;
use crate::ast::Program;
use crate::rules::Rule;
use crate::context::{Context, Diagnostic};
use crate::span::Span;

verus! {

pub open spec fn diag(span: Span, n_extends: usize) -> Diagnostic {
    Diagnostic {
        span,
        code: "no-empty-interface",
        message: if n_extends == 0 {
            "An empty interface is equivalent to {}."
        } else {
            "An interface declaring no members is equivalent to its supertype."
        },
        hint: if n_extends == 0 {
            "Remove this interface or add members to this interface."
        } else {
            "Use the supertype instead, or add members to this interface."
        },
    }
}

/// The diagnostics of one interface declaration: one at the declaration
/// span when the body is empty and at most one supertype is extended.
/// An interface extending two or more supertypes is an ad-hoc union of
/// their shapes and is deliberately exempt.
pub open spec fn interface_diags(span: Span, n_extends: usize, n_members: usize) -> Seq<
    Diagnostic,
> {
    if n_members == 0 && n_extends <= 1 {
        seq![diag(span, n_extends)]
    } else {
        Seq::empty()
    }
}

/// The traversal state of one empty-interface pass.
pub struct NoEmptyInterfaceVisitor;

impl NoEmptyInterfaceVisitor {
    pub fn new() -> NoEmptyInterfaceVisitor {
        NoEmptyInterfaceVisitor
    }

    /// Decide one interface declaration, reading how many supertypes it
    /// extends and how many members its body holds.
    pub fn visit_ts_interface_decl(
        &self,
        ctx: &mut Context,
        span: Span,
        n_extends: usize,
        n_members: usize,
    )
        requires
            old(ctx).inv(),
            span.inside(old(ctx).file, old(ctx).source@.len()),
        ensures
            final(ctx).inv(),
            final(ctx).file == old(ctx).file,
            final(ctx).source == old(ctx).source,
            final(ctx).diagnostics@ == old(ctx).diagnostics@ + interface_diags(
                span,
                n_extends,
                n_members,
            ),
    {
        if n_members == 0 && n_extends <= 1 {
            if n_extends == 0 {
                ctx.add_diagnostic_with_hint(
                    span,
                    "no-empty-interface",
                    "An empty interface is equivalent to {}.",
                    "Remove this interface or add members to this interface.",
                );
            } else {
                ctx.add_diagnostic_with_hint(
                    span,
                    "no-empty-interface",
                    "An interface declaring no members is equivalent to its supertype.",
                    "Use the supertype instead, or add members to this interface.",
                );
            }
            proof {
                assert(ctx.diagnostics@ =~= old(ctx).diagnostics@ + interface_diags(
                    span,
                    n_extends,
                    n_members,
                ));
            }
        } else {
            proof {
                assert(ctx.diagnostics@ =~= old(ctx).diagnostics@ + interface_diags(
                    span,
                    n_extends,
                    n_members,
                ));
            }
        }
    }
}


/// The rule value the registry hands out: stateless, reusable across
/// programs.
pub struct NoEmptyInterface;

impl NoEmptyInterface {
    pub fn new() -> Box<NoEmptyInterface> {
        Box::new(NoEmptyInterface)
    }

    /// The classification tags of this rule.
    pub fn tags(&self) -> (t: Vec<&'static str>)
        ensures
            t@ == seq!["recommended"],
    {
        let mut t: Vec<&'static str> = Vec::new();
        t.push("recommended");
        proof {
            assert(t@ =~= seq!["recommended"]);
        }
        t
    }

    /// The stable diagnostic code of this rule.
    pub fn code(&self) -> (c: &'static str)
        ensures
            c == Rule::EmptyInterface.code_spec(),
    {
        Rule::EmptyInterface.code()
    }

    /// Run this rule once over one program, appending its diagnostics.
    pub fn lint_program(&self, context: &mut Context, program: &Program)
        requires
            old(context).inv(),
            crate::ast::wf_program(*program, old(context).source@.len()),
            program.file == old(context).file,
        ensures
            final(context).inv(),
            final(context).file == old(context).file,
            final(context).source == old(context).source,
            final(context).diagnostics@ == old(context).diagnostics@ + crate::rules::rule_diags(
                Rule::EmptyInterface,
                *program,
                old(context).source@,
            ),
    {
        crate::walk::run_rule(Rule::EmptyInterface, context, program);
    }

    /// The rationale of this rule, with example blocks.
    pub fn docs(&self) -> &'static str {
        r#"Disallows the declaration of an empty interface

An interface with no members and at most one supertype serves no purpose:
it is either the empty object shape or an alias of its supertype.

### Invalid:
```typescript
interface Foo {}
interface Foo extends Bar {}
```

### Valid:
```typescript
interface Foo {
  name: string;
}

interface Baz extends Foo, Bar {}
```
"#
    }
}

} // verus!
