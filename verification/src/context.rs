use vstd::prelude::*;
use crate::ast::{Ident, Variable};
use crate::span::Span;

verus! {

/// One reported violation: where, which rule, and the rule's fixed
/// message and remediation hint.
#[derive(Clone, Copy, Debug)]
pub struct Diagnostic {
    pub span: Span,
    pub code: &'static str,
    pub message: &'static str,
    pub hint: &'static str,
}

/// The snippet a span resolves to: the exact subrange of the source.
pub open spec fn snippet_of(src: Seq<u8>, sp: Span) -> Seq<u8> {
    src.subrange(sp.lo as int, sp.hi as int)
}

/// The shared lint context for one pass over one program: the source
/// text the spans index into, and the growing diagnostic list.  Rules
/// only read the source and append diagnostics.
pub struct Context {
    pub file: usize,
    pub source: Vec<u8>,
    pub diagnostics: Vec<Diagnostic>,
}

impl Context {
    /// Every recorded diagnostic points inside the source extent.
    pub open spec fn inv(self) -> bool {
        forall|i: int|
            0 <= i < self.diagnostics@.len() ==> (#[trigger] self.diagnostics@[i]).span.inside(
                self.file,
                self.source@.len(),
            )
    }

    pub fn new(file: usize, source: Vec<u8>) -> (ctx: Context)
        ensures
            ctx.inv(),
            ctx.file == file,
            ctx.source == source,
            ctx.diagnostics@ == Seq::<Diagnostic>::empty(),
    {
        let ctx = Context { file, source, diagnostics: Vec::new() };
        proof {
            assert(ctx.diagnostics@ =~= Seq::<Diagnostic>::empty());
        }
        ctx
    }

    /// The exact original source bytes for `span`.  Callers must hand a
    /// span inside the program; an out-of-range span is a programming
    /// error, not a lint finding.
    pub fn snippet(&self, span: Span) -> (snip: Vec<u8>)
        requires
            span.inside(self.file, self.source@.len()),
        ensures
            snip@ == snippet_of(self.source@, span),
    {
        let mut out: Vec<u8> = Vec::new();
        let mut i: usize = span.lo;
        while i < span.hi
            invariant
                span.lo <= i <= span.hi <= self.source@.len(),
                out@ == self.source@.subrange(span.lo as int, i as int),
            decreases span.hi - i,
        {
            out.push(self.source[i]);
            proof {
                assert(out@ =~= self.source@.subrange(span.lo as int, i + 1));
            }
            i = i + 1;
        }
        out
    }

    /// The scope map's answer for an identifier occurrence: its binding,
    /// when it resolves to one.
    pub fn variable(&self, id: &Ident) -> (v: Option<Variable>)
        ensures
            v == id.binding,
    {
        id.binding
    }

    /// Append one diagnostic.  Diagnostics are kept in report order and
    /// never deduplicated.
    pub fn add_diagnostic_with_hint(
        &mut self,
        span: Span,
        code: &'static str,
        message: &'static str,
        hint: &'static str,
    )
        requires
            old(self).inv(),
            span.inside(old(self).file, old(self).source@.len()),
        ensures
            final(self).inv(),
            final(self).file == old(self).file,
            final(self).source == old(self).source,
            final(self).diagnostics@ == old(self).diagnostics@.push(
                Diagnostic { span, code, message, hint },
            ),
    {
        self.diagnostics.push(Diagnostic { span, code, message, hint });
    }

    /// The diagnostics reported so far, in report order.
    pub fn diagnostics(&self) -> (ds: &Vec<Diagnostic>)
        ensures
            ds == &self.diagnostics,
    {
        &self.diagnostics
    }
}

/// Byte-wise equality of two owned byte strings.
pub fn bytes_eq(a: &Vec<u8>, b: &Vec<u8>) -> (r: bool)
    ensures
        r == (a@ == b@),
{
    if a.len() != b.len() {
        proof {
            assert(a@.len() != b@.len());
        }
        return false;
    }
    let mut i: usize = 0;
    while i < a.len()
        invariant
            i <= a@.len() == b@.len(),
            forall|j: int| 0 <= j < i ==> a@[j] == b@[j],
        decreases a@.len() - i,
    {
        if a[i] != b[i] {
            return false;
        }
        i = i + 1;
    }
    proof {
        assert(a@ =~= b@);
    }
    true
}

} // verus!
