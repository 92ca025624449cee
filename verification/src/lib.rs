//! A small lint engine for an ECMAScript / typed-ECMAScript dialect.
//!
//! The host parses source text, resolves identifier bindings, and hands
//! the engine a program over the AST model of [`ast`], together with
//! the source bytes the spans index into.  [`linter::lint`] runs a
//! selection of the rules in [`rules`] over the tree; each rule appends
//! diagnostics to the shared [`context::Context`] in visit order.  The
//! result is a pure function of the rule set, the tree, and the source
//! text, every reported span lies inside the source extent, and each
//! diagnostic carries the code of the rule that reported it; [`linter`]
//! states and proves these laws.

pub mod ast;
pub mod context;
pub mod linter;
pub mod rules;
pub mod span;
pub mod walk;

