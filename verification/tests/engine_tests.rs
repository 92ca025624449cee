use dlint::ast::{BindingKind, Expr, Ident, Pat, Program, Stmt, SwitchCase, Variable};
use dlint::context::Context;
use dlint::linter::{lint, Registry};
use dlint::rules::no_duplicate_case::{NoDuplicateCase, NoDuplicateCaseVisitor};
use dlint::rules::no_empty_interface::{NoEmptyInterface, NoEmptyInterfaceVisitor};
use dlint::rules::no_ex_assign::{find_lhs_ids, NoExAssign, NoExAssignVisitor};
use dlint::rules::no_extra_semi::{NoExtraSemi, NoExtraSemiVisitor};
use dlint::rules::Rule;
use dlint::span::{line_col, Span};

fn sp(lo: usize, hi: usize) -> Span {
    Span { file: 0, lo, hi }
}

fn z() -> Span {
    sp(0, 0)
}

fn lit(lo: usize, hi: usize) -> Expr {
    Expr::Other { span: sp(lo, hi), children: vec![] }
}

fn case(test: Option<Expr>) -> SwitchCase {
    SwitchCase { span: z(), test, cons: vec![] }
}

fn switch(cases: Vec<SwitchCase>) -> Stmt {
    Stmt::Switch { span: z(), disc: lit(0, 0), cases }
}

fn run_rules(rules: Vec<Rule>, src: &str, body: Vec<Stmt>) -> Vec<String> {
    let prog = Program { file: 0, body };
    lint(&rules, &prog, src.as_bytes().to_vec(), 0)
        .iter()
        .map(|d| d.code.to_string())
        .collect()
}

#[test]
fn registry_enumerates_the_four_rules() {
    let reg = Registry::new();
    let codes: Vec<&str> = reg.rules.iter().map(|r| r.code()).collect();
    assert_eq!(
        codes,
        vec!["no-duplicate-case", "no-empty-interface", "no-ex-assign", "no-extra-semi"]
    );
    assert!(matches!(reg.get_by_code("no-ex-assign"), Some(Rule::ExceptionAssign)));
    assert!(reg.get_by_code("no-such-rule").is_none());
    assert_eq!(reg.get_by_tag("recommended").len(), 4);
    assert!(reg.get_by_tag("style").is_empty());
}

#[test]
fn rule_metadata_is_stable() {
    assert_eq!(NoDuplicateCase::new().code(), "no-duplicate-case");
    assert_eq!(NoEmptyInterface::new().code(), "no-empty-interface");
    assert_eq!(NoExAssign::new().code(), "no-ex-assign");
    assert_eq!(NoExtraSemi::new().code(), "no-extra-semi");
    for tags in [
        NoDuplicateCase::new().tags(),
        NoEmptyInterface::new().tags(),
        NoExAssign::new().tags(),
        NoExtraSemi::new().tags(),
    ] {
        assert_eq!(tags, vec!["recommended"]);
    }
    assert!(NoDuplicateCase::new().docs().contains("Invalid:"));
    assert!(NoEmptyInterface::new().docs().contains("Valid:"));
    let _ = (
        NoDuplicateCaseVisitor::new(),
        NoEmptyInterfaceVisitor::new(),
        NoExAssignVisitor::new(),
        NoExtraSemiVisitor::new(),
    );
}

#[test]
fn lint_groups_diagnostics_by_rule_in_registration_order() {
    // `interface Foo {};` violates two rules; the diagnostics come
    // grouped by rule in registration order.
    let src = "interface Foo {};";
    let body = vec![
        Stmt::Interface { span: sp(0, 16), n_extends: 0, n_members: 0 },
        Stmt::Empty(sp(16, 17)),
    ];
    let reg = Registry::new();
    let codes = run_rules(reg.rules.iter().copied().collect(), src, body);
    assert_eq!(codes, vec!["no-empty-interface", "no-extra-semi"]);
}

#[test]
fn lint_twice_yields_identical_diagnostics() {
    let src = "interface Foo {};";
    let mk = || {
        vec![
            Stmt::Interface { span: sp(0, 16), n_extends: 0, n_members: 0 },
            Stmt::Empty(sp(16, 17)),
        ]
    };
    let reg = Registry::new();
    let prog1 = Program { file: 0, body: mk() };
    let prog2 = Program { file: 0, body: mk() };
    let d1 = lint(&reg.rules, &prog1, src.as_bytes().to_vec(), 0);
    let d2 = lint(&reg.rules, &prog2, src.as_bytes().to_vec(), 0);
    assert_eq!(d1.len(), d2.len());
    for (a, b) in d1.iter().zip(d2.iter()) {
        assert_eq!((a.span, a.code, a.message, a.hint), (b.span, b.code, b.message, b.hint));
    }
}

#[test]
fn removing_a_rule_removes_exactly_its_diagnostics() {
    let src = "interface Foo {};";
    let mk = || {
        vec![
            Stmt::Interface { span: sp(0, 16), n_extends: 0, n_members: 0 },
            Stmt::Empty(sp(16, 17)),
        ]
    };
    let all = run_rules(Registry::new().rules, src, mk());
    let without: Vec<String> = run_rules(
        vec![Rule::DuplicateCase, Rule::ExceptionAssign, Rule::StraySemicolon],
        src,
        mk(),
    );
    let filtered: Vec<String> =
        all.iter().filter(|c| c.as_str() != "no-empty-interface").cloned().collect();
    assert_eq!(without, filtered);
}

#[test]
fn duplicate_case_boundaries() {
    // An empty switch reports nothing.
    assert!(run_rules(vec![Rule::DuplicateCase], "switch(a){}", vec![switch(vec![])]).is_empty());
    // A switch with only `default` reports nothing.
    assert!(run_rules(
        vec![Rule::DuplicateCase],
        "switch(a){default:}",
        vec![switch(vec![case(None)])]
    )
    .is_empty());
    // Textually different tests do not collide, even when structurally
    // equal: `1` versus `1 ` with trailing whitespace inside the span.
    let src = "1 1 ";
    assert!(run_rules(
        vec![Rule::DuplicateCase],
        src,
        vec![switch(vec![case(Some(lit(0, 1))), case(Some(lit(2, 4)))])]
    )
    .is_empty());
    // Equal snippets at different places do collide.
    let src = "1 1";
    let prog = Program { file: 0, body: vec![switch(vec![
        case(Some(lit(0, 1))),
        case(Some(lit(2, 3))),
    ])] };
    let ds = lint(&vec![Rule::DuplicateCase], &prog, src.as_bytes().to_vec(), 0);
    assert_eq!(ds.len(), 1);
    assert_eq!(ds[0].span, sp(2, 3));
    assert_eq!(ds[0].code, "no-duplicate-case");
    assert_eq!(ds[0].message, "Duplicate values in case are not allowed");
    assert_eq!(ds[0].hint, "Remove or rename the duplicate case clause");
}

#[test]
fn ex_assign_ignores_unrelated_bindings() {
    // Assigning to an outer variable that merely shares the name of a
    // catch parameter does not report.
    let src = "e = 1;";
    let outer = Ident {
        span: z(),
        binding: Some(Variable { kind: BindingKind::Var, decl_span: z() }),
    };
    let body = vec![Stmt::Expr(
        z(),
        Expr::Assign {
            span: sp(0, 5),
            target: Box::new(Pat::Ident(outer)),
            value: Box::new(lit(4, 5)),
        },
    )];
    assert!(run_rules(vec![Rule::ExceptionAssign], src, body).is_empty());
}

#[test]
fn lhs_identifier_extraction_follows_the_pattern_shape() {
    let catch = Ident {
        span: sp(1, 2),
        binding: Some(Variable { kind: BindingKind::CatchClause, decl_span: z() }),
    };
    // Member targets and default-value expressions contribute nothing.
    let member = Pat::Expr { span: z(), expr: Box::new(lit(0, 0)) };
    assert!(find_lhs_ids(&member).is_empty());
    // A nested array/object/default/rest pattern yields its leaves.
    let pat = Pat::Array {
        span: z(),
        elems: vec![
            Pat::Default {
                span: z(),
                pat: Box::new(Pat::Ident(catch)),
                value: Box::new(lit(0, 0)),
            },
            Pat::Rest { span: z(), pat: Box::new(Pat::Ident(catch)) },
            Pat::Object { span: z(), props: vec![Pat::Ident(catch)] },
        ],
    };
    assert_eq!(find_lhs_ids(&pat).len(), 3);
}

#[test]
fn context_resolves_snippets_and_bindings() {
    let mut ctx = Context::new(0, b"let x = 42;".to_vec());
    assert_eq!(ctx.snippet(sp(8, 10)), b"42".to_vec());
    assert_eq!(ctx.snippet(sp(0, 3)), b"let".to_vec());
    let v = Variable { kind: BindingKind::Let, decl_span: sp(4, 5) };
    assert_eq!(ctx.variable(&Ident { span: sp(4, 5), binding: Some(v) }), Some(v));
    assert_eq!(ctx.variable(&Ident { span: sp(8, 10), binding: None }), None);
    assert!(ctx.diagnostics().is_empty());
    ctx.add_diagnostic_with_hint(sp(0, 3), "no-extra-semi", "m", "h");
    assert_eq!(ctx.diagnostics().len(), 1);
    assert_eq!(ctx.diagnostics()[0].span, sp(0, 3));
}

#[test]
fn line_col_counts_lines_and_columns() {
    let src: Vec<u8> = b"ab\ncde\n\nf".to_vec();
    assert_eq!(line_col(&src, 0), (1, 0));
    assert_eq!(line_col(&src, 2), (1, 2));
    assert_eq!(line_col(&src, 3), (2, 0));
    assert_eq!(line_col(&src, 6), (2, 3));
    assert_eq!(line_col(&src, 7), (3, 0));
    assert_eq!(line_col(&src, 8), (4, 0));
    assert_eq!(line_col(&src, 9), (4, 1));
}
