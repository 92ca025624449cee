use dlint::ast::{
    BindingKind, CatchClause, ClassMember, Expr, Ident, Pat, Program, Stmt, SwitchCase,
    Variable, VarDeclarator,
};
use dlint::linter::lint;
use dlint::rules::Rule;
use dlint::span::{line_col, Span};

fn sp(lo: usize, hi: usize) -> Span {
    Span { file: 0, lo, hi }
}

fn z() -> Span {
    sp(0, 0)
}

/// Byte offset of (1-based line, 0-based column) in `src`.
fn at(src: &str, line: usize, col: usize) -> usize {
    let mut off = 0usize;
    for (n, l) in src.split('\n').enumerate() {
        if n + 1 == line {
            return off + col;
        }
        off += l.len() + 1;
    }
    panic!("line out of range");
}

fn lit(lo: usize, hi: usize) -> Expr {
    Expr::Other { span: sp(lo, hi), children: vec![] }
}

fn ident(binding: Option<Variable>) -> Ident {
    Ident { span: z(), binding }
}

fn catch_bound() -> Option<Variable> {
    Some(Variable { kind: BindingKind::CatchClause, decl_span: z() })
}

fn run(rule: Rule, src: &str, body: Vec<Stmt>) -> Vec<(String, usize, usize)> {
    let bytes: Vec<u8> = src.as_bytes().to_vec();
    let prog = Program { file: 0, body };
    let ds = lint(&vec![rule], &prog, bytes, 0);
    let bytes2: Vec<u8> = src.as_bytes().to_vec();
    ds.iter()
        .map(|d| {
            let (l, c) = line_col(&bytes2, d.span.lo);
            (d.code.to_string(), l, c)
        })
        .collect()
}

fn assert_ok(rule: Rule, src: &str, body: Vec<Stmt>) {
    let out = run(rule, src, body);
    assert!(out.is_empty(), "expected no diagnostics for {:?}: {:?}", src, out);
}

fn assert_err(rule: Rule, code: &str, src: &str, body: Vec<Stmt>, line: usize, col: usize) {
    let out = run(rule, src, body);
    assert_eq!(out, vec![(code.to_string(), line, col)], "source: {:?}", src);
}

fn case(test: Option<Expr>) -> SwitchCase {
    SwitchCase { span: z(), test, cons: vec![] }
}

fn switch(cases: Vec<SwitchCase>) -> Stmt {
    Stmt::Switch { span: z(), disc: lit(0, 0), cases }
}

fn interface(lo: usize, n_extends: usize, n_members: usize) -> Stmt {
    Stmt::Interface { span: sp(lo, lo), n_extends, n_members }
}

fn try_catch(param: Option<Pat>, handler_body: Vec<Stmt>) -> Stmt {
    Stmt::Try {
        span: z(),
        block: vec![],
        handler: Some(CatchClause { span: z(), param, body: handler_body }),
        finalizer: None,
    }
}

fn assign_stmt(lo: usize, target: Pat) -> Stmt {
    Stmt::Expr(
        z(),
        Expr::Assign { span: sp(lo, lo), target: Box::new(target), value: Box::new(lit(0, 0)) },
    )
}

#[test]
fn no_duplicate_case_test() {
    let src = r#"
const someText = "some text";
switch (someText) {
    case "a":
        break;
    case "b":
        break;
    case "a":
        break;
    default:
        break;
}
      "#;
    let t1 = src.find("\"a\"").unwrap();
    let t2 = src.find("\"b\"").unwrap();
    let t3 = src.rfind("\"a\"").unwrap();
    let body = vec![
        Stmt::Var(
            z(),
            vec![VarDeclarator { span: z(), name: Pat::Ident(ident(None)), init: Some(lit(0, 0)) }],
        ),
        switch(vec![
            case(Some(lit(t1, t1 + 3))),
            case(Some(lit(t2, t2 + 3))),
            case(Some(lit(t3, t3 + 3))),
            case(None),
        ]),
    ];
    assert_err(Rule::DuplicateCase, "no-duplicate-case", src, body, 8, 9);
}

#[test]
fn no_empty_interface_valid() {
    assert_ok(Rule::EmptyInterface, "interface Foo { a: string }", vec![interface(0, 0, 1)]);
    assert_ok(Rule::EmptyInterface, "interface Foo { a: number }", vec![interface(0, 0, 1)]);
    // An interface with more than one supertype can replace a union type.
    assert_ok(
        Rule::EmptyInterface,
        "interface Foo extends Bar, Baz {}",
        vec![interface(0, 2, 0)],
    );
}

#[test]
fn no_empty_interface_invalid() {
    let code = "no-empty-interface";
    assert_err(Rule::EmptyInterface, code, "interface Foo {}", vec![interface(0, 0, 0)], 1, 0);
    assert_err(
        Rule::EmptyInterface,
        code,
        "interface Foo extends {}",
        vec![interface(0, 0, 0)],
        1,
        0,
    );
    let src = r#"
interface Foo {
  a: string;
}

interface Bar extends Foo {}
"#;
    let body = vec![
        interface(at(src, 2, 0), 0, 1),
        interface(src.find("interface Bar").unwrap(), 1, 0),
    ];
    assert_err(Rule::EmptyInterface, code, src, body, 6, 0);
    assert_err(
        Rule::EmptyInterface,
        code,
        "interface Foo extends Array<number> {}",
        vec![interface(0, 1, 0)],
        1,
        0,
    );
    assert_err(
        Rule::EmptyInterface,
        code,
        "interface Foo extends Array<number | {}> {}",
        vec![interface(0, 1, 0)],
        1,
        0,
    );
    let src = r#"
interface Foo {
  a: string;
}

interface Bar extends Array<Foo> {}
"#;
    let body = vec![
        interface(at(src, 2, 0), 0, 1),
        interface(src.find("interface Bar").unwrap(), 1, 0),
    ];
    assert_err(Rule::EmptyInterface, code, src, body, 6, 0);
    let src = r#"
type R = Record<string, unknown>;
interface Foo extends R {}
"#;
    let body = vec![
        Stmt::Other(z(), vec![]),
        interface(src.find("interface Foo").unwrap(), 1, 0),
    ];
    assert_err(Rule::EmptyInterface, code, src, body, 3, 0);
    assert_err(
        Rule::EmptyInterface,
        code,
        "interface Foo<T> extends Bar<T> {}",
        vec![interface(0, 1, 0)],
        1,
        0,
    );
    let src = r#"
declare module FooBar {
  type Baz = typeof baz;
  export interface Bar extends Baz {}
}
"#;
    let body = vec![Stmt::Block(
        z(),
        vec![
            Stmt::Other(z(), vec![]),
            interface(src.find("interface Bar").unwrap(), 1, 0),
        ],
    )];
    assert_err(Rule::EmptyInterface, code, src, body, 4, 9);
}

#[test]
fn no_ex_assign_valid() {
    let src = r#"
try {} catch { e = 1; }
try {} catch (ex) { something = 1; }
try {} catch (ex) { return 1; }
function foo() { try { } catch (e) { return false; } }
      "#;
    let body = vec![
        try_catch(None, vec![assign_stmt(at(src, 2, 15), Pat::Ident(ident(None)))]),
        try_catch(
            Some(Pat::Ident(ident(None))),
            vec![assign_stmt(at(src, 3, 20), Pat::Ident(ident(None)))],
        ),
        try_catch(Some(Pat::Ident(ident(None))), vec![Stmt::Other(z(), vec![lit(0, 0)])]),
        Stmt::Fn {
            span: z(),
            params: vec![],
            body: vec![try_catch(
                Some(Pat::Ident(ident(None))),
                vec![Stmt::Other(z(), vec![lit(0, 0)])],
            )],
        },
    ];
    assert_ok(Rule::ExceptionAssign, src, body);
}

#[test]
fn no_ex_assign_invalid() {
    let src = r#"
try {} catch (e) { e = 1; }
try {} catch (ex) { ex = 1; }
try {} catch (ex) { [ex] = []; }
try {} catch (ex) { ({x: ex = 0} = {}); }
try {} catch ({message}) { message = 1; }
      "#;
    let body = vec![
        try_catch(
            Some(Pat::Ident(ident(None))),
            vec![assign_stmt(at(src, 2, 19), Pat::Ident(ident(catch_bound())))],
        ),
        try_catch(
            Some(Pat::Ident(ident(None))),
            vec![assign_stmt(at(src, 3, 20), Pat::Ident(ident(catch_bound())))],
        ),
        try_catch(
            Some(Pat::Ident(ident(None))),
            vec![assign_stmt(
                at(src, 4, 20),
                Pat::Array { span: z(), elems: vec![Pat::Ident(ident(catch_bound()))] },
            )],
        ),
        try_catch(
            Some(Pat::Ident(ident(None))),
            vec![assign_stmt(
                at(src, 5, 21),
                Pat::Object {
                    span: z(),
                    props: vec![Pat::Default {
                        span: z(),
                        pat: Box::new(Pat::Ident(ident(catch_bound()))),
                        value: Box::new(lit(0, 0)),
                    }],
                },
            )],
        ),
        try_catch(
            Some(Pat::Object { span: z(), props: vec![Pat::Ident(ident(None))] }),
            vec![assign_stmt(at(src, 6, 27), Pat::Ident(ident(catch_bound())))],
        ),
    ];
    let bytes: Vec<u8> = src.as_bytes().to_vec();
    let prog = Program { file: 0, body };
    let ds = lint(&vec![Rule::ExceptionAssign], &prog, src.as_bytes().to_vec(), 0);
    let expected = [(2usize, 19usize), (3, 20), (4, 20), (5, 21), (6, 27)];
    assert_eq!(ds.len(), expected.len());
    for (d, (line, col)) in ds.iter().zip(expected.iter()) {
        assert_eq!(d.code, "no-ex-assign");
        assert_eq!(d.message, "Reassigning exception parameter is not allowed");
        assert_eq!(d.hint, "Use a different variable for the assignment");
        assert_eq!(line_col(&bytes, d.span.lo), (*line, *col));
    }
}
