use dlint::ast::{ClassMember, Expr, ForHead, Ident, Pat, Program, Stmt, VarDeclarator};
use dlint::linter::lint;
use dlint::rules::Rule;
use dlint::span::{line_col, Span};

fn sp(lo: usize, hi: usize) -> Span {
    Span { file: 0, lo, hi }
}

fn z() -> Span {
    sp(0, 0)
}

/// Byte offset of (1-based line, 0-based column) in `src`.
fn at(src: &str, line: usize, col: usize) -> usize {
    let mut off = 0usize;
    for (n, l) in src.split('\n').enumerate() {
        if n + 1 == line {
            return off + col;
        }
        off += l.len() + 1;
    }
    panic!("line out of range");
}

fn lit(lo: usize, hi: usize) -> Expr {
    Expr::Other { span: sp(lo, hi), children: vec![] }
}

fn id_expr() -> Expr {
    Expr::Ident(Ident { span: z(), binding: None })
}

fn empty(lo: usize) -> Stmt {
    Stmt::Empty(sp(lo, lo + 1))
}

fn b(s: Stmt) -> Box<Stmt> {
    Box::new(s)
}

fn var_stmt(init: Expr) -> Stmt {
    Stmt::Var(
        z(),
        vec![VarDeclarator {
            span: z(),
            name: Pat::Ident(Ident { span: z(), binding: None }),
            init: Some(init),
        }],
    )
}

fn method(body: Vec<Stmt>) -> ClassMember {
    ClassMember::Method { span: z(), params: vec![], body }
}

fn run(src: &str, body: Vec<Stmt>) -> Vec<(usize, usize)> {
    let bytes: Vec<u8> = src.as_bytes().to_vec();
    let prog = Program { file: 0, body };
    let ds = lint(&vec![Rule::StraySemicolon], &prog, src.as_bytes().to_vec(), 0);
    ds.iter()
        .map(|d| {
            assert_eq!(d.code, "no-extra-semi");
            assert_eq!(d.message, "Unnecessary semicolon.");
            assert_eq!(d.hint, "Remove the extra (and unnecessary) semi-colon");
            line_col(&bytes, d.span.lo)
        })
        .collect()
}

fn assert_ok(src: &str, body: Vec<Stmt>) {
    let out = run(src, body);
    assert!(out.is_empty(), "expected no diagnostics for {:?}: {:?}", src, out);
}

fn assert_cols(src: &str, body: Vec<Stmt>, cols: Vec<usize>) {
    let out = run(src, body);
    let expected: Vec<(usize, usize)> = cols.iter().map(|c| (1usize, *c)).collect();
    assert_eq!(out, expected, "source: {:?}", src);
}

fn assert_line_col(src: &str, body: Vec<Stmt>, line: usize, col: usize) {
    let out = run(src, body);
    assert_eq!(out, vec![(line, col)], "source: {:?}", src);
}

fn for_empty_body(body_lo: usize) -> Stmt {
    Stmt::For {
        span: z(),
        init: None,
        test: None,
        update: None,
        body: b(empty(body_lo)),
    }
}

#[test]
fn no_extra_semi_valid() {
    assert_ok("var x = 5;", vec![var_stmt(lit(8, 9))]);
    assert_ok("function foo(){}", vec![Stmt::Fn { span: z(), params: vec![], body: vec![] }]);
    assert_ok("for(;;);", vec![for_empty_body(7)]);
    assert_ok(
        "while(0);",
        vec![Stmt::While { span: z(), test: lit(6, 7), body: b(empty(8)) }],
    );
    assert_ok(
        "do;while(0);",
        vec![Stmt::DoWhile { span: z(), test: lit(9, 10), body: b(empty(2)) }],
    );
    assert_ok(
        "for(a in b);",
        vec![Stmt::ForIn {
            span: z(),
            left: ForHead::Pat(Box::new(Pat::Ident(Ident { span: z(), binding: None }))),
            right: id_expr(),
            body: b(empty(11)),
        }],
    );
    assert_ok(
        "for(a of b);",
        vec![Stmt::ForOf {
            span: z(),
            left: ForHead::Pat(Box::new(Pat::Ident(Ident { span: z(), binding: None }))),
            right: id_expr(),
            body: b(empty(11)),
        }],
    );
    assert_ok(
        "if(true);",
        vec![Stmt::If { span: z(), test: lit(3, 7), cons: b(empty(8)), alt: None }],
    );
    assert_ok(
        "if(true); else;",
        vec![Stmt::If {
            span: z(),
            test: lit(3, 7),
            cons: b(empty(8)),
            alt: Some(b(empty(14))),
        }],
    );
    assert_ok(
        "foo: ;",
        vec![Stmt::Labeled {
            span: z(),
            label: Ident { span: z(), binding: None },
            body: b(empty(5)),
        }],
    );
    assert_ok(
        "foo: bar: ;",
        vec![Stmt::Labeled {
            span: z(),
            label: Ident { span: z(), binding: None },
            body: b(Stmt::Labeled {
                span: z(),
                label: Ident { span: z(), binding: None },
                body: b(empty(10)),
            }),
        }],
    );
    assert_ok(
        "with(foo);",
        vec![Stmt::With { span: z(), obj: id_expr(), body: b(empty(9)) }],
    );
    assert_ok("class A { }", vec![Stmt::Class { span: z(), members: vec![] }]);
    assert_ok(
        "var A = class { };",
        vec![var_stmt(Expr::Class { span: z(), members: vec![] })],
    );
    assert_ok(
        "class A { a() { this; } }",
        vec![Stmt::Class {
            span: z(),
            members: vec![method(vec![Stmt::Expr(z(), lit(16, 20))])],
        }],
    );
    assert_ok(
        "var A = class { a() { this; } };",
        vec![var_stmt(Expr::Class {
            span: z(),
            members: vec![method(vec![Stmt::Expr(z(), lit(22, 26))])],
        })],
    );
    assert_ok(
        "class A { } a;",
        vec![Stmt::Class { span: z(), members: vec![] }, Stmt::Expr(z(), id_expr())],
    );
}

#[test]
fn no_extra_semi_invalid() {
    assert_cols("var x = 5;;", vec![var_stmt(lit(8, 9)), empty(10)], vec![10]);
    assert_cols(
        "function foo(){};",
        vec![Stmt::Fn { span: z(), params: vec![], body: vec![] }, empty(16)],
        vec![16],
    );
    assert_cols("for(;;);;", vec![for_empty_body(7), empty(8)], vec![8]);
    assert_cols(
        "while(0);;",
        vec![Stmt::While { span: z(), test: lit(6, 7), body: b(empty(8)) }, empty(9)],
        vec![9],
    );
    assert_cols(
        "do;while(0);;",
        vec![Stmt::DoWhile { span: z(), test: lit(9, 10), body: b(empty(2)) }, empty(12)],
        vec![12],
    );
    assert_cols(
        "for(a in b);;",
        vec![
            Stmt::ForIn {
                span: z(),
                left: ForHead::Pat(Box::new(Pat::Ident(Ident { span: z(), binding: None }))),
                right: id_expr(),
                body: b(empty(11)),
            },
            empty(12),
        ],
        vec![12],
    );
    assert_cols(
        "for(a of b);;",
        vec![
            Stmt::ForOf {
                span: z(),
                left: ForHead::Pat(Box::new(Pat::Ident(Ident { span: z(), binding: None }))),
                right: id_expr(),
                body: b(empty(11)),
            },
            empty(12),
        ],
        vec![12],
    );
    assert_cols(
        "if(true);;",
        vec![
            Stmt::If { span: z(), test: lit(3, 7), cons: b(empty(8)), alt: None },
            empty(9),
        ],
        vec![9],
    );
    assert_cols(
        "if(true){} else;;",
        vec![
            Stmt::If {
                span: z(),
                test: lit(3, 7),
                cons: b(Stmt::Block(sp(8, 10), vec![])),
                alt: Some(b(empty(15))),
            },
            empty(16),
        ],
        vec![16],
    );
    assert_cols(
        "if(true){;} else {;}",
        vec![Stmt::If {
            span: z(),
            test: lit(3, 7),
            cons: b(Stmt::Block(sp(8, 11), vec![empty(9)])),
            alt: Some(b(Stmt::Block(sp(17, 20), vec![empty(18)]))),
        }],
        vec![9, 18],
    );
    assert_cols(
        "foo:;;",
        vec![
            Stmt::Labeled {
                span: z(),
                label: Ident { span: z(), binding: None },
                body: b(empty(4)),
            },
            empty(5),
        ],
        vec![5],
    );
    assert_cols(
        "with(foo);;",
        vec![Stmt::With { span: z(), obj: id_expr(), body: b(empty(9)) }, empty(10)],
        vec![10],
    );
    assert_cols(
        "with(foo){;}",
        vec![Stmt::With {
            span: z(),
            obj: id_expr(),
            body: b(Stmt::Block(sp(9, 12), vec![empty(10)])),
        }],
        vec![10],
    );
    assert_cols(
        "class A { ; }",
        vec![Stmt::Class { span: z(), members: vec![ClassMember::Empty(sp(10, 11))] }],
        vec![10],
    );
    assert_cols(
        "class A { /*a*/; }",
        vec![Stmt::Class { span: z(), members: vec![ClassMember::Empty(sp(15, 16))] }],
        vec![15],
    );
    assert_cols(
        "class A { ; a() {} }",
        vec![Stmt::Class {
            span: z(),
            members: vec![ClassMember::Empty(sp(10, 11)), method(vec![])],
        }],
        vec![10],
    );
    assert_cols(
        "class A { a() {}; }",
        vec![Stmt::Class {
            span: z(),
            members: vec![method(vec![]), ClassMember::Empty(sp(16, 17))],
        }],
        vec![16],
    );
    assert_cols(
        "class A { a() {}; b() {} }",
        vec![Stmt::Class {
            span: z(),
            members: vec![method(vec![]), ClassMember::Empty(sp(16, 17)), method(vec![])],
        }],
        vec![16],
    );
    assert_cols(
        "class A {; a() {}; b() {}; }",
        vec![Stmt::Class {
            span: z(),
            members: vec![
                ClassMember::Empty(sp(9, 10)),
                method(vec![]),
                ClassMember::Empty(sp(17, 18)),
                method(vec![]),
                ClassMember::Empty(sp(25, 26)),
            ],
        }],
        vec![9, 17, 25],
    );
    assert_cols(
        "class A { a() {}; get b() {} }",
        vec![Stmt::Class {
            span: z(),
            members: vec![method(vec![]), ClassMember::Empty(sp(16, 17)), method(vec![])],
        }],
        vec![16],
    );

    let src = "\nfor (let i = 0; i < n; i++) {\n  for (;;);;\n}\n";
    let body = vec![Stmt::For {
        span: z(),
        init: None,
        test: Some(lit(0, 0)),
        update: Some(lit(0, 0)),
        body: b(Stmt::Block(
            z(),
            vec![
                Stmt::For {
                    span: z(),
                    init: None,
                    test: None,
                    update: None,
                    body: b(empty(at(src, 3, 10))),
                },
                empty(at(src, 3, 11)),
            ],
        )),
    }];
    assert_line_col(src, body, 3, 11);

    let src = "\nwhile (a) {\n  while (b);;\n}\n";
    let body = vec![Stmt::While {
        span: z(),
        test: id_expr(),
        body: b(Stmt::Block(
            z(),
            vec![
                Stmt::While { span: z(), test: id_expr(), body: b(empty(at(src, 3, 11))) },
                empty(at(src, 3, 12)),
            ],
        )),
    }];
    assert_line_col(src, body, 3, 12);

    let src = "\ndo {\n  do {\n    ;\n  } while(a);\n} while(b);\n";
    let body = vec![Stmt::DoWhile {
        span: z(),
        test: id_expr(),
        body: b(Stmt::Block(
            z(),
            vec![Stmt::DoWhile {
                span: z(),
                test: id_expr(),
                body: b(Stmt::Block(z(), vec![empty(at(src, 4, 4))])),
            }],
        )),
    }];
    assert_line_col(src, body, 4, 4);

    let src = "\nwith(a) {\n  with(b) {\n    ;\n  }\n}\n";
    let body = vec![Stmt::With {
        span: z(),
        obj: id_expr(),
        body: b(Stmt::Block(
            z(),
            vec![Stmt::With {
                span: z(),
                obj: id_expr(),
                body: b(Stmt::Block(z(), vec![empty(at(src, 4, 4))])),
            }],
        )),
    }];
    assert_line_col(src, body, 4, 4);

    let src = "\nfor (const a of b) {\n  for (const c of d) {\n    ;\n  }\n}\n";
    let body = vec![Stmt::ForOf {
        span: z(),
        left: ForHead::Var(vec![]),
        right: id_expr(),
        body: b(Stmt::Block(
            z(),
            vec![Stmt::ForOf {
                span: z(),
                left: ForHead::Var(vec![]),
                right: id_expr(),
                body: b(Stmt::Block(z(), vec![empty(at(src, 4, 4))])),
            }],
        )),
    }];
    assert_line_col(src, body, 4, 4);

    let src = "\nfor (const a in b) {\n  for (const c in d) {\n    ;\n  }\n}\n";
    let body = vec![Stmt::ForIn {
        span: z(),
        left: ForHead::Var(vec![]),
        right: id_expr(),
        body: b(Stmt::Block(
            z(),
            vec![Stmt::ForIn {
                span: z(),
                left: ForHead::Var(vec![]),
                right: id_expr(),
                body: b(Stmt::Block(z(), vec![empty(at(src, 4, 4))])),
            }],
        )),
    }];
    assert_line_col(src, body, 4, 4);

    let src = "\nif (a) {\n  if (b) {\n    ;\n  } else;\n}\n";
    let body = vec![Stmt::If {
        span: z(),
        test: id_expr(),
        cons: b(Stmt::Block(
            z(),
            vec![Stmt::If {
                span: z(),
                test: id_expr(),
                cons: b(Stmt::Block(z(), vec![empty(at(src, 4, 4))])),
                alt: Some(b(empty(at(src, 5, 8)))),
            }],
        )),
        alt: None,
    }];
    assert_line_col(src, body, 4, 4);

    let src = "\nfoo: {\n  bar: {\n    ;\n  }\n}\n";
    let body = vec![Stmt::Labeled {
        span: z(),
        label: Ident { span: z(), binding: None },
        body: b(Stmt::Block(
            z(),
            vec![Stmt::Labeled {
                span: z(),
                label: Ident { span: z(), binding: None },
                body: b(Stmt::Block(z(), vec![empty(at(src, 4, 4))])),
            }],
        )),
    }];
    assert_line_col(src, body, 4, 4);

    let src = "\nclass A {\n  foo() {\n    class B { ; }\n  }\n}\n";
    let body = vec![Stmt::Class {
        span: z(),
        members: vec![method(vec![Stmt::Class {
            span: z(),
            members: vec![ClassMember::Empty(sp(at(src, 4, 14), at(src, 4, 15)))],
        }])],
    }];
    assert_line_col(src, body, 4, 14);
}
