use t_wrapper_rust::ast::{Expr, Module, Pat, Stmt};
use t_wrapper_rust::ast_transformers::{
    extract_var_name, transform_function_body, transform_module,
};

fn s(text: &str) -> String {
    String::from(text)
}

fn t_call(arg: Expr) -> Expr {
    Expr::Call {
        callee: Box::new(Expr::Ident { name: s("t") }),
        args: vec![arg],
    }
}

#[test]
fn string_literal_becomes_translation_call() {
    let body = vec![Stmt::Expr {
        expr: Expr::StrLit { value: s("안녕하세요"), line: 0 },
    }];
    let (out, result) = transform_function_body(&body, "");
    assert!(result.was_modified);
    assert_eq!(
        out,
        vec![Stmt::Expr {
            expr: t_call(Expr::StrLit { value: s("안녕하세요"), line: 0 }),
        }]
    );
}

#[test]
fn template_round_trip() {
    let tpl = Expr::TplLit {
        quasis: vec![s("앞 "), s(" 뒤")],
        exprs: vec![Expr::Member {
            obj: Box::new(Expr::Ident { name: s("user") }),
            prop: Some(s("name")),
        }],
        line: 0,
    };
    let body = vec![Stmt::Expr { expr: tpl }];
    let (out, result) = transform_function_body(&body, "");
    assert!(result.was_modified);
    let expected = Stmt::Expr {
        expr: Expr::Call {
            callee: Box::new(Expr::Ident { name: s("t") }),
            args: vec![
                Expr::StrLit { value: s("앞 {{user_name}} 뒤"), line: 0 },
                Expr::ObjectLit {
                    props: vec![(
                        s("user_name"),
                        Expr::Member {
                            obj: Box::new(Expr::Ident { name: s("user") }),
                            prop: Some(s("name")),
                        },
                    )],
                },
            ],
        },
    };
    assert_eq!(out, vec![expected]);
}

#[test]
fn template_without_expressions_degrades_to_plain_call() {
    let tpl = Expr::TplLit { quasis: vec![s("안녕하세요")], exprs: vec![], line: 0 };
    let body = vec![Stmt::Expr { expr: tpl }];
    let (out, result) = transform_function_body(&body, "");
    assert!(result.was_modified);
    assert_eq!(
        out,
        vec![Stmt::Expr {
            expr: t_call(Expr::StrLit { value: s("안녕하세요"), line: 0 }),
        }]
    );
}

#[test]
fn positional_placeholder_names_are_indexed() {
    let complex = Expr::Call {
        callee: Box::new(Expr::Ident { name: s("f") }),
        args: vec![],
    };
    assert_eq!(extract_var_name(&complex, 0), "expr0");
    assert_eq!(extract_var_name(&complex, 1), "expr1");
    assert_eq!(extract_var_name(&complex, 12), "expr12");
    let ident = Expr::Ident { name: s("count") };
    assert_eq!(extract_var_name(&ident, 3), "count");
    let chain = Expr::Member {
        obj: Box::new(Expr::Member {
            obj: Box::new(Expr::Ident { name: s("a") }),
            prop: Some(s("b")),
        }),
        prop: Some(s("c")),
    };
    assert_eq!(extract_var_name(&chain, 0), "a_b_c");
}

fn suppressed_str(line: usize) -> Expr {
    Expr::StrLit { value: s("안녕하세요"), line }
}

#[test]
fn skip_guarantee_line_comment_marker() {
    let src = "// i18n-ignore\nconst x = \"안녕하세요\";";
    let body = vec![Stmt::Expr { expr: suppressed_str(1) }];
    let (out, result) = transform_function_body(&body, src);
    assert!(!result.was_modified);
    assert_eq!(out, vec![Stmt::Expr { expr: suppressed_str(1) }]);
}

#[test]
fn skip_guarantee_block_comment_marker() {
    let src = "/* i18n-ignore */\nconst x = \"안녕하세요\";";
    let body = vec![Stmt::Expr { expr: suppressed_str(1) }];
    let (out, result) = transform_function_body(&body, src);
    assert!(!result.was_modified);
    assert_eq!(out, vec![Stmt::Expr { expr: suppressed_str(1) }]);
}

#[test]
fn skip_guarantee_jsx_comment_marker() {
    let src = "{/* i18n-ignore */}\n<div>안녕하세요</div>";
    let body = vec![Stmt::Expr {
        expr: Expr::JsxText { value: s("안녕하세요"), line: 1 },
    }];
    let (out, result) = transform_function_body(&body, src);
    assert!(!result.was_modified);
    assert_eq!(
        out,
        vec![Stmt::Expr {
            expr: Expr::JsxText { value: s("안녕하세요"), line: 1 },
        }]
    );
}

#[test]
fn mixed_content_rewrites_only_target_script() {
    let module = Module {
        body: vec![Stmt::FnDecl {
            name: s("Component"),
            is_async: false,
            body: vec![
                Stmt::Expr { expr: Expr::StrLit { value: s("안녕"), line: 1 } },
                Stmt::Expr { expr: Expr::StrLit { value: s("Hello"), line: 2 } },
            ],
        }],
    };
    let (out, result, names) = transform_module(&module, "function Component() {\n\n\n}");
    assert!(result.was_modified);
    assert_eq!(names, vec![s("Component")]);
    assert_eq!(
        out.body,
        vec![Stmt::FnDecl {
            name: s("Component"),
            is_async: false,
            body: vec![
                Stmt::Expr { expr: t_call(Expr::StrLit { value: s("안녕"), line: 1 }) },
                Stmt::Expr { expr: Expr::StrLit { value: s("Hello"), line: 2 } },
            ],
        }]
    );
}

#[test]
fn literals_outside_components_are_left_alone() {
    let module = Module {
        body: vec![
            Stmt::Expr { expr: Expr::StrLit { value: s("안녕"), line: 0 } },
            Stmt::FnDecl {
                name: s("helper"),
                is_async: false,
                body: vec![Stmt::Expr {
                    expr: Expr::StrLit { value: s("안녕"), line: 1 },
                }],
            },
        ],
    };
    let (out, result, names) = transform_module(&module, "");
    assert!(!result.was_modified);
    assert!(names.is_empty());
    assert_eq!(out, module);
}

#[test]
fn already_wrapped_call_is_not_rewrapped() {
    let body = vec![Stmt::Expr {
        expr: t_call(Expr::StrLit { value: s("안녕"), line: 0 }),
    }];
    let (out, result) = transform_function_body(&body, "");
    assert!(!result.was_modified);
    assert_eq!(
        out,
        vec![Stmt::Expr {
            expr: t_call(Expr::StrLit { value: s("안녕"), line: 0 }),
        }]
    );
}

#[test]
fn transform_is_idempotent_on_function_bodies() {
    let body = vec![
        Stmt::Expr { expr: Expr::StrLit { value: s("안녕하세요"), line: 0 } },
        Stmt::Expr {
            expr: Expr::TplLit {
                quasis: vec![s("값 "), s("")],
                exprs: vec![Expr::Ident { name: s("n") }],
                line: 0,
            },
        },
        Stmt::Return {
            arg: Some(Expr::JsxElement {
                name: s("div"),
                attrs: vec![(s("title"), Some(Expr::StrLit { value: s("제목"), line: 0 }))],
                children: vec![Expr::JsxText { value: s(" 본문 "), line: 0 }],
            }),
        },
    ];
    let (once, first) = transform_function_body(&body, "");
    assert!(first.was_modified);
    let (twice, second) = transform_function_body(&once, "");
    assert!(!second.was_modified);
    assert_eq!(once, twice);
}

#[test]
fn jsx_text_is_trimmed_and_wrapped_in_container() {
    let body = vec![Stmt::Expr {
        expr: Expr::JsxText { value: s("  안녕하세요  "), line: 0 },
    }];
    let (out, result) = transform_function_body(&body, "");
    assert!(result.was_modified);
    assert_eq!(
        out,
        vec![Stmt::Expr {
            expr: Expr::JsxExprContainer {
                inner: Box::new(t_call(Expr::StrLit { value: s("안녕하세요"), line: 0 })),
            },
        }]
    );
}

#[test]
fn jsx_attribute_value_gains_expression_container() {
    let body = vec![Stmt::Return {
        arg: Some(Expr::JsxElement {
            name: s("img"),
            attrs: vec![(s("alt"), Some(Expr::StrLit { value: s("그림"), line: 0 }))],
            children: vec![],
        }),
    }];
    let (out, result) = transform_function_body(&body, "");
    assert!(result.was_modified);
    assert_eq!(
        out,
        vec![Stmt::Return {
            arg: Some(Expr::JsxElement {
                name: s("img"),
                attrs: vec![(
                    s("alt"),
                    Some(Expr::JsxExprContainer {
                        inner: Box::new(t_call(Expr::StrLit { value: s("그림"), line: 0 })),
                    }),
                )],
                children: vec![],
            }),
        }]
    );
}

#[test]
fn registry_records_each_component_once_in_order() {
    let module = Module {
        body: vec![
            Stmt::FnDecl {
                name: s("First"),
                is_async: false,
                body: vec![
                    Stmt::Expr { expr: Expr::StrLit { value: s("하나"), line: 0 } },
                    Stmt::Expr { expr: Expr::StrLit { value: s("둘"), line: 0 } },
                ],
            },
            Stmt::FnDecl {
                name: s("plain"),
                is_async: false,
                body: vec![Stmt::Expr {
                    expr: Expr::StrLit { value: s("셋"), line: 0 },
                }],
            },
            Stmt::VarDecl {
                decls: vec![(
                    Pat::Id { name: s("Second") },
                    Expr::Arrow {
                        is_async: false,
                        body: vec![Stmt::Expr {
                            expr: Expr::StrLit { value: s("넷"), line: 0 },
                        }],
                    },
                )],
            },
        ],
    };
    let (_, result, names) = transform_module(&module, "");
    assert!(result.was_modified);
    assert_eq!(names, vec![s("First"), s("Second")]);
}
