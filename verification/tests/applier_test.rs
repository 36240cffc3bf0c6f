use t_wrapper_rust::ast::{Expr, Module, Pat, Stmt};
use t_wrapper_rust::translation_applier::{apply_translations_to_ast, ApplierConfig};
use t_wrapper_rust::wrapper::process_module;

fn s(text: &str) -> String {
    String::from(text)
}

fn component_module() -> Module {
    Module {
        body: vec![Stmt::FnDecl {
            name: s("Component"),
            is_async: false,
            body: vec![Stmt::Return {
                arg: Some(Expr::JsxElement {
                    name: s("div"),
                    attrs: vec![],
                    children: vec![Expr::JsxText { value: s("안녕하세요"), line: 1 }],
                }),
            }],
        }],
    }
}

const SRC: &str = "function Component() {\n  return <div>안녕하세요</div>;\n}";

fn config(mode: Option<&str>, framework: Option<&str>, server_fn: Option<&str>) -> ApplierConfig {
    ApplierConfig {
        mode: mode.map(s),
        framework: framework.map(s),
        server_translation_function: server_fn.map(s),
        translation_import_source: s("i18nexus"),
    }
}

fn is_directive(stmt: &Stmt) -> bool {
    matches!(stmt, Stmt::Expr { expr: Expr::StrLit { value, .. } } if value == "use client")
}

fn fn_decl(stmt: &Stmt) -> (&String, bool, &Vec<Stmt>) {
    match stmt {
        Stmt::FnDecl { name, is_async, body } => (name, *is_async, body),
        other => panic!("expected a function declaration, got {:?}", other),
    }
}

/// The body statement holds the wrapped call `{t("안녕하세요")}`.
fn has_wrapped_text(body: &[Stmt]) -> bool {
    body.iter().any(|st| match st {
        Stmt::Return { arg: Some(Expr::JsxElement { children, .. }) } => {
            children.iter().any(|c| match c {
                Expr::JsxExprContainer { inner } => match &**inner {
                    Expr::Call { callee, args } => {
                        matches!(&**callee, Expr::Ident { name } if name == "t")
                            && matches!(
                                args.first(),
                                Some(Expr::StrLit { value, .. }) if value == "안녕하세요"
                            )
                    },
                    _ => false,
                },
                _ => false,
            })
        },
        _ => false,
    })
}

fn binding_of(body: &[Stmt]) -> Option<&Stmt> {
    body.first()
}

#[test]
fn mode_matrix_default_config() {
    let module = component_module();
    let (out, modified) = process_module(&module, SRC, &config(None, None, None));
    assert!(modified);
    assert!(!is_directive(&out.body[0]));
    let (name, is_async, body) = fn_decl(&out.body[0]);
    assert_eq!(name, "Component");
    assert!(!is_async);
    assert!(has_wrapped_text(body));
    assert!(!matches!(body[0], Stmt::VarDecl { .. }));
    assert!(!out.body.iter().any(|st| matches!(st, Stmt::Import { .. })));
}

#[test]
fn mode_matrix_client_nextjs() {
    let module = component_module();
    let (out, modified) = process_module(
        &module,
        SRC,
        &config(Some("client"), Some("nextjs"), None),
    );
    assert!(modified);
    assert!(is_directive(&out.body[0]));
    let import = out
        .body
        .iter()
        .find_map(|st| match st {
            Stmt::Import { names, source } => Some((names, source)),
            _ => None,
        })
        .expect("an import must be ensured");
    assert_eq!(import.0, &vec![s("useTranslation")]);
    assert_eq!(import.1, "i18nexus");
    let decl = out
        .body
        .iter()
        .find(|st| matches!(st, Stmt::FnDecl { .. }))
        .expect("the component stays");
    let (_, is_async, body) = fn_decl(decl);
    assert!(!is_async);
    match binding_of(body) {
        Some(Stmt::VarDecl { decls }) => {
            assert!(matches!(&decls[0].0, Pat::Obj { names } if names == &vec![s("t")]));
            assert!(matches!(
                &decls[0].1,
                Expr::Call { callee, .. }
                    if matches!(&**callee, Expr::Ident { name } if name == "useTranslation")
            ));
        },
        other => panic!("expected the hook binding first, got {:?}", other),
    }
    assert!(has_wrapped_text(body));
}

#[test]
fn mode_matrix_client_react_has_no_directive() {
    let module = component_module();
    let (out, modified) = process_module(
        &module,
        SRC,
        &config(Some("client"), Some("react"), None),
    );
    assert!(modified);
    assert!(!is_directive(&out.body[0]));
    let decl = out
        .body
        .iter()
        .find(|st| matches!(st, Stmt::FnDecl { .. }))
        .expect("the component stays");
    let (_, _, body) = fn_decl(decl);
    assert!(matches!(binding_of(body), Some(Stmt::VarDecl { .. })));
    assert!(has_wrapped_text(body));
}

#[test]
fn mode_matrix_server_awaits_default_retrieval() {
    let module = component_module();
    let (out, modified) = process_module(&module, SRC, &config(Some("server"), None, None));
    assert!(modified);
    let decl = out
        .body
        .iter()
        .find(|st| matches!(st, Stmt::FnDecl { .. }))
        .expect("the component stays");
    let (_, is_async, body) = fn_decl(decl);
    assert!(is_async);
    match binding_of(body) {
        Some(Stmt::VarDecl { decls }) => {
            assert!(matches!(&decls[0].0, Pat::Obj { names } if names == &vec![s("t")]));
            match &decls[0].1 {
                Expr::Await { inner } => match &**inner {
                    Expr::Call { callee, .. } => {
                        assert!(
                            matches!(&**callee, Expr::Ident { name } if name == "getTranslations")
                        );
                    },
                    other => panic!("expected a call under await, got {:?}", other),
                },
                other => panic!("expected an awaited call, got {:?}", other),
            }
        },
        other => panic!("expected the server binding first, got {:?}", other),
    }
}

#[test]
fn mode_matrix_server_custom_retrieval_name() {
    let module = component_module();
    let (out, modified) = process_module(
        &module,
        SRC,
        &config(Some("server"), None, Some("customGetT")),
    );
    assert!(modified);
    let decl = out
        .body
        .iter()
        .find(|st| matches!(st, Stmt::FnDecl { .. }))
        .expect("the component stays");
    let (_, _, body) = fn_decl(decl);
    match binding_of(body) {
        Some(Stmt::VarDecl { decls }) => match &decls[0].1 {
            Expr::Await { inner } => match &**inner {
                Expr::Call { callee, .. } => {
                    assert!(matches!(&**callee, Expr::Ident { name } if name == "customGetT"));
                },
                other => panic!("expected a call under await, got {:?}", other),
            },
            other => panic!("expected an awaited call, got {:?}", other),
        },
        other => panic!("expected the server binding first, got {:?}", other),
    }
    let import = out
        .body
        .iter()
        .find_map(|st| match st {
            Stmt::Import { names, source } => Some((names, source)),
            _ => None,
        })
        .expect("an import must be ensured");
    assert_eq!(import.0, &vec![s("customGetT")]);
    assert_eq!(import.1, "i18nexus");
}

#[test]
fn pipeline_is_idempotent_end_to_end() {
    let module = component_module();
    let cfg = config(Some("client"), Some("nextjs"), None);
    let (once, modified) = process_module(&module, SRC, &cfg);
    assert!(modified);
    let (twice, modified_again) = process_module(&once, SRC, &cfg);
    assert!(!modified_again);
    assert_eq!(once, twice);
}

#[test]
fn existing_binding_is_not_duplicated() {
    let module = Module {
        body: vec![Stmt::FnDecl {
            name: s("Component"),
            is_async: false,
            body: vec![
                Stmt::VarDecl {
                    decls: vec![(
                        Pat::Obj { names: vec![s("t")] },
                        Expr::Call {
                            callee: Box::new(Expr::Ident { name: s("useTranslation") }),
                            args: vec![],
                        },
                    )],
                },
                Stmt::Expr { expr: Expr::StrLit { value: s("안녕"), line: 1 } },
            ],
        }],
    };
    let mut out = {
        let (m, _) = process_module(&module, SRC, &config(Some("client"), None, None));
        m
    };
    let decl = out
        .body
        .iter()
        .find(|st| matches!(st, Stmt::FnDecl { .. }))
        .expect("the component stays");
    let (_, _, body) = fn_decl(decl);
    let bindings = body
        .iter()
        .filter(|st| matches!(st, Stmt::VarDecl { .. }))
        .count();
    assert_eq!(bindings, 1);
    // A second applier run over the same registry adds nothing either.
    apply_translations_to_ast(&mut out, &vec![s("Component")], &config(Some("client"), None, None));
    let decl = out
        .body
        .iter()
        .find(|st| matches!(st, Stmt::FnDecl { .. }))
        .expect("the component stays");
    let (_, _, body) = fn_decl(decl);
    let bindings = body
        .iter()
        .filter(|st| matches!(st, Stmt::VarDecl { .. }))
        .count();
    assert_eq!(bindings, 1);
}

#[test]
fn import_merges_into_existing_declaration() {
    let mut module = Module {
        body: vec![
            Stmt::Import { names: vec![s("other")], source: s("i18nexus") },
            Stmt::FnDecl {
                name: s("Component"),
                is_async: false,
                body: vec![Stmt::Expr {
                    expr: Expr::StrLit { value: s("안녕"), line: 0 },
                }],
            },
        ],
    };
    apply_translations_to_ast(
        &mut module,
        &vec![s("Component")],
        &config(Some("client"), None, None),
    );
    let imports: Vec<&Stmt> = module
        .body
        .iter()
        .filter(|st| matches!(st, Stmt::Import { .. }))
        .collect();
    assert_eq!(imports.len(), 1);
    match imports[0] {
        Stmt::Import { names, source } => {
            assert_eq!(names, &vec![s("other"), s("useTranslation")]);
            assert_eq!(source, "i18nexus");
        },
        _ => unreachable!(),
    }
}
