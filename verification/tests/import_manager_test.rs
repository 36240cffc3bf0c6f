use t_wrapper_rust::add_import_if_needed;
use t_wrapper_rust::ast::{Module, Stmt};
use t_wrapper_rust::create_use_translation_hook;

fn s(text: &str) -> String {
    String::from(text)
}

#[test]
fn test_create_use_translation_hook() {
    let hook = create_use_translation_hook();
    assert!(hook.contains("const"));
    assert!(hook.contains("t"));
    assert!(hook.contains("useTranslation"));
}

#[test]
fn test_add_import_if_needed() {
    let mut ast = Module { body: vec![] };
    let result = add_import_if_needed(&mut ast, "i18nexus");
    assert!(result);
    assert_eq!(
        ast.body,
        vec![Stmt::Import { names: vec![s("useTranslation")], source: s("i18nexus") }]
    );
}

#[test]
fn add_import_if_needed_adds_nothing_when_import_exists() {
    let mut ast = Module {
        body: vec![Stmt::Import {
            names: vec![s("useTranslation")],
            source: s("next-i18next"),
        }],
    };
    let result = add_import_if_needed(&mut ast, "next-i18next");
    assert!(!result);
    assert_eq!(
        ast.body,
        vec![Stmt::Import {
            names: vec![s("useTranslation")],
            source: s("next-i18next"),
        }]
    );
    // A repeated call is idempotent too.
    let again = add_import_if_needed(&mut ast, "next-i18next");
    assert!(!again);
    assert_eq!(ast.body.len(), 1);
}

#[test]
fn add_import_if_needed_merges_into_existing_source() {
    let mut ast = Module {
        body: vec![Stmt::Import { names: vec![s("other")], source: s("i18nexus") }],
    };
    let result = add_import_if_needed(&mut ast, "i18nexus");
    assert!(!result);
    assert_eq!(
        ast.body,
        vec![Stmt::Import {
            names: vec![s("other"), s("useTranslation")],
            source: s("i18nexus"),
        }]
    );
}

#[test]
fn test_create_use_translation_hook_exact() {
    assert_eq!(create_use_translation_hook(), "const { t } = useTranslation();");
}
