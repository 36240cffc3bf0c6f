use t_wrapper_rust::contains_korean;
use t_wrapper_rust::is_react_component;

#[test]
fn test_utils_module() {
    assert!(contains_korean("안녕하세요"));
    assert!(is_react_component("Button"));
}

#[test]
fn test_ast_helpers_module() {
    assert!(is_react_component("Button"));
}
