use t_wrapper_rust::contains_korean;
use t_wrapper_rust::is_react_component;
use t_wrapper_rust::is_server_component;
use t_wrapper_rust::should_translate;

#[test]
fn test_contains_korean() {
    assert!(contains_korean("안녕하세요"));
    assert!(contains_korean("Hello 안녕"));
    assert!(!contains_korean("Hello"));
    assert!(!contains_korean("123"));
}

#[test]
fn test_is_react_component() {
    assert!(is_react_component("Button"));
    assert!(is_react_component("MyComponent"));
    assert!(is_react_component("useState"));
    assert!(is_react_component("useTranslation"));
    assert!(!is_react_component("button"));
    assert!(!is_react_component("myFunction"));
}

#[test]
fn test_is_server_component() {
    assert!(!is_server_component(""));
}

#[test]
fn test_is_server_component_integration() {
    let code = "const { t } = await getServerTranslation();";
    assert!(is_server_component(code));

    let code = "const { t } = useTranslation();";
    assert!(!is_server_component(code));
}

#[test]
fn test_contains_korean_integration() {
    assert!(contains_korean("안녕하세요"));
    assert!(contains_korean("Hello 안녕"));
    assert!(contains_korean("한글"));
    assert!(!contains_korean("Hello"));
    assert!(!contains_korean("123"));
    assert!(!contains_korean(""));
}

#[test]
fn test_is_react_component_integration() {
    assert!(is_react_component("Button"));
    assert!(is_react_component("MyComponent"));
    assert!(is_react_component("Header"));

    assert!(is_react_component("useState"));
    assert!(is_react_component("useTranslation"));
    assert!(is_react_component("useEffect"));

    assert!(!is_react_component("button"));
    assert!(!is_react_component("myFunction"));
    assert!(!is_react_component("handleClick"));
}

#[test]
fn utils_test_test_is_react_component_integration() {
    assert!(is_react_component("Button"));
    assert!(is_react_component("MyComponent"));
    assert!(is_react_component("Header"));

    assert!(is_react_component("useState"));
    assert!(is_react_component("useTranslation"));
    assert!(is_react_component("useEffect"));

    assert!(!is_react_component("button"));
    assert!(!is_react_component("myFunction"));
    assert!(!is_react_component("handleClick"));
}

#[test]
fn test_should_translate() {
    assert!(should_translate("안녕하세요"));
    assert!(should_translate("  안녕  "));
    assert!(!should_translate("Hello"));
    assert!(!should_translate(""));
    assert!(!should_translate("   "));
    assert!(!should_translate("\t\r\n"));
}
