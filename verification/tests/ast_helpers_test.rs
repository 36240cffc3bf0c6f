use t_wrapper_rust::has_ignore_comment;
use t_wrapper_rust::is_react_component;
use t_wrapper_rust::should_skip_path;

#[test]
fn has_ignore_comment_finds_marker_in_leading_lines() {
    let code = "// i18n-ignore\nconst text = \"hello\";";

    assert!(has_ignore_comment((), Some(code)));
}

#[test]
fn should_skip_path_honors_ignore_comment() {
    let code = "// i18n-ignore\nconst text = \"hello\";";

    let should_skip = should_skip_path((), has_ignore_comment, Some(code));
    assert!(should_skip);
}

#[test]
fn is_react_component_accepts_capitalized_names() {
    assert!(is_react_component("Button"));
    assert!(is_react_component("MyComponent"));
}

#[test]
fn is_react_component_accepts_hook_names() {
    assert!(is_react_component("useState"));
    assert!(is_react_component("useTranslation"));
}

#[test]
fn has_ignore_comment_marker_spellings() {
    assert!(has_ignore_comment((), Some("/* i18n-ignore */\nx")));
    assert!(has_ignore_comment((), Some("{/* i18n-ignore */}\nx")));
    assert!(has_ignore_comment((), Some("i18n-ignore")));
}

#[test]
fn has_ignore_comment_scans_only_first_three_lines() {
    assert!(has_ignore_comment((), Some("a\nb\n// i18n-ignore\nc")));
    assert!(!has_ignore_comment((), Some("a\nb\nc\n// i18n-ignore")));
    assert!(!has_ignore_comment((), Some("no marker here")));
    assert!(!has_ignore_comment((), None));
}
