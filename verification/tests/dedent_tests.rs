//! Tests for source-text dedenting.

use ferrous_owl::dedent;

#[test]
fn test_dedent_basic() {
    let code = r#"
            fn test() {
                let x = 1;
            }
        "#;
    let result = dedent(code);
    assert_eq!(result, "fn test() {\n    let x = 1;\n}");
}

#[test]
fn test_dedent_empty() {
    assert_eq!(dedent(""), "");
    assert_eq!(dedent("   \n   \n"), "");
}

#[test]
fn test_dedent_no_indent() {
    let code = "fn test() {}";
    assert_eq!(dedent(code), "fn test() {}");
}

#[test]
fn test_dedent_keeps_relative_indent() {
    let code = "  a\n    b\n  c";
    assert_eq!(dedent(code), "a\n  b\nc");
}

#[test]
fn test_dedent_short_blank_line() {
    let code = "    a\n \n    b";
    assert_eq!(dedent(code), "a\n\nb");
}
