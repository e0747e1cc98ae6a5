//! Tests of workspace naming, scaffolding and the builder surface.

use ferrous_owl::harness::{prepend_path, summarize};
use ferrous_owl::matching::TestResult;
use ferrous_owl::{
    file_uri, manifest_text, unique_workspace_name, workspace_dir, DecoKind, ExpectedDeco,
    ReceivedDiagnostic, TestCase,
};

#[test]
fn file_uri_prefixes_path() {
    assert_eq!(file_uri("/tmp/ws/test_source.rs"), "file:///tmp/ws/test_source.rs");
}

#[test]
fn unique_workspace_names_differ_per_run() {
    let a = unique_workspace_name("move_to_drop", 4242, 0);
    let b = unique_workspace_name("move_to_drop", 4242, 1);
    let c = unique_workspace_name("move_to_drop", 4243, 0);
    assert_eq!(a, "move_to_drop_4242_0");
    assert_ne!(a, b);
    assert_ne!(a, c);
    assert_eq!(workspace_dir("/tmp/owl-tests", &a), "/tmp/owl-tests/move_to_drop_4242_0");
}

#[test]
fn manifest_scaffold_names_package() {
    let text = manifest_text("test_workspace");
    assert_eq!(
        text,
        "[package]\nname = \"test_workspace\"\nversion = \"0.1.0\"\nedition = \"2021\"\n",
    );
}

#[test]
fn prepend_keeps_order() {
    let paths = vec!["/usr/lib".to_string(), "/lib".to_string()];
    let out = prepend_path(paths, "/opt/sysroot/lib".to_string());
    assert_eq!(
        out,
        vec!["/opt/sysroot/lib".to_string(), "/usr/lib".to_string(), "/lib".to_string()],
    );
}

#[test]
fn summary_counts_passed_and_failed() {
    let results = vec![
        TestResult { name: "a".to_string(), passed: true, message: String::new() },
        TestResult { name: "b".to_string(), passed: false, message: "diff".to_string() },
        TestResult { name: "c".to_string(), passed: true, message: String::new() },
    ];
    assert_eq!(summarize(&results), (2, 1));
}

#[test]
fn builder_records_cursor_and_expectations() {
    let case = TestCase::new("sample", "fn test() {}")
        .cursor_at(1, 4)
        .expect(ExpectedDeco::new(DecoKind::SharedMut))
        .expect_shared_mut()
        .expect_outlive()
        .forbid_outlive()
        .forbid_imm_borrow()
        .forbid_mut_borrow();
    assert_eq!(case.cursor_line, Some(1));
    assert_eq!(case.cursor_char, Some(4));
    assert_eq!(case.expected_decos.len(), 3);
    assert_eq!(case.forbidden_decos.len(), 3);
}

#[test]
fn expectation_constraints_compose() {
    let e = ExpectedDeco::lifetime().at_text("r = &s").on_line(3).with_message("borrow");
    assert!(matches!(e.kind, DecoKind::Lifetime));
    assert_eq!(e.text_match.as_deref(), Some("r = &s"));
    assert_eq!(e.line, Some(3));
    assert_eq!(e.message_contains.as_deref(), Some("borrow"));
}

#[test]
fn forbidden_kind_fails_case() {
    let case = TestCase::new("forbid", "fn test() {}").forbid_move();
    let received = vec![ReceivedDiagnostic::new(DecoKind::Move, 1, 0, 1)];
    let result = case.run(&received);
    assert!(!result.passed);
    // the report names the surplus fact; a clean delivery passes
    let case2 = TestCase::new("forbid", "fn test() {}").forbid_move();
    let result2 = case2.run(&Vec::new());
    assert!(result2.passed);
    assert!(result2.error.is_none());
}

#[test]
fn kind_labels_are_kebab_case() {
    assert_eq!(DecoKind::Lifetime.label(), "lifetime");
    assert_eq!(DecoKind::ImmBorrow.label(), "imm-borrow");
    assert_eq!(DecoKind::MutBorrow.label(), "mut-borrow");
    assert_eq!(DecoKind::Move.label(), "move");
    assert_eq!(DecoKind::Call.label(), "call");
    assert_eq!(DecoKind::SharedMut.label(), "shared-mut");
    assert_eq!(DecoKind::Outlive.label(), "outlive");
}
