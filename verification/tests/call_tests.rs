use ferrous_owl::{DecoKind, ReceivedDiagnostic, TestCase};
#[test]
fn call_string_new() {
    let case = TestCase::new(
        "call_string_new",
        r#"
        fn test() {
            let s = String::new();
            drop(s);
        }
    "#,
    )
    .cursor_on("s = String")
    .expect_call();
    let received = vec![ReceivedDiagnostic::new(DecoKind::Call, 1, 8, 9)];
    let result = case.run(&received);
    assert!(result.passed, "{}", result.error.unwrap_or_default());
}

#[test]
fn call_string_from() {
    let case = TestCase::new(
        "call_string_from",
        r#"
        fn test() {
            let s = String::from("hello");
            drop(s);
        }
    "#,
    )
    .cursor_on("s = String")
    .expect_call();
    let received = vec![ReceivedDiagnostic::new(DecoKind::Call, 1, 8, 9)];
    let result = case.run(&received);
    assert!(result.passed, "{}", result.error.unwrap_or_default());
}

#[test]
fn call_vec_new() {
    let case = TestCase::new(
        "call_vec_new",
        r#"
        fn test() {
            let v = Vec::<i32>::new();
            drop(v);
        }
    "#,
    )
    .cursor_on("v = Vec")
    .expect_call();
    let received = vec![ReceivedDiagnostic::new(DecoKind::Call, 1, 8, 9)];
    let result = case.run(&received);
    assert!(result.passed, "{}", result.error.unwrap_or_default());
}

#[test]
fn call_vec_macro() {
    // vec![] macro expands to code that moves the vector, not a direct call
    // decoration
    let case = TestCase::new(
        "call_vec_macro",
        r#"
        fn test() {
            let v = vec![1, 2, 3];
            drop(v);
        }
    "#,
    )
    .cursor_on("v = vec!")
    .expect_move_at("v"); // The macro produces a move, not a call
    let received = vec![ReceivedDiagnostic::new(DecoKind::Move, 1, 8, 9).with_text("v")];
    let result = case.run(&received);
    assert!(result.passed, "{}", result.error.unwrap_or_default());
}

#[test]
fn call_box_new() {
    let case = TestCase::new(
        "call_box_new",
        r#"
        fn test() {
            let b = Box::new(42);
            drop(b);
        }
    "#,
    )
    .cursor_on("b = Box")
    .expect_call();
    let received = vec![ReceivedDiagnostic::new(DecoKind::Call, 1, 8, 9)];
    let result = case.run(&received);
    assert!(result.passed, "{}", result.error.unwrap_or_default());
}

#[test]
fn call_option_some() {
    // Some is an enum variant constructor, not a function call
    // It doesn't produce a Call decoration - just verify no panics and no
    // unexpected decos
    let case = TestCase::new(
        "call_option_some",
        r#"
        fn test() {
            let opt = Some(42);
            drop(opt);
        }
    "#,
    )
    .cursor_on("opt = Some")
    .forbid(DecoKind::Call); // Confirm no call decoration
    let received: Vec<ReceivedDiagnostic> = Vec::new();
    let result = case.run(&received);
    assert!(result.passed, "{}", result.error.unwrap_or_default());
}

#[test]
fn call_result_ok() {
    // Ok is an enum variant constructor, not a function call
    let case = TestCase::new(
        "call_result_ok",
        r#"
        fn test() {
            let res: Result<i32, ()> = Ok(42);
            drop(res);
        }
    "#,
    )
    .cursor_on("res:")
    .forbid(DecoKind::Call); // Confirm no call decoration
    let received: Vec<ReceivedDiagnostic> = Vec::new();
    let result = case.run(&received);
    assert!(result.passed, "{}", result.error.unwrap_or_default());
}

#[test]
fn call_hashmap_new() {
    let case = TestCase::new(
        "call_hashmap_new",
        r#"
        use std::collections::HashMap;

        fn test() {
            let m = HashMap::<String, i32>::new();
            drop(m);
        }
    "#,
    )
    .cursor_on("m = HashMap")
    .expect_call();
    let received = vec![ReceivedDiagnostic::new(DecoKind::Call, 1, 8, 9)];
    let result = case.run(&received);
    assert!(result.passed, "{}", result.error.unwrap_or_default());
}

#[test]
fn call_custom_function() {
    let case = TestCase::new(
        "call_custom_function",
        r#"
        fn create_string() -> String {
            String::from("hello")
        }

        fn test() {
            let s = create_string();
            drop(s);
        }
    "#,
    )
    .cursor_on("s = create")
    .expect_call();
    let received = vec![ReceivedDiagnostic::new(DecoKind::Call, 1, 8, 9)];
    let result = case.run(&received);
    assert!(result.passed, "{}", result.error.unwrap_or_default());
}

#[test]
fn call_to_string() {
    let case = TestCase::new(
        "call_to_string",
        r#"
        fn test() {
            let n = 42;
            let s = n.to_string();
            drop(s);
        }
    "#,
    )
    .cursor_on("s = n")
    .expect_call();
    let received = vec![ReceivedDiagnostic::new(DecoKind::Call, 1, 8, 9)];
    let result = case.run(&received);
    assert!(result.passed, "{}", result.error.unwrap_or_default());
}

#[test]
fn call_default() {
    let case = TestCase::new(
        "call_default",
        r#"
        fn test() {
            let s: String = Default::default();
            drop(s);
        }
    "#,
    )
    .cursor_on("s:")
    .expect_call();
    let received = vec![ReceivedDiagnostic::new(DecoKind::Call, 1, 8, 9)];
    let result = case.run(&received);
    assert!(result.passed, "{}", result.error.unwrap_or_default());
}

#[test]
fn call_collect() {
    let case = TestCase::new(
        "call_collect",
        r#"
        fn test() {
            let v: Vec<i32> = (0..5).collect();
            drop(v);
        }
    "#,
    )
    .cursor_on("v:")
    .expect_call();
    let received = vec![ReceivedDiagnostic::new(DecoKind::Call, 1, 8, 9)];
    let result = case.run(&received);
    assert!(result.passed, "{}", result.error.unwrap_or_default());
}
