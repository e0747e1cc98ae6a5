//! Tests of the caching, orchestration and aggregation pipeline.

use ferrous_owl::cache::{Fingerprint, ResultCache};
use ferrous_owl::channel::ResultChannel;
use ferrous_owl::orchestrator::{
    classify_compiler_exit, plan_compiler_run, worker_count, AnalysisError, AnalysisResult,
    SubmitOutcome, TaskOrchestrator,
};
use ferrous_owl::workspace::{suppress_lifetimes, DecorationFact, Item, Workspace};
use ferrous_owl::{DecoKind, TestCase};

fn fact(kind: DecoKind, line: u32, start: u32, end: u32) -> DecorationFact {
    DecorationFact { kind, line, start_char: start, end_char: end, detail: None }
}

fn fp(a: &str, b: &str) -> Fingerprint {
    Fingerprint::new(a.to_string(), b.to_string())
}

fn item(name: &str, facts: Vec<DecorationFact>) -> Item {
    Item { name: name.to_string(), facts }
}

#[test]
fn cache_lookup_after_insert() {
    let mut cache = ResultCache::new();
    cache.insert(fp("f1", "m1"), item("unit_a", vec![fact(DecoKind::Move, 2, 8, 9)]));
    let got = cache.lookup(&fp("f1", "m1")).expect("cached entry");
    assert_eq!(got.name, "unit_a");
    assert_eq!(got.facts.len(), 1);
    assert!(matches!(got.facts[0].kind, DecoKind::Move));
    assert!(cache.lookup(&fp("f1", "other")).is_none());
}

#[test]
fn cache_double_insert_unchanged() {
    let mut cache = ResultCache::new();
    cache.insert(fp("f1", "m1"), item("unit_a", vec![fact(DecoKind::Call, 1, 0, 3)]));
    cache.insert(fp("f1", "m1"), item("unit_a", vec![fact(DecoKind::Call, 1, 0, 3)]));
    assert_eq!(cache.len(), 1);
    let got = cache.lookup(&fp("f1", "m1")).expect("cached entry");
    assert_eq!(got.facts.len(), 1);
}

#[test]
fn orchestrator_at_most_one_computation() {
    let mut orch = TaskOrchestrator::new(ResultCache::new());
    let first = orch.submit(fp("f1", "m1"));
    assert!(matches!(first, SubmitOutcome::Scheduled));
    // a second unit with the same fingerprint never spawns a second task
    let second = orch.submit(fp("f1", "m1"));
    assert!(matches!(second, SubmitOutcome::Pending));
    orch.complete(AnalysisResult {
        crate_name: "demo".to_string(),
        file_name: "lib.rs".to_string(),
        fingerprint: fp("f1", "m1"),
        payload: item("unit_a", vec![fact(DecoKind::Move, 2, 8, 9)]),
    });
    // after completion the fingerprint is answered from the cache
    match orch.submit(fp("f1", "m1")) {
        SubmitOutcome::CacheHit(p) => assert_eq!(p.name, "unit_a"),
        _ => panic!("expected a cache hit"),
    }
    let done = orch.drain_completed();
    assert_eq!(done.len(), 1);
    assert_eq!(done[0].crate_name, "demo");
    assert_eq!(orch.pending_count(), 0);
}

#[test]
fn orchestrator_drain_is_nonblocking_and_empties() {
    let mut orch = TaskOrchestrator::new(ResultCache::new());
    assert!(matches!(orch.submit(fp("a", "1")), SubmitOutcome::Scheduled));
    assert!(matches!(orch.submit(fp("b", "2")), SubmitOutcome::Scheduled));
    assert_eq!(orch.drain_completed().len(), 0);
    orch.complete(AnalysisResult {
        crate_name: "demo".to_string(),
        file_name: "lib.rs".to_string(),
        fingerprint: fp("a", "1"),
        payload: item("unit_a", vec![]),
    });
    assert_eq!(orch.drain_completed().len(), 1);
    assert_eq!(orch.drain_completed().len(), 0);
    assert_eq!(orch.pending_count(), 1);
}

#[test]
fn aggregation_idempotent() {
    let mut ws = Workspace::new();
    let _ = ws.fold("demo", "lib.rs", item("unit_a", vec![fact(DecoKind::Move, 2, 8, 9)]));
    let _ = ws.fold("demo", "lib.rs", item("unit_a", vec![fact(DecoKind::Move, 2, 8, 9)]));
    assert_eq!(ws.crates.len(), 1);
    assert_eq!(ws.crates[0].0, "demo");
    assert_eq!(ws.crates[0].1.files.len(), 1);
    assert_eq!(ws.crates[0].1.files[0].0, "lib.rs");
    assert_eq!(ws.crates[0].1.files[0].1.items.len(), 1);
    assert_eq!(ws.crates[0].1.files[0].1.items[0].facts.len(), 1);
}

#[test]
fn aggregation_snapshot_holds_new_unit() {
    let mut ws = Workspace::new();
    let snap = ws.fold("demo", "lib.rs", item("unit_a", vec![]));
    assert_eq!(snap.crates.len(), 1);
    assert_eq!(snap.crates[0].0, "demo");
    assert_eq!(snap.crates[0].1.files[0].1.items[0].name, "unit_a");
    // a second file lands beside the first
    let _ = ws.fold("demo", "main.rs", item("unit_b", vec![]));
    assert_eq!(ws.crates.len(), 1);
    assert_eq!(ws.crates[0].1.files.len(), 2);
}

#[test]
fn channel_is_ordered_and_reports_disconnect() {
    let mut ch = ResultChannel::new();
    let mut ws1 = Workspace::new();
    let _ = ws1.fold("first", "a.rs", item("u", vec![]));
    let mut ws2 = Workspace::new();
    let _ = ws2.fold("second", "b.rs", item("v", vec![]));
    assert!(ch.send(ws1).is_ok());
    assert!(ch.send(ws2).is_ok());
    assert_eq!(ch.pending(), 2);
    let got1 = ch.receive().expect("first snapshot");
    assert_eq!(got1.crates[0].0, "first");
    let got2 = ch.receive().expect("second snapshot");
    assert_eq!(got2.crates[0].0, "second");
    assert!(ch.receive().is_none());
    ch.disconnect();
    let mut ws3 = Workspace::new();
    let _ = ws3.fold("third", "c.rs", item("w", vec![]));
    assert!(ch.send(ws3).is_err());
}

#[test]
fn lifetime_facts_suppressed_before_delivery() {
    let facts = vec![
        fact(DecoKind::Lifetime, 1, 0, 4),
        fact(DecoKind::Move, 2, 8, 9),
        fact(DecoKind::Lifetime, 2, 0, 4),
    ];
    let kept = suppress_lifetimes(facts);
    assert_eq!(kept.len(), 1);
    assert!(matches!(kept[0].kind, DecoKind::Move));
}

#[test]
fn end_to_end_move_scenario() {
    // source defining a function that creates a string then drops it; the
    // pipeline delivers exactly one Move fact and zero Lifetime facts
    let mut orch = TaskOrchestrator::new(ResultCache::new());
    let f = fp("hash_src", "hash_mir");
    assert!(matches!(orch.submit(f), SubmitOutcome::Scheduled));
    orch.complete(AnalysisResult {
        crate_name: "scratch".to_string(),
        file_name: "test_source.rs".to_string(),
        fingerprint: fp("hash_src", "hash_mir"),
        payload: item(
            "test",
            vec![fact(DecoKind::Move, 2, 8, 9), fact(DecoKind::Lifetime, 1, 4, 5)],
        ),
    });
    let done = orch.drain_completed();
    assert_eq!(done.len(), 1);
    let mut ws = Workspace::new();
    let mut results = done;
    let unit = results.remove(0);
    let snap = ws.fold(&unit.crate_name, &unit.file_name, unit.payload);
    let mut snap_crates = snap.crates;
    let (_, krate) = snap_crates.remove(0);
    let mut files = krate.files;
    let (_, file) = files.remove(0);
    let mut items = file.items;
    let it = items.remove(0);
    let delivered = suppress_lifetimes(it.facts);
    assert_eq!(delivered.len(), 1);
    assert!(!delivered.iter().any(|d| matches!(d.kind, DecoKind::Lifetime)));
    let received: Vec<_> = delivered.iter().map(|d| d.to_diagnostic("s")).collect();
    let case = TestCase::new(
        "move_scenario",
        r#"
        fn test() {
            let s = String::new();
            drop(s);
        }
    "#,
    )
    .cursor_on("s = String")
    .expect_move();
    let result = case.run(&received);
    assert!(result.passed, "{}", result.error.unwrap_or_default());
}

#[test]
fn end_to_end_mut_borrow_scenario() {
    // source taking a mutable reference: a MutableBorrow fact at the
    // reference-creation site and no Move fact for the variable there
    let delivered = suppress_lifetimes(vec![fact(DecoKind::MutBorrow, 2, 8, 14)]);
    let received: Vec<_> = delivered.iter().map(|d| d.to_diagnostic("r = &mut x")).collect();
    let case = TestCase::new(
        "mut_borrow_scenario",
        r#"
        fn test() {
            let mut x = 1;
            let r = &mut x;
            *r = 2;
        }
    "#,
    )
    .cursor_on("r = &mut")
    .expect_mut_borrow()
    .forbid_move();
    let result = case.run(&received);
    assert!(result.passed, "{}", result.error.unwrap_or_default());
    // a Move fact at that site would fail the case
    let mut with_move = received;
    with_move.push(
        ferrous_owl::ReceivedDiagnostic::new(DecoKind::Move, 2, 12, 13).with_text("x"),
    );
    let case2 = TestCase::new("mut_borrow_neg", "fn test() {}")
        .expect_mut_borrow()
        .forbid_move();
    let result2 = case2.run(&with_move);
    assert!(!result2.passed);
}

#[test]
fn worker_pool_sizing() {
    assert_eq!(worker_count(None), 4);
    assert_eq!(worker_count(Some(1)), 2);
    assert_eq!(worker_count(Some(4)), 2);
    assert_eq!(worker_count(Some(10)), 5);
    assert_eq!(worker_count(Some(64)), 8);
}

#[test]
fn compiler_exit_classification() {
    assert!(matches!(classify_compiler_exit(true, 0), Err(AnalysisError::RustcPanic)));
    assert!(matches!(classify_compiler_exit(false, 0), Ok(0)));
    match classify_compiler_exit(false, 3) {
        Err(AnalysisError::CompilationFailed(code)) => assert_eq!(code, 3),
        _ => panic!("expected a compilation failure"),
    }
    let msg = AnalysisError::CompilationFailed(3).message();
    assert_eq!(msg, "Compilation failed with exit code 3");
    assert_eq!(AnalysisError::ThreadPanic.message(), "Analysis thread panicked");
}

#[test]
fn compiler_run_planning() {
    let wrapped = vec!["rustc_shim".to_string(), "rustc_shim".to_string(), "lib.rs".to_string()];
    let plan = plan_compiler_run(&wrapped);
    assert!(plan.analyze);
    assert_eq!(plan.args, vec!["rustc_shim".to_string(), "lib.rs".to_string()]);

    let version = vec!["rustc_shim".to_string(), "rustc_shim".to_string(), "-vV".to_string()];
    let plan2 = plan_compiler_run(&version);
    assert!(!plan2.analyze);

    let print_q = vec![
        "rustc_shim".to_string(),
        "rustc_shim".to_string(),
        "--print=sysroot".to_string(),
    ];
    assert!(!plan_compiler_run(&print_q).analyze);

    let dependency = vec!["rustc_shim".to_string(), "lib.rs".to_string()];
    let plan3 = plan_compiler_run(&dependency);
    assert!(!plan3.analyze);
    assert_eq!(plan3.args, dependency);
}

#[test]
fn cache_persist_round_trip() {
    // the durable form reproduces an equivalent mapping
    let mut cache = ferrous_owl::cache::ResultCache::new();
    cache.insert(
        fp("hash_a", "mir_a"),
        item(
            "unit_a",
            vec![DecorationFact {
                kind: DecoKind::Move,
                line: 2,
                start_char: 8,
                end_char: 9,
                detail: Some("s moved into drop".to_string()),
            }],
        ),
    );
    cache.insert(fp("hash_b", "mir_b"), item("unit_b", vec![]));
    let text = ferrous_owl::persist::encode_cache(&cache);
    let loaded = ferrous_owl::persist::decode_cache(&text).expect("the encoding decodes");
    assert_eq!(loaded.len(), 2);
    let got = loaded.lookup(&fp("hash_a", "mir_a")).expect("entry rehydrated");
    assert_eq!(got.name, "unit_a");
    assert_eq!(got.facts.len(), 1);
    assert_eq!(got.facts[0].detail.as_deref(), Some("s moved into drop"));
    assert!(loaded.lookup(&fp("hash_b", "mir_b")).is_some());
    assert!(loaded.lookup(&fp("hash_a", "mir_b")).is_none());
}

#[test]
fn cache_decode_rejects_garbage() {
    assert!(ferrous_owl::persist::decode_cache("").is_none());
    assert!(ferrous_owl::persist::decode_cache("2;").is_none());
    assert!(ferrous_owl::persist::decode_cache("not a cache").is_none());
    // an empty cache round-trips too
    let empty = ferrous_owl::cache::ResultCache::new();
    let text = ferrous_owl::persist::encode_cache(&empty);
    assert_eq!(text, "0;");
    let loaded = ferrous_owl::persist::decode_cache(&text).expect("empty decodes");
    assert_eq!(loaded.len(), 0);
}
