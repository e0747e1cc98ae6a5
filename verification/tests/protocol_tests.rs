//! Tests of the wire framing, the message codec, request correlation and
//! the decoration verifier.

use ferrous_owl::framing::{encode_frame, next_frame, parse_content_length, FrameStep};
use ferrous_owl::message::{decode_message, encode_message, ProtocolMessage};
use ferrous_owl::session::{
    collect_decorations, wait_for_response, Session, WaitOutcome, POLL_TICK_MS,
};
use ferrous_owl::{verify_decorations, DecoKind, ExpectedDeco, ReceivedDiagnostic};

#[test]
fn frame_round_trip() {
    let payload: Vec<u8> = b"{\"jsonrpc\":\"2.0\"}".to_vec();
    let wire = encode_frame(&payload);
    assert!(wire.starts_with(b"Content-Length: 17\r\n\r\n"));
    match next_frame(&wire, 0) {
        FrameStep::Frame(got, next) => {
            assert_eq!(got, payload);
            assert_eq!(next, wire.len());
        },
        _ => panic!("expected one whole frame"),
    }
}

#[test]
fn malformed_header_skipped_not_fatal() {
    // a non-numeric length costs the line, not the stream
    let mut wire: Vec<u8> = b"Content-Length: abc\r\n".to_vec();
    let payload: Vec<u8> = b"ok".to_vec();
    wire.extend_from_slice(&encode_frame(&payload));
    let pos = match next_frame(&wire, 0) {
        FrameStep::SkipLine(next) => next,
        _ => panic!("expected the malformed header to be skipped"),
    };
    match next_frame(&wire, pos) {
        FrameStep::Frame(got, _) => assert_eq!(got, payload),
        _ => panic!("expected the following frame to decode"),
    }
}

#[test]
fn incomplete_frame_waits_for_more() {
    let wire: Vec<u8> = b"Content-Length: 10\r\n\r\nabc".to_vec();
    assert!(matches!(next_frame(&wire, 0), FrameStep::Incomplete));
}

#[test]
fn content_length_parsing() {
    assert_eq!(parse_content_length("Content-Length: 42\r\n"), 42);
    assert_eq!(parse_content_length("  Content-Length: 7  "), 7);
    assert_eq!(parse_content_length("Content-Length: abc\r\n"), 0);
    assert_eq!(parse_content_length("Content-Type: text\r\n"), 0);
    assert_eq!(parse_content_length(""), 0);
    assert_eq!(parse_content_length("Content-Length: 99999999999999999999"), 0);
}

#[test]
fn message_round_trip_request() {
    let m = ProtocolMessage::Request {
        id: 7,
        method: "initialize".to_string(),
        params: "{\"rootUri\":\"file:///tmp/ws\"}".to_string(),
    };
    let body = encode_message(&m);
    assert_eq!(
        body,
        "{\"jsonrpc\":\"2.0\",\"id\":7,\"method\":\"initialize\",\"params\":{\"rootUri\":\"file:///tmp/ws\"}}",
    );
    match decode_message(&body) {
        Some(ProtocolMessage::Request { id, method, params }) => {
            assert_eq!(id, 7);
            assert_eq!(method, "initialize");
            assert_eq!(params, "{\"rootUri\":\"file:///tmp/ws\"}");
        },
        _ => panic!("expected the request back"),
    }
}

#[test]
fn message_round_trip_response() {
    let m = ProtocolMessage::Response { id: 3, result: "null".to_string() };
    let body = encode_message(&m);
    assert_eq!(body, "{\"jsonrpc\":\"2.0\",\"id\":3,\"result\":null}");
    match decode_message(&body) {
        Some(ProtocolMessage::Response { id, result }) => {
            assert_eq!(id, 3);
            assert_eq!(result, "null");
        },
        _ => panic!("expected the response back"),
    }
}

#[test]
fn message_round_trip_notification() {
    let m = ProtocolMessage::Notification {
        method: "textDocument/publishDiagnostics".to_string(),
        params: "{\"diagnostics\":[]}".to_string(),
    };
    let body = encode_message(&m);
    match decode_message(&body) {
        Some(ProtocolMessage::Notification { method, params }) => {
            assert_eq!(method, "textDocument/publishDiagnostics");
            assert_eq!(params, "{\"diagnostics\":[]}");
        },
        _ => panic!("expected the notification back"),
    }
}

#[test]
fn malformed_body_rejected() {
    assert!(decode_message("").is_none());
    assert!(decode_message("{\"jsonrpc\":\"2.0\",\"id\":}").is_none());
    assert!(decode_message("not a message}").is_none());
    assert!(decode_message("{\"jsonrpc\":\"2.0\",\"id\":12").is_none());
}

#[test]
fn request_ids_increase_monotonically() {
    let mut session = Session::new();
    let (id1, body1) = session.make_request("initialize".to_string(), "{}".to_string());
    let (id2, _body2) = session.make_request("shutdown".to_string(), "null".to_string());
    assert_eq!(id1, 1);
    assert_eq!(id2, 2);
    assert!(body1.contains("\"id\":1"));
}

#[test]
fn timeout_monotonicity() {
    // a wait that never matches returns TimedOut no earlier than the
    // timeout and no more than one tick past it
    let polls: Vec<Option<ProtocolMessage>> = vec![
        None,
        Some(ProtocolMessage::Notification {
            method: "noise".to_string(),
            params: "{}".to_string(),
        }),
        Some(ProtocolMessage::Response { id: 99, result: "null".to_string() }),
    ];
    match wait_for_response(&polls, 5, 250) {
        WaitOutcome::TimedOut(e) => {
            assert!(e >= 250);
            assert!(e < 250 + POLL_TICK_MS);
            assert_eq!(e, 300);
        },
        WaitOutcome::Matched(..) => panic!("nothing matches id 5"),
    }
}

#[test]
fn response_correlation_matches_id() {
    let polls: Vec<Option<ProtocolMessage>> = vec![
        Some(ProtocolMessage::Response { id: 1, result: "null".to_string() }),
        None,
        Some(ProtocolMessage::Response { id: 2, result: "{\"ok\":true}".to_string() }),
    ];
    match wait_for_response(&polls, 2, 1000) {
        WaitOutcome::Matched(ProtocolMessage::Response { id, result }, e) => {
            assert_eq!(id, 2);
            assert_eq!(result, "{\"ok\":true}");
            assert_eq!(e, 300);
        },
        _ => panic!("expected the response to id 2"),
    }
}

#[test]
fn decorations_accumulate_across_notifications() {
    let polls: Vec<Option<Vec<ReceivedDiagnostic>>> = vec![
        Some(vec![ReceivedDiagnostic::new(DecoKind::Move, 2, 8, 9)]),
        None,
        Some(vec![
            ReceivedDiagnostic::new(DecoKind::Call, 1, 4, 7),
            ReceivedDiagnostic::new(DecoKind::ImmBorrow, 3, 1, 2),
        ]),
    ];
    let (facts, _ticks) = collect_decorations(polls, 3, 10_000);
    assert_eq!(facts.len(), 3);
    assert!(matches!(facts[0].kind, DecoKind::Move));
    assert!(matches!(facts[1].kind, DecoKind::Call));
    assert!(matches!(facts[2].kind, DecoKind::ImmBorrow));
}

#[test]
fn collection_stops_at_deadline() {
    let polls: Vec<Option<Vec<ReceivedDiagnostic>>> = vec![None, None, None];
    let (facts, ticks) = collect_decorations(polls, 1, 250);
    assert_eq!(facts.len(), 0);
    assert_eq!(ticks, 3);
}

#[test]
fn verification_extra_fact_reported_unexpected() {
    // expected [Move], received [Move, Move]: one matches, one is surplus
    let expected = vec![ExpectedDeco::move_deco()];
    let received = vec![
        ReceivedDiagnostic::new(DecoKind::Move, 2, 8, 9),
        ReceivedDiagnostic::new(DecoKind::Move, 3, 8, 9),
    ];
    let (passed, report) = verify_decorations(&expected, &received);
    assert!(!passed);
    assert!(report.contains("Unexpected:"));
    assert!(!report.contains("Missing:"));
    assert!(report.contains("move at line 3"));
}

#[test]
fn verification_missing_fact_reported() {
    // expected [Move, Call], received [Move]: Call is missing, nothing
    // unexpected
    let expected = vec![ExpectedDeco::move_deco(), ExpectedDeco::call()];
    let received = vec![ReceivedDiagnostic::new(DecoKind::Move, 2, 8, 9)];
    let (passed, report) = verify_decorations(&expected, &received);
    assert!(!passed);
    assert!(report.contains("Missing:"));
    assert!(report.contains("call"));
    assert!(!report.contains("Unexpected:"));
}

#[test]
fn verification_passes_on_exact_match() {
    let expected = vec![
        ExpectedDeco::mut_borrow().at_text("r = &mut").on_line(2),
        ExpectedDeco::call(),
    ];
    let received = vec![
        ReceivedDiagnostic::new(DecoKind::Call, 3, 0, 4),
        ReceivedDiagnostic::new(DecoKind::MutBorrow, 2, 8, 14).with_text("let r = &mut x;"),
    ];
    let (passed, report) = verify_decorations(&expected, &received);
    assert!(passed, "{}", report);
    assert_eq!(report, "All decorations match");
}

#[test]
fn verification_greedy_consumes_left_to_right() {
    // both expectations match the first received fact; greedy matching
    // consumes it for the first expectation and leaves the second to the
    // later received fact
    let expected = vec![ExpectedDeco::move_deco(), ExpectedDeco::move_deco().on_line(5)];
    let received = vec![
        ReceivedDiagnostic::new(DecoKind::Move, 5, 0, 1),
        ReceivedDiagnostic::new(DecoKind::Move, 9, 0, 1),
    ];
    let (passed, report) = verify_decorations(&expected, &received);
    // the first (unconstrained) expectation consumed line 5, so the
    // line-constrained one is missing and line 9 is unexpected
    assert!(!passed);
    assert!(report.contains("Missing:"));
    assert!(report.contains("move at line 5"));
    assert!(report.contains("Unexpected:"));
    assert!(report.contains("move at line 9"));
}

#[test]
fn message_substring_constraint() {
    let expected = vec![ExpectedDeco::new(DecoKind::Outlive).with_message("outlives")];
    let received = vec![ReceivedDiagnostic::new(DecoKind::Outlive, 4, 0, 1)
        .with_message("borrowed value outlives its owner")];
    let (passed, _) = verify_decorations(&expected, &received);
    assert!(passed);
    let wrong = vec![ReceivedDiagnostic::new(DecoKind::Outlive, 4, 0, 1)
        .with_message("unrelated text")];
    let (passed2, _) = verify_decorations(&expected, &wrong);
    assert!(!passed2);
}
