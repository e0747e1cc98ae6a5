//! Analysis-orchestration, result-caching, and protocol-delivery pipeline
//! for an ownership/borrow visualizer.
//!
//! The crate models the concurrent core of the system as verified data
//! structures and decision functions: a fingerprint-keyed result cache, a
//! task orchestrator that deduplicates analysis work, a workspace
//! aggregator, an ordered result channel, the length-prefixed protocol
//! framing with request/response correlation, and the decoration verifier
//! used by the test harness.

pub mod cache;
pub mod channel;
pub mod deco;
pub mod framing;
pub mod harness;
pub mod kinds;
pub mod matching;
pub mod message;
pub mod numeral;
pub mod orchestrator;
pub mod persist;
pub mod session;
pub mod testcase;
pub mod text;
pub mod workspace;

pub use cache::{Fingerprint, ResultCache};
pub use channel::ResultChannel;
pub use deco::{ExpectedDeco, ReceivedDiagnostic};
pub use framing::{encode_frame, next_frame, parse_content_length, FrameStep};
pub use harness::{file_uri, manifest_text, unique_workspace_name, workspace_dir};
pub use kinds::DecoKind;
pub use matching::verify_decorations;
pub use message::{decode_message, encode_message, ProtocolMessage};
pub use orchestrator::{
    plan_compiler_run, worker_count, AnalysisError, AnalysisResult, SubmitOutcome,
    TaskOrchestrator,
};
pub use session::{collect_decorations, wait_for_response, Session, WaitOutcome};
pub use testcase::{TestCase, TestResult};
pub use text::dedent;
pub use workspace::{suppress_lifetimes, DecorationFact, Item, Workspace};
