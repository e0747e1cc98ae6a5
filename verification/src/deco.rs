//! Expected and received decoration facts, and the rule that decides when
//! a received fact satisfies an expectation.

use vstd::prelude::*;

use crate::kinds::DecoKind;
use crate::text::{contains_sub, spec_contains};

verus! {

/// One expectation a test case places on the delivered decorations: a
/// kind, plus optional constraints on the span text, the line and the
/// message.
pub struct ExpectedDeco {
    pub kind: DecoKind,
    pub text_match: Option<String>,
    pub line: Option<u32>,
    pub message_contains: Option<String>,
}

/// One decoration fact as delivered to a client: a kind, the span it
/// covers, the text under that span and the attached message.
pub struct ReceivedDiagnostic {
    pub kind: DecoKind,
    pub line: u32,
    pub start_char: u32,
    pub end_char: u32,
    pub text: String,
    pub message: String,
}

/// A received fact satisfies an expectation when the kinds agree and every
/// populated optional constraint holds: the expected text occurs in the
/// span's text, the line is equal, and the expected message fragment
/// occurs in the message.
pub open spec fn spec_matches(e: ExpectedDeco, r: ReceivedDiagnostic) -> bool {
    &&& e.kind == r.kind
    &&& match e.text_match {
        Some(t) => spec_contains(r.text@, t@),
        None => true,
    }
    &&& match e.line {
        Some(n) => n == r.line,
        None => true,
    }
    &&& match e.message_contains {
        Some(m) => spec_contains(r.message@, m@),
        None => true,
    }
}

impl ExpectedDeco {
    /// The expectation that constrains the kind alone.
    pub open spec fn spec_bare(kind: DecoKind) -> ExpectedDeco {
        ExpectedDeco { kind, text_match: None, line: None, message_contains: None }
    }

    /// An expectation on the kind alone.
    pub fn new(kind: DecoKind) -> (r: Self)
        ensures
            r.kind == kind,
            r.text_match is None,
            r.line is None,
            r.message_contains is None,
    {
        Self { kind, text_match: None, line: None, message_contains: None }
    }

    /// Constrains the expectation to spans whose text contains `text`.
    pub fn at_text(self, text: &str) -> (r: Self)
        ensures
            r.text_match matches Some(t) && t@ == text@,
            r.kind == self.kind && r.line == self.line && r.message_contains
                == self.message_contains,
    {
        Self { text_match: Some(text.to_owned()), ..self }
    }

    /// Constrains the expectation to a line.
    pub fn on_line(self, line: u32) -> (r: Self)
        ensures
            r.line matches Some(n) && n == line,
            r.kind == self.kind && r.text_match == self.text_match && r.message_contains
                == self.message_contains,
    {
        Self { line: Some(line), ..self }
    }

    /// Constrains the expectation to messages containing `text`.
    pub fn with_message(self, text: &str) -> (r: Self)
        ensures
            r.message_contains matches Some(m) && m@ == text@,
            r.kind == self.kind && r.text_match == self.text_match && r.line == self.line,
    {
        Self { message_contains: Some(text.to_owned()), ..self }
    }

    /// A bare `Move` expectation.
    pub fn move_deco() -> (r: Self)
        ensures
            r.kind == DecoKind::Move,
            r.text_match is None && r.line is None && r.message_contains is None,
    {
        Self::new(DecoKind::Move)
    }

    /// A bare `ImmBorrow` expectation.
    pub fn imm_borrow() -> (r: Self)
        ensures
            r.kind == DecoKind::ImmBorrow,
            r.text_match is None && r.line is None && r.message_contains is None,
    {
        Self::new(DecoKind::ImmBorrow)
    }

    /// A bare `MutBorrow` expectation.
    pub fn mut_borrow() -> (r: Self)
        ensures
            r.kind == DecoKind::MutBorrow,
            r.text_match is None && r.line is None && r.message_contains is None,
    {
        Self::new(DecoKind::MutBorrow)
    }

    /// A bare `Call` expectation.
    pub fn call() -> (r: Self)
        ensures
            r.kind == DecoKind::Call,
            r.text_match is None && r.line is None && r.message_contains is None,
    {
        Self::new(DecoKind::Call)
    }

    /// A bare `Lifetime` expectation.
    pub fn lifetime() -> (r: Self)
        ensures
            r.kind == DecoKind::Lifetime,
            r.text_match is None && r.line is None && r.message_contains is None,
    {
        Self::new(DecoKind::Lifetime)
    }

    /// A bare `SharedMut` expectation.
    pub fn shared_mut() -> (r: Self)
        ensures
            r.kind == DecoKind::SharedMut,
            r.text_match is None && r.line is None && r.message_contains is None,
    {
        Self::new(DecoKind::SharedMut)
    }

    /// A bare `Outlive` expectation.
    pub fn outlive() -> (r: Self)
        ensures
            r.kind == DecoKind::Outlive,
            r.text_match is None && r.line is None && r.message_contains is None,
    {
        Self::new(DecoKind::Outlive)
    }

    /// Decides `spec_matches` for this expectation and a received fact.
    pub fn matches(&self, r: &ReceivedDiagnostic) -> (b: bool)
        ensures
            b == spec_matches(*self, *r),
    {
        if self.kind != r.kind {
            return false;
        }
        match &self.text_match {
            Some(t) => {
                if !contains_sub(r.text.as_str(), t.as_str()) {
                    return false;
                }
            },
            None => {},
        }
        match &self.line {
            Some(n) => {
                if *n != r.line {
                    return false;
                }
            },
            None => {},
        }
        match &self.message_contains {
            Some(m) => {
                if !contains_sub(r.message.as_str(), m.as_str()) {
                    return false;
                }
            },
            None => {},
        }
        true
    }
}

impl ReceivedDiagnostic {
    /// A received fact with a kind and a span, and empty text and message.
    pub fn new(kind: DecoKind, line: u32, start_char: u32, end_char: u32) -> (r: Self)
        ensures
            r.kind == kind && r.line == line && r.start_char == start_char && r.end_char
                == end_char,
            r.text@ =~= Seq::<char>::empty(),
            r.message@ =~= Seq::<char>::empty(),
    {
        Self { kind, line, start_char, end_char, text: String::new(), message: String::new() }
    }

    /// The same fact with the span text filled in.
    pub fn with_text(self, text: &str) -> (r: Self)
        ensures
            r.text@ == text@,
            r.kind == self.kind && r.line == self.line && r.start_char == self.start_char
                && r.end_char == self.end_char && r.message == self.message,
    {
        Self { text: text.to_owned(), ..self }
    }

    /// The same fact with the message filled in.
    pub fn with_message(self, message: &str) -> (r: Self)
        ensures
            r.message@ == message@,
            r.kind == self.kind && r.line == self.line && r.start_char == self.start_char
                && r.end_char == self.end_char && r.text == self.text,
    {
        Self { message: message.to_owned(), ..self }
    }
}

} // verus!
