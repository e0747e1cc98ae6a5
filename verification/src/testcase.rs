//! Test-case definitions for decoration tests: a named source text, an
//! optional cursor locator, the expected facts and the forbidden kinds,
//! and the verification step that judges a delivered set of facts.

use vstd::prelude::*;

use crate::deco::{ExpectedDeco, ReceivedDiagnostic};
use crate::kinds::{spec_kind_label, DecoKind};
use crate::matching::{spec_report, spec_verify_passed, verify_decorations};
use crate::text::{dedent, spec_dedent};

verus! {

/// Outcome of judging one test case.
pub struct TestResult {
    pub name: String,
    pub passed: bool,
    pub error: Option<String>,
    pub stdout: String,
    pub stderr: String,
}

/// One decoration test case.
pub struct TestCase {
    pub name: String,
    pub code: String,
    pub cursor_text: Option<String>,
    pub cursor_line: Option<u32>,
    pub cursor_char: Option<u32>,
    pub expected_decos: Vec<ExpectedDeco>,
    pub forbidden_decos: Vec<DecoKind>,
}

/// Whether a kind occurs in the forbidden list.
pub open spec fn spec_kind_in(ks: Seq<DecoKind>, k: DecoKind) -> bool {
    exists|j: int| 0 <= j < ks.len() && ks[j] == k
}

/// Index of the first received fact whose kind is forbidden, or -1.
pub open spec fn spec_first_forbidden(
    ks: Seq<DecoKind>,
    rs: Seq<ReceivedDiagnostic>,
    i: int,
) -> int
    decreases rs.len() - i,
{
    if i < 0 || i >= rs.len() {
        -1
    } else if spec_kind_in(ks, rs[i].kind) {
        i
    } else {
        spec_first_forbidden(ks, rs, i + 1)
    }
}

/// Whether a test case passes for a delivered set of facts: the greedy
/// verification passes and no received fact has a forbidden kind.
pub open spec fn spec_case_passed(t: TestCase, rs: Seq<ReceivedDiagnostic>) -> bool {
    spec_verify_passed(t.expected_decos@, rs) && spec_first_forbidden(t.forbidden_decos@, rs, 0)
        < 0
}

/// The error text reported for a failed case: the diff report when the
/// matching failed, otherwise the first forbidden kind received.
pub open spec fn spec_case_error(t: TestCase, rs: Seq<ReceivedDiagnostic>) -> Seq<char> {
    if !spec_verify_passed(t.expected_decos@, rs) {
        spec_report(t.expected_decos@, rs)
    } else {
        "Forbidden: "@ + spec_kind_label(rs[spec_first_forbidden(t.forbidden_decos@, rs, 0)].kind)
    }
}

impl TestCase {
    /// A fresh case: the source text is dedented, and no cursor,
    /// expectations or forbidden kinds are set.
    pub fn new(name: &str, code: &str) -> (r: Self)
        ensures
            r.name@ == name@,
            r.code@ == spec_dedent(code@),
            r.cursor_text is None && r.cursor_line is None && r.cursor_char is None,
            r.expected_decos@ =~= Seq::<ExpectedDeco>::empty(),
            r.forbidden_decos@ =~= Seq::<DecoKind>::empty(),
    {
        Self {
            name: name.to_owned(),
            code: dedent(code),
            cursor_text: None,
            cursor_line: None,
            cursor_char: None,
            expected_decos: Vec::new(),
            forbidden_decos: Vec::new(),
        }
    }

    /// Anchors the cursor on the first occurrence of a text snippet.
    pub fn cursor_on(self, text: &str) -> (r: Self)
        ensures
            r.cursor_text matches Some(t) && t@ == text@,
            r.name == self.name && r.code == self.code && r.cursor_line == self.cursor_line
                && r.cursor_char == self.cursor_char && r.expected_decos == self.expected_decos
                && r.forbidden_decos == self.forbidden_decos,
    {
        Self { cursor_text: Some(text.to_owned()), ..self }
    }

    /// Anchors the cursor at an explicit line and column.
    pub fn cursor_at(self, line: u32, character: u32) -> (r: Self)
        ensures
            r.cursor_line matches Some(l) && l == line,
            r.cursor_char matches Some(c) && c == character,
            r.name == self.name && r.code == self.code && r.cursor_text == self.cursor_text
                && r.expected_decos == self.expected_decos && r.forbidden_decos
                == self.forbidden_decos,
    {
        Self { cursor_line: Some(line), cursor_char: Some(character), ..self }
    }

    /// Adds one expectation.
    pub fn expect(self, deco: ExpectedDeco) -> (r: Self)
        ensures
            r.expected_decos@ =~= self.expected_decos@ + seq![deco],
            r.name == self.name && r.code == self.code && r.cursor_text == self.cursor_text
                && r.cursor_line == self.cursor_line && r.cursor_char == self.cursor_char
                && r.forbidden_decos == self.forbidden_decos,
    {
        let mut s = self;
        s.expected_decos.push(deco);
        s
    }

    /// Expects one `Move` fact.
    pub fn expect_move(self) -> (r: Self)
        ensures
            r.expected_decos@ =~= self.expected_decos@ + seq![ExpectedDeco::spec_bare(
                DecoKind::Move,
            )],
            r.name == self.name && r.code == self.code && r.forbidden_decos
                == self.forbidden_decos,
    {
        self.expect(ExpectedDeco::move_deco())
    }

    /// Expects one `Move` fact on a span containing `text`.
    pub fn expect_move_at(self, text: &str) -> (r: Self)
        ensures
            r.expected_decos@.len() == self.expected_decos@.len() + 1,
            r.expected_decos@.last().kind == DecoKind::Move,
            r.expected_decos@.last().text_match matches Some(t) && t@ == text@,
            r.name == self.name && r.code == self.code && r.forbidden_decos
                == self.forbidden_decos,
    {
        self.expect(ExpectedDeco::move_deco().at_text(text))
    }

    /// Expects one `ImmBorrow` fact.
    pub fn expect_imm_borrow(self) -> (r: Self)
        ensures
            r.expected_decos@ =~= self.expected_decos@ + seq![ExpectedDeco::spec_bare(
                DecoKind::ImmBorrow,
            )],
            r.name == self.name && r.code == self.code && r.forbidden_decos
                == self.forbidden_decos,
    {
        self.expect(ExpectedDeco::imm_borrow())
    }

    /// Expects one `ImmBorrow` fact on a span containing `text`.
    pub fn expect_imm_borrow_at(self, text: &str) -> (r: Self)
        ensures
            r.expected_decos@.len() == self.expected_decos@.len() + 1,
            r.expected_decos@.last().kind == DecoKind::ImmBorrow,
            r.expected_decos@.last().text_match matches Some(t) && t@ == text@,
            r.name == self.name && r.code == self.code,
    {
        self.expect(ExpectedDeco::imm_borrow().at_text(text))
    }

    /// Expects one `MutBorrow` fact.
    pub fn expect_mut_borrow(self) -> (r: Self)
        ensures
            r.expected_decos@ =~= self.expected_decos@ + seq![ExpectedDeco::spec_bare(
                DecoKind::MutBorrow,
            )],
            r.name == self.name && r.code == self.code && r.forbidden_decos
                == self.forbidden_decos,
    {
        self.expect(ExpectedDeco::mut_borrow())
    }

    /// Expects one `MutBorrow` fact on a span containing `text`.
    pub fn expect_mut_borrow_at(self, text: &str) -> (r: Self)
        ensures
            r.expected_decos@.len() == self.expected_decos@.len() + 1,
            r.expected_decos@.last().kind == DecoKind::MutBorrow,
            r.expected_decos@.last().text_match matches Some(t) && t@ == text@,
            r.name == self.name && r.code == self.code,
    {
        self.expect(ExpectedDeco::mut_borrow().at_text(text))
    }

    /// Expects one `Call` fact.
    pub fn expect_call(self) -> (r: Self)
        ensures
            r.expected_decos@ =~= self.expected_decos@ + seq![ExpectedDeco::spec_bare(
                DecoKind::Call,
            )],
            r.name == self.name && r.code == self.code && r.forbidden_decos
                == self.forbidden_decos,
    {
        self.expect(ExpectedDeco::call())
    }

    /// Expects one `Call` fact on a span containing `text`.
    pub fn expect_call_at(self, text: &str) -> (r: Self)
        ensures
            r.expected_decos@.len() == self.expected_decos@.len() + 1,
            r.expected_decos@.last().kind == DecoKind::Call,
            r.expected_decos@.last().text_match matches Some(t) && t@ == text@,
            r.name == self.name && r.code == self.code,
    {
        self.expect(ExpectedDeco::call().at_text(text))
    }

    /// Expects one `Lifetime` fact.
    pub fn expect_lifetime(self) -> (r: Self)
        ensures
            r.expected_decos@ =~= self.expected_decos@ + seq![ExpectedDeco::spec_bare(
                DecoKind::Lifetime,
            )],
            r.name == self.name && r.code == self.code && r.forbidden_decos
                == self.forbidden_decos,
    {
        self.expect(ExpectedDeco::lifetime())
    }

    /// Expects one `Lifetime` fact on a span containing `text`.
    pub fn expect_lifetime_at(self, text: &str) -> (r: Self)
        ensures
            r.expected_decos@.len() == self.expected_decos@.len() + 1,
            r.expected_decos@.last().kind == DecoKind::Lifetime,
            r.expected_decos@.last().text_match matches Some(t) && t@ == text@,
            r.name == self.name && r.code == self.code,
    {
        self.expect(ExpectedDeco::lifetime().at_text(text))
    }

    /// Expects one `SharedMut` fact.
    pub fn expect_shared_mut(self) -> (r: Self)
        ensures
            r.expected_decos@ =~= self.expected_decos@ + seq![ExpectedDeco::spec_bare(
                DecoKind::SharedMut,
            )],
            r.name == self.name && r.code == self.code && r.forbidden_decos
                == self.forbidden_decos,
    {
        self.expect(ExpectedDeco::shared_mut())
    }

    /// Expects one `Outlive` fact.
    pub fn expect_outlive(self) -> (r: Self)
        ensures
            r.expected_decos@ =~= self.expected_decos@ + seq![ExpectedDeco::spec_bare(
                DecoKind::Outlive,
            )],
            r.name == self.name && r.code == self.code && r.forbidden_decos
                == self.forbidden_decos,
    {
        self.expect(ExpectedDeco::outlive())
    }

    /// Forbids a kind from appearing among the received facts.
    pub fn forbid(self, kind: DecoKind) -> (r: Self)
        ensures
            r.forbidden_decos@ =~= self.forbidden_decos@ + seq![kind],
            r.name == self.name && r.code == self.code && r.cursor_text == self.cursor_text
                && r.cursor_line == self.cursor_line && r.cursor_char == self.cursor_char
                && r.expected_decos == self.expected_decos,
    {
        let mut s = self;
        s.forbidden_decos.push(kind);
        s
    }

    /// Forbids `Move` facts.
    pub fn forbid_move(self) -> (r: Self)
        ensures
            r.forbidden_decos@ =~= self.forbidden_decos@ + seq![DecoKind::Move],
            r.name == self.name && r.code == self.code && r.expected_decos
                == self.expected_decos,
    {
        self.forbid(DecoKind::Move)
    }

    /// Forbids `Outlive` facts.
    pub fn forbid_outlive(self) -> (r: Self)
        ensures
            r.forbidden_decos@ =~= self.forbidden_decos@ + seq![DecoKind::Outlive],
            r.name == self.name && r.code == self.code && r.expected_decos
                == self.expected_decos,
    {
        self.forbid(DecoKind::Outlive)
    }

    /// Forbids `ImmBorrow` facts.
    pub fn forbid_imm_borrow(self) -> (r: Self)
        ensures
            r.forbidden_decos@ =~= self.forbidden_decos@ + seq![DecoKind::ImmBorrow],
            r.name == self.name && r.code == self.code && r.expected_decos
                == self.expected_decos,
    {
        self.forbid(DecoKind::ImmBorrow)
    }

    /// Forbids `MutBorrow` facts.
    pub fn forbid_mut_borrow(self) -> (r: Self)
        ensures
            r.forbidden_decos@ =~= self.forbidden_decos@ + seq![DecoKind::MutBorrow],
            r.name == self.name && r.code == self.code && r.expected_decos
                == self.expected_decos,
    {
        self.forbid(DecoKind::MutBorrow)
    }

    /// Judges the case against the facts the pipeline delivered: the
    /// greedy verification must pass and no forbidden kind may appear.
    pub fn run(self, received: &Vec<ReceivedDiagnostic>) -> (r: TestResult)
        ensures
            r.name == self.name,
            r.passed == spec_case_passed(self, received@),
            r.passed <==> r.error is None,
            !r.passed ==> (r.error matches Some(e) && e@ == spec_case_error(self, received@)),
            r.stdout@ == Seq::<char>::empty() && r.stderr@ == Seq::<char>::empty(),
    {
        let (vp, report) = verify_decorations(&self.expected_decos, received);

        let mut forb: Option<usize> = None;
        let mut i: usize = 0;
        while i < received.len() && forb.is_none()
            invariant
                0 <= i <= received@.len(),
                forb is None ==> spec_first_forbidden(self.forbidden_decos@, received@, 0)
                    == spec_first_forbidden(self.forbidden_decos@, received@, i as int),
                forb matches Some(x) ==> x == spec_first_forbidden(
                    self.forbidden_decos@,
                    received@,
                    0,
                ) && x < received@.len(),
            decreases received@.len() - i,
        {
            let mut hit = false;
            let mut j: usize = 0;
            while j < self.forbidden_decos.len() && !hit
                invariant
                    0 <= j <= self.forbidden_decos@.len(),
                    0 <= (i as int) < received@.len(),
                    !hit ==> forall|t: int|
                        0 <= t < j ==> self.forbidden_decos@[t] != received@[i as int].kind,
                    hit ==> spec_kind_in(self.forbidden_decos@, received@[i as int].kind),
                decreases self.forbidden_decos@.len() - j,
            {
                if self.forbidden_decos[j] == received[i].kind {
                    hit = true;
                }
                j = j + 1;
            }
            if hit {
                forb = Some(i);
            } else {
                assert(!spec_kind_in(self.forbidden_decos@, received@[i as int].kind));
            }
            i = i + 1;
        }
        if forb.is_none() {
            assert(spec_first_forbidden(self.forbidden_decos@, received@, i as int) == -1);
        }

        let passed = vp && forb.is_none();
        if passed {
            TestResult {
                name: self.name,
                passed: true,
                error: None,
                stdout: String::new(),
                stderr: String::new(),
            }
        } else if !vp {
            TestResult {
                name: self.name,
                passed: false,
                error: Some(report),
                stdout: String::new(),
                stderr: String::new(),
            }
        } else {
            let idx = match forb {
                Some(x) => x,
                None => 0,
            };
            let mut msg = String::from_str("Forbidden: ");
            msg.append(received[idx].kind.label().as_str());
            TestResult {
                name: self.name,
                passed: false,
                error: Some(msg),
                stdout: String::new(),
                stderr: String::new(),
            }
        }
    }
}

} // verus!
