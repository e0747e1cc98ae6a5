//! Greedy one-to-one matching of expected decoration facts against the
//! facts actually received, and the structured diff report.
//!
//! Each expected fact searches the received list left to right for the
//! first not-yet-consumed received fact that satisfies it; a consumed
//! received fact cannot satisfy a later expectation. Expected facts with
//! no match are "missing", received facts never consumed are
//! "unexpected", and the verification passes exactly when both lists are
//! empty.

use vstd::prelude::*;

use crate::deco::{spec_matches, ExpectedDeco, ReceivedDiagnostic};
use crate::kinds::spec_kind_label;
use crate::numeral::{dec_string, spec_dec};
use crate::text::spec_join;

verus! {

/// Result of one verified test case: its name, whether it passed, and the
/// diff report.
pub struct TestResult {
    pub name: String,
    pub passed: bool,
    pub message: String,
}

/// Index of the first received fact at or after `i` that is unused and
/// satisfies `e`, or -1.
pub open spec fn spec_first_match(
    e: ExpectedDeco,
    rs: Seq<ReceivedDiagnostic>,
    used: Seq<bool>,
    i: int,
) -> int
    decreases rs.len() - i,
{
    if i < 0 || i >= rs.len() {
        -1
    } else if !used[i] && spec_matches(e, rs[i]) {
        i
    } else {
        spec_first_match(e, rs, used, i + 1)
    }
}

/// The used-flags after greedily processing the expectations from `k` on.
pub open spec fn spec_greedy_used(
    es: Seq<ExpectedDeco>,
    rs: Seq<ReceivedDiagnostic>,
    used: Seq<bool>,
    k: int,
) -> Seq<bool>
    decreases es.len() - k,
{
    if k < 0 || k >= es.len() {
        used
    } else {
        let i = spec_first_match(es[k], rs, used, 0);
        if i >= 0 {
            spec_greedy_used(es, rs, used.update(i, true), k + 1)
        } else {
            spec_greedy_used(es, rs, used, k + 1)
        }
    }
}

/// Indices of the expectations from `k` on that find no match.
pub open spec fn spec_greedy_missing(
    es: Seq<ExpectedDeco>,
    rs: Seq<ReceivedDiagnostic>,
    used: Seq<bool>,
    k: int,
) -> Seq<int>
    decreases es.len() - k,
{
    if k < 0 || k >= es.len() {
        Seq::empty()
    } else {
        let i = spec_first_match(es[k], rs, used, 0);
        if i >= 0 {
            spec_greedy_missing(es, rs, used.update(i, true), k + 1)
        } else {
            seq![k] + spec_greedy_missing(es, rs, used, k + 1)
        }
    }
}

/// Indices of the received facts from `i` on that carry no used flag.
pub open spec fn spec_unused(used: Seq<bool>, i: int) -> Seq<int>
    decreases used.len() - i,
{
    if i < 0 || i >= used.len() {
        Seq::empty()
    } else if used[i] {
        spec_unused(used, i + 1)
    } else {
        seq![i] + spec_unused(used, i + 1)
    }
}

/// The used-flags after the whole greedy pass.
pub open spec fn spec_final_used(
    es: Seq<ExpectedDeco>,
    rs: Seq<ReceivedDiagnostic>,
) -> Seq<bool> {
    spec_greedy_used(es, rs, Seq::new(rs.len(), |i: int| false), 0)
}

/// Indices of the missing expectations of the whole greedy pass.
pub open spec fn spec_missing(es: Seq<ExpectedDeco>, rs: Seq<ReceivedDiagnostic>) -> Seq<int> {
    spec_greedy_missing(es, rs, Seq::new(rs.len(), |i: int| false), 0)
}

/// Indices of the received facts never consumed by the greedy pass.
pub open spec fn spec_unexpected(es: Seq<ExpectedDeco>, rs: Seq<ReceivedDiagnostic>) -> Seq<
    int,
> {
    spec_unused(spec_final_used(es, rs), 0)
}

/// Whether the verification passes: nothing missing and nothing
/// unexpected.
pub open spec fn spec_verify_passed(es: Seq<ExpectedDeco>, rs: Seq<ReceivedDiagnostic>) -> bool {
    spec_missing(es, rs).len() == 0 && spec_unexpected(es, rs).len() == 0
}

/// Report line for one missing expectation.
pub open spec fn spec_missing_line(e: ExpectedDeco) -> Seq<char> {
    "  "@ + spec_kind_label(e.kind) + match e.line {
        Some(n) => " at line "@ + spec_dec(n as nat),
        None => Seq::<char>::empty(),
    }
}

/// Report line for one unexpected received fact.
pub open spec fn spec_unexpected_line(r: ReceivedDiagnostic) -> Seq<char> {
    "  "@ + spec_kind_label(r.kind) + " at line "@ + spec_dec(r.line as nat) + " ("@ + spec_dec(
        r.start_char as nat,
    ) + "-"@ + spec_dec(r.end_char as nat) + ")"@
}

/// The whole report: a fixed phrase when everything matches, otherwise a
/// "Missing:" section and an "Unexpected:" section, each listing one fact
/// per line.
pub open spec fn spec_report(
    es: Seq<ExpectedDeco>,
    rs: Seq<ReceivedDiagnostic>,
) -> Seq<char> {
    let miss = spec_missing(es, rs).map_values(|k: int| spec_missing_line(es[k]));
    let unex = spec_unexpected(es, rs).map_values(|i: int| spec_unexpected_line(rs[i]));
    if miss.len() == 0 && unex.len() == 0 {
        "All decorations match"@
    } else {
        let m = if miss.len() > 0 {
            "Missing:\n"@ + spec_join(miss)
        } else {
            Seq::<char>::empty()
        };
        let sep = if miss.len() > 0 && unex.len() > 0 {
            seq!['\n']
        } else {
            Seq::<char>::empty()
        };
        let u = if unex.len() > 0 {
            "Unexpected:\n"@ + spec_join(unex)
        } else {
            Seq::<char>::empty()
        };
        m + sep + u
    }
}

/// Renders the report line for a missing expectation.
fn missing_line(e: &ExpectedDeco) -> (r: String)
    ensures
        r@ == spec_missing_line(*e),
{
    let mut out = String::from_str("  ");
    out.append(e.kind.label().as_str());
    match &e.line {
        Some(n) => {
            out.append(" at line ");
            out.append(dec_string(*n as u64).as_str());
        },
        None => {},
    }
    assert(out@ =~= spec_missing_line(*e));
    out
}

/// Renders the report line for an unexpected received fact.
fn unexpected_line(r: &ReceivedDiagnostic) -> (s: String)
    ensures
        s@ == spec_unexpected_line(*r),
{
    let mut out = String::from_str("  ");
    out.append(r.kind.label().as_str());
    out.append(" at line ");
    out.append(dec_string(r.line as u64).as_str());
    out.append(" (");
    out.append(dec_string(r.start_char as u64).as_str());
    out.append("-");
    out.append(dec_string(r.end_char as u64).as_str());
    out.append(")");
    assert(out@ =~= spec_unexpected_line(*r));
    out
}

/// Runs the greedy matching pass and renders the diff report. The first
/// component is true exactly when every expectation was satisfied and
/// every received fact was consumed.
pub fn verify_decorations(
    expected: &Vec<ExpectedDeco>,
    received: &Vec<ReceivedDiagnostic>,
) -> (r: (bool, String))
    ensures
        r.0 == spec_verify_passed(expected@, received@),
        r.1@ == spec_report(expected@, received@),
{
    let ghost es = expected@;
    let ghost rs = received@;
    let ghost used0 = Seq::new(rs.len(), |i: int| false);

    let mut used: Vec<bool> = Vec::new();
    let mut t: usize = 0;
    while t < received.len()
        invariant
            0 <= t <= received.len(),
            rs == received@,
            used@ =~= Seq::new(t as nat, |i: int| false),
        decreases received.len() - t,
    {
        used.push(false);
        t = t + 1;
    }
    assert(used@ =~= used0);

    let mut missing_idx: Vec<usize> = Vec::new();
    let mut k: usize = 0;
    while k < expected.len()
        invariant
            0 <= k <= expected.len(),
            es == expected@,
            rs == received@,
            used@.len() == rs.len(),
            spec_final_used(es, rs) == spec_greedy_used(es, rs, used@, k as int),
            spec_missing(es, rs) =~= missing_idx@.map_values(|x: usize| x as int)
                + spec_greedy_missing(es, rs, used@, k as int),
            forall|j: int| 0 <= j < missing_idx@.len() ==> #[trigger] missing_idx@[j] < es.len(),
        decreases expected.len() - k,
    {
        let e = &expected[k];
        let mut i: usize = 0;
        let mut found: bool = false;
        let ghost u_before = used@;
        while i < received.len() && !found
            invariant
                0 <= i <= received.len(),
                es == expected@,
                rs == received@,
                used@.len() == rs.len(),
                0 <= (k as int) < es.len(),
                *e == es[k as int],
                !found ==> used@ == u_before,
                !found ==> spec_first_match(es[k as int], rs, used@, 0) == spec_first_match(
                    es[k as int],
                    rs,
                    used@,
                    i as int,
                ),
                found ==> {
                    &&& 0 < i <= rs.len()
                    &&& spec_first_match(es[k as int], rs, u_before, 0) == i - 1
                    &&& used@ =~= u_before.update(i - 1, true)
                },
            decreases received.len() - i,
        {
            if !used[i] && e.matches(&received[i]) {
                used.set(i, true);
                found = true;
            }
            i = i + 1;
        }
        if found {
            proof {
                assert(spec_greedy_used(es, rs, u_before, k as int) == spec_greedy_used(
                    es,
                    rs,
                    used@,
                    k + 1,
                ));
                assert(spec_greedy_missing(es, rs, u_before, k as int) == spec_greedy_missing(
                    es,
                    rs,
                    used@,
                    k + 1,
                ));
            }
        } else {
            assert(spec_first_match(es[k as int], rs, used@, rs.len() as int) == -1);
            missing_idx.push(k);
            proof {
                assert(missing_idx@.map_values(|x: usize| x as int)
                    =~= missing_idx@.drop_last().map_values(|x: usize| x as int) + seq![
                    k as int,
                ]);
            }
        }
        k = k + 1;
    }
    let ghost used_fin = used@;
    assert(used_fin == spec_final_used(es, rs));
    assert(spec_missing(es, rs) =~= missing_idx@.map_values(|x: usize| x as int));

    let mut unexpected_idx: Vec<usize> = Vec::new();
    let mut i: usize = 0;
    while i < used.len()
        invariant
            0 <= i <= used.len(),
            rs == received@,
            used@ == used_fin,
            used@.len() == rs.len(),
            spec_unused(used_fin, 0) =~= unexpected_idx@.map_values(|x: usize| x as int)
                + spec_unused(used_fin, i as int),
            forall|j: int|
                0 <= j < unexpected_idx@.len() ==> #[trigger] unexpected_idx@[j] < rs.len(),
        decreases used.len() - i,
    {
        if !used[i] {
            unexpected_idx.push(i);
            proof {
                assert(unexpected_idx@.map_values(|x: usize| x as int)
                    =~= unexpected_idx@.drop_last().map_values(|x: usize| x as int) + seq![
                    i as int,
                ]);
            }
        }
        i = i + 1;
    }
    assert(spec_unexpected(es, rs) =~= unexpected_idx@.map_values(|x: usize| x as int));

    let passed = missing_idx.len() == 0 && unexpected_idx.len() == 0;

    let ghost miss_lines = spec_missing(es, rs).map_values(|x: int| spec_missing_line(es[x]));
    let ghost unex_lines = spec_unexpected(es, rs).map_values(
        |x: int| spec_unexpected_line(rs[x]),
    );

    if passed {
        let report = String::from_str("All decorations match");
        return (true, report);
    }

    let mut report = String::new();
    if missing_idx.len() > 0 {
        report.append("Missing:\n");
        let mut j: usize = 0;
        while j < missing_idx.len()
            invariant
                0 <= j <= missing_idx@.len(),
                es == expected@,
                rs == received@,
                spec_missing(es, rs) =~= missing_idx@.map_values(|x: usize| x as int),
                miss_lines == spec_missing(es, rs).map_values(
                    |x: int| spec_missing_line(es[x]),
                ),
                forall|t: int|
                    0 <= t < missing_idx@.len() ==> #[trigger] missing_idx@[t] < es.len(),
                report@ == "Missing:\n"@ + spec_join(miss_lines.take(j as int)),
            decreases missing_idx.len() - j,
        {
            if j > 0 {
                report.append("\n");
                proof {
                    reveal_strlit("\n");
                }
            }
            let line = missing_line(&expected[missing_idx[j]]);
            report.append(line.as_str());
            proof {
                let p = miss_lines.take(j + 1);
                assert(p.drop_last() =~= miss_lines.take(j as int));
                assert(p.last() == spec_missing_line(es[missing_idx@[j as int] as int]));
                if j > 0 {
                    reveal_strlit("\n");
                    assert("\n"@ =~= seq!['\n']);
                    assert(spec_join(p) == spec_join(p.drop_last()) + seq!['\n'] + p.last());
                } else {
                    assert(p.len() == 1);
                    assert(spec_join(p) =~= p.last());
                }
                assert(report@ =~= "Missing:\n"@ + spec_join(p));
            }
            j = j + 1;
        }
        assert(miss_lines.take(miss_lines.len() as int) =~= miss_lines);
    }
    if unexpected_idx.len() > 0 {
        if missing_idx.len() > 0 {
            report.append("\n");
            proof {
                reveal_strlit("\n");
            }
        }
        let ghost base = report@;
        report.append("Unexpected:\n");
        let mut j: usize = 0;
        while j < unexpected_idx.len()
            invariant
                0 <= j <= unexpected_idx@.len(),
                es == expected@,
                rs == received@,
                spec_unexpected(es, rs) =~= unexpected_idx@.map_values(|x: usize| x as int),
                unex_lines == spec_unexpected(es, rs).map_values(
                    |x: int| spec_unexpected_line(rs[x]),
                ),
                forall|t: int|
                    0 <= t < unexpected_idx@.len() ==> #[trigger] unexpected_idx@[t] < rs.len(),
                report@ == base + "Unexpected:\n"@ + spec_join(unex_lines.take(j as int)),
            decreases unexpected_idx.len() - j,
        {
            if j > 0 {
                report.append("\n");
                proof {
                    reveal_strlit("\n");
                }
            }
            let line = unexpected_line(&received[unexpected_idx[j]]);
            report.append(line.as_str());
            proof {
                let p = unex_lines.take(j + 1);
                assert(p.drop_last() =~= unex_lines.take(j as int));
                assert(p.last() == spec_unexpected_line(rs[unexpected_idx@[j as int] as int]));
                if j > 0 {
                    reveal_strlit("\n");
                    assert("\n"@ =~= seq!['\n']);
                    assert(spec_join(p) == spec_join(p.drop_last()) + seq!['\n'] + p.last());
                } else {
                    assert(p.len() == 1);
                    assert(spec_join(p) =~= p.last());
                }
                assert(report@ =~= base + "Unexpected:\n"@ + spec_join(p));
            }
            j = j + 1;
        }
        assert(unex_lines.take(unex_lines.len() as int) =~= unex_lines);
    }
    assert(report@ =~= spec_report(es, rs));
    (false, report)
}

} // verus!
