//! Request/response correlation for one protocol session: ids are
//! allocated monotonically, responses are awaited by polling with a short
//! fixed tick up to a caller-supplied timeout, and decoration
//! notifications are accumulated, never replaced, until enough arrive or
//! the deadline passes. No wait here is unbounded.

use vstd::prelude::*;

use crate::deco::ReceivedDiagnostic;
use crate::message::{encode_message, spec_encode_msg, spec_msg_id, ProtocolMessage};

verus! {

/// The polling interval of every bounded wait, in milliseconds.
pub const POLL_TICK_MS: u64 = 100;

/// Outcome of waiting for a response: the matching message and the time
/// it took, or how long was waited in vain.
pub enum WaitOutcome {
    Matched(ProtocolMessage, u64),
    TimedOut(u64),
}

/// Correlation state of one session: the last request id handed out.
/// Ids are unique within the session and increase monotonically.
pub struct Session {
    pub last_id: u64,
}

/// Whether the `k`-th poll yielded a message carrying the awaited id.
pub open spec fn spec_poll_matches(polls: Seq<Option<ProtocolMessage>>, k: int, id: u64) -> bool {
    0 <= k < polls.len() && match polls[k] {
        Some(m) => spec_msg_id(m) == Some(id),
        None => false,
    }
}

impl Session {
    /// A fresh session; the first request gets id 1.
    pub fn new() -> (r: Self)
        ensures
            r.last_id == 0,
    {
        Session { last_id: 0 }
    }

    /// Allocates the next request id: one more than every id handed out
    /// before.
    pub fn next_id(&mut self) -> (id: u64)
        requires
            old(self).last_id < u64::MAX,
        ensures
            id == old(self).last_id + 1,
            final(self).last_id == id,
    {
        self.last_id = self.last_id + 1;
        self.last_id
    }

    /// Builds one request: allocates its id and renders its body.
    pub fn make_request(&mut self, method: String, params: String) -> (r: (u64, String))
        requires
            old(self).last_id < u64::MAX,
        ensures
            r.0 == old(self).last_id + 1,
            final(self).last_id == r.0,
            r.1@ == spec_encode_msg(
                ProtocolMessage::Request { id: r.0, method, params },
            ),
    {
        let id = self.next_id();
        let body = encode_message(
            &ProtocolMessage::Request { id, method, params },
        );
        (id, body)
    }
}

/// Renders one notification body.
pub fn make_notification(method: String, params: String) -> (r: String)
    ensures
        r@ == spec_encode_msg(ProtocolMessage::Notification { method, params }),
{
    encode_message(&ProtocolMessage::Notification { method, params })
}

/// Waits for the response with the given id, polling with the fixed tick:
/// the `k`-th tick sees `polls[k]` (no message once the polls run out).
/// Messages with a different id, and notifications, are ignored. The wait
/// ends at the first match, or as soon as the elapsed time reaches the
/// timeout: never earlier than the timeout, never a full tick past it.
pub fn wait_for_response(polls: &Vec<Option<ProtocolMessage>>, id: u64, timeout_ms: u64) -> (r:
    WaitOutcome)
    requires
        timeout_ms <= u64::MAX - POLL_TICK_MS,
        polls@.len() * (POLL_TICK_MS as int) <= u64::MAX - POLL_TICK_MS,
    ensures
        match r {
            WaitOutcome::TimedOut(e) => {
                &&& timeout_ms <= e < timeout_ms + POLL_TICK_MS
                &&& forall|k: int|
                    (k + 1) * (POLL_TICK_MS as int) <= e ==> !spec_poll_matches(polls@, k, id)
            },
            WaitOutcome::Matched(m, e) => {
                &&& 0 < e <= timeout_ms + POLL_TICK_MS
                &&& spec_poll_matches(polls@, (e as int) / (POLL_TICK_MS as int) - 1, id)
                &&& polls@[(e as int) / (POLL_TICK_MS as int) - 1] matches Some(pm)
                    && crate::message::msg_model(m) == crate::message::msg_model(pm)
                &&& forall|t: int|
                    0 <= t < (e as int) / (POLL_TICK_MS as int) - 1 ==> !spec_poll_matches(
                        polls@,
                        t,
                        id,
                    )
                &&& spec_msg_id(m) == Some(id)
            },
        },
{
    let mut elapsed: u64 = 0;
    let mut k: usize = 0;
    let ghost mut ticks: int = 0;
    while elapsed < timeout_ms
        invariant
            timeout_ms <= u64::MAX - POLL_TICK_MS,
            polls@.len() * (POLL_TICK_MS as int) <= u64::MAX - POLL_TICK_MS,
            0 <= ticks,
            elapsed == ticks * (POLL_TICK_MS as int),
            elapsed < timeout_ms + POLL_TICK_MS,
            k == if ticks <= polls@.len() {
                ticks
            } else {
                polls@.len() as int
            },
            forall|t: int| 0 <= t < ticks ==> !spec_poll_matches(polls@, t, id),
        decreases timeout_ms + POLL_TICK_MS - elapsed,
    {
        let got: Option<&ProtocolMessage> = if k < polls.len() {
            match &polls[k] {
                Some(m) => Some(m),
                None => None,
            }
        } else {
            None
        };
        proof {
            assert((ticks + 1) * (POLL_TICK_MS as int) == ticks * (POLL_TICK_MS as int) + (
            POLL_TICK_MS as int)) by (nonlinear_arith);
        }
        elapsed = elapsed + POLL_TICK_MS;
        proof {
            ticks = ticks + 1;
        }
        match got {
            Some(m) => {
                let mid = m.id();
                match mid {
                    Some(got_id) => {
                        if got_id == id {
                            assert(spec_poll_matches(polls@, k as int, id));
                            assert((elapsed as int) / (POLL_TICK_MS as int) == ticks)
                                by (nonlinear_arith)
                                requires
                                    elapsed == ticks * (POLL_TICK_MS as int),
                                    POLL_TICK_MS == 100,
                                    0 <= ticks,
                            ;
                            return WaitOutcome::Matched(m.duplicate(), elapsed);
                        }
                    },
                    None => {},
                }
            },
            None => {},
        }
        assert(!spec_poll_matches(polls@, ticks - 1, id));
        if k < polls.len() {
            k = k + 1;
        }
    }
    assert(forall|t: int|
        (t + 1) * (POLL_TICK_MS as int) <= elapsed ==> !spec_poll_matches(polls@, t, id)) by {
        assert forall|t: int|
            (t + 1) * (POLL_TICK_MS as int) <= elapsed implies !spec_poll_matches(
            polls@,
            t,
            id,
        ) by {
            if t >= ticks {
                assert((t + 1) * (POLL_TICK_MS as int) > ticks * (POLL_TICK_MS as int))
                    by (nonlinear_arith)
                    requires
                        t >= ticks,
                        POLL_TICK_MS == 100,
                ;
            } else if t >= 0 {
                assert(!spec_poll_matches(polls@, t, id));
            } else {
                assert(!spec_poll_matches(polls@, t, id));
            }
        }
    }
    WaitOutcome::TimedOut(elapsed)
}

/// The facts accumulated after `k` ticks: the concatenation, in arrival
/// order, of every batch the first `k` polls carried.
pub open spec fn spec_collected(
    polls: Seq<Option<Vec<ReceivedDiagnostic>>>,
    k: int,
) -> Seq<ReceivedDiagnostic>
    decreases k,
{
    if k <= 0 {
        Seq::empty()
    } else {
        spec_collected(polls, k - 1) + (if 0 <= k - 1 < polls.len() {
            match polls[k - 1] {
                Some(batch) => batch@,
                None => Seq::empty(),
            }
        } else {
            Seq::empty()
        })
    }
}

/// Collects decoration facts from a poll stream. The `k`-th tick sees
/// `polls[k]`; the collection stops at the first tick where the deadline
/// has passed or enough facts have accumulated. Returns the facts and the
/// number of ticks spent.
pub fn collect_decorations(
    polls: Vec<Option<Vec<ReceivedDiagnostic>>>,
    expected: usize,
    timeout_ms: u64,
) -> (r: (Vec<ReceivedDiagnostic>, u64))
    requires
        timeout_ms <= u64::MAX - POLL_TICK_MS,
        polls@.len() * (POLL_TICK_MS as int) <= u64::MAX - POLL_TICK_MS,
    ensures
        r.0@ == spec_collected(polls@, r.1 as int),
        forall|j: int|
            0 <= j < r.1 ==> spec_collected(polls@, j).len() < expected && j * (
            POLL_TICK_MS as int) < timeout_ms,
        (r.1 as int) * (POLL_TICK_MS as int) >= timeout_ms || r.0@.len() >= expected,
{
    let ghost ps = polls@;
    let mut polls = polls;
    let mut out: Vec<ReceivedDiagnostic> = Vec::new();
    let mut elapsed: u64 = 0;
    let mut k: u64 = 0;
    while elapsed < timeout_ms && out.len() < expected
        invariant
            timeout_ms <= u64::MAX - POLL_TICK_MS,
            ps.len() * (POLL_TICK_MS as int) <= u64::MAX - POLL_TICK_MS,
            elapsed == k * (POLL_TICK_MS as int),
            elapsed < timeout_ms + POLL_TICK_MS,
            k <= ps.len() ==> polls@ =~= ps.skip(k as int),
            k > ps.len() ==> polls@.len() == 0,
            out@ == spec_collected(ps, k as int),
            forall|j: int|
                0 <= j < k ==> spec_collected(ps, j).len() < expected && j * (
                POLL_TICK_MS as int) < timeout_ms,
        decreases timeout_ms + POLL_TICK_MS - elapsed,
    {
        proof {
            assert((k + 1) * (POLL_TICK_MS as int) == k * (POLL_TICK_MS as int) + (
            POLL_TICK_MS as int)) by (nonlinear_arith);
            assert((k as int) * (POLL_TICK_MS as int) < timeout_ms);
        }
        if polls.len() > 0 {
            let ghost pv = polls@;
            let head = polls.remove(0);
            proof {
                assert(polls@ =~= pv.drop_first());
                assert(pv[0] == ps[k as int]);
                assert(polls@ =~= ps.skip(k + 1));
            }
            match head {
                Some(mut batch) => {
                    let ghost b0 = batch@;
                    let ghost o0 = out@;
                    out.append(&mut batch);
                    proof {
                        assert(out@ =~= o0 + b0);
                        assert(spec_collected(ps, k + 1) =~= spec_collected(ps, k as int) + b0);
                    }
                },
                None => {
                    proof {
                        assert(spec_collected(ps, k + 1) =~= spec_collected(ps, k as int));
                    }
                },
            }
        } else {
            proof {
                if k <= ps.len() {
                    assert(ps.skip(k as int).len() == 0);
                }
                assert(spec_collected(ps, k + 1) =~= spec_collected(ps, k as int));
            }
        }
        elapsed = elapsed + POLL_TICK_MS;
        k = k + 1;
    }
    (out, k)
}

} // verus!
