//! The protocol messages and their canonical wire bodies: a tagged union
//! of requests, responses and notifications, rendered as one-object
//! bodies with a fixed field order, so that decoding a body that encoding
//! produced yields the message back.

use vstd::prelude::*;

use crate::numeral::{dec_string, spec_all_digits, spec_dec, spec_is_digit, spec_parse_dec};
use crate::text::{has_prefix, spec_has_prefix};

verus! {

/// One protocol message. Ids are per-session, monotonically increasing
/// integers; parameters and results travel as pre-rendered text.
pub enum ProtocolMessage {
    Request { id: u64, method: String, params: String },
    Response { id: u64, result: String },
    Notification { method: String, params: String },
}

/// Mathematical image of a message: a tag, the id (0 where there is
/// none), the method (empty where there is none), and the payload.
pub open spec fn msg_model(m: ProtocolMessage) -> (int, u64, Seq<char>, Seq<char>) {
    match m {
        ProtocolMessage::Request { id, method, params } => (0int, id, method@, params@),
        ProtocolMessage::Response { id, result } => (1int, id, Seq::empty(), result@),
        ProtocolMessage::Notification { method, params } => (2int, 0u64, method@, params@),
    }
}

/// The id a message carries, if any.
pub open spec fn spec_msg_id(m: ProtocolMessage) -> Option<u64> {
    match m {
        ProtocolMessage::Request { id, .. } => Some(id),
        ProtocolMessage::Response { id, .. } => Some(id),
        ProtocolMessage::Notification { .. } => None,
    }
}

/// A method name that can travel inside quotes unescaped.
pub open spec fn spec_plain_text(s: Seq<char>) -> bool {
    forall|i: int| 0 <= i < s.len() ==> #[trigger] s[i] != '"' && s[i] != '\\' && s[i] != '\n'
}

/// A message whose canonical body decodes back to it.
pub open spec fn spec_msg_wf(m: ProtocolMessage) -> bool {
    match m {
        ProtocolMessage::Request { method, .. } => spec_plain_text(method@),
        ProtocolMessage::Response { .. } => true,
        ProtocolMessage::Notification { method, .. } => spec_plain_text(method@),
    }
}

/// Canonical body of a message.
pub open spec fn spec_encode_msg(m: ProtocolMessage) -> Seq<char> {
    match m {
        ProtocolMessage::Request { id, method, params } => "{\"jsonrpc\":\"2.0\",\"id\":"@
            + spec_dec(id as nat) + ",\"method\":\""@ + method@ + "\",\"params\":"@ + params@
            + "}"@,
        ProtocolMessage::Response { id, result } => "{\"jsonrpc\":\"2.0\",\"id\":"@ + spec_dec(
            id as nat,
        ) + ",\"result\":"@ + result@ + "}"@,
        ProtocolMessage::Notification { method, params } => "{\"jsonrpc\":\"2.0\",\"method\":\""@
            + method@ + "\",\"params\":"@ + params@ + "}"@,
    }
}

/// First non-digit boundary at or after `i`.
pub open spec fn spec_lead_digits(s: Seq<char>, i: int) -> int
    decreases s.len() - i,
{
    if i < 0 || i >= s.len() {
        s.len() as int
    } else if !spec_is_digit(s[i]) {
        i
    } else {
        spec_lead_digits(s, i + 1)
    }
}

/// First index of a character at or after `i`, or -1.
pub open spec fn spec_find_c(s: Seq<char>, c: char, i: int) -> int
    decreases s.len() - i,
{
    if i < 0 || i >= s.len() {
        -1
    } else if s[i] == c {
        i
    } else {
        spec_find_c(s, c, i + 1)
    }
}

/// What a body decodes to: the model of the decoded message, or `None`
/// for a body that is not of the canonical shape. The decoder reads the
/// fixed field order, takes the id as the maximal digit run, the method
/// up to its closing quote, and the payload as everything up to the
/// body's final brace.
pub open spec fn spec_decode_msg(s: Seq<char>) -> Option<(int, u64, Seq<char>, Seq<char>)> {
    if s.len() == 0 || s.last() != '}' {
        None
    } else if spec_has_prefix(s, "{\"jsonrpc\":\"2.0\",\"id\":"@) {
        let rest = s.skip("{\"jsonrpc\":\"2.0\",\"id\":"@.len() as int);
        let de = spec_lead_digits(rest, 0);
        if de == 0 || spec_parse_dec(rest.take(de)) > u64::MAX {
            None
        } else {
            let id = spec_parse_dec(rest.take(de)) as u64;
            let after = rest.skip(de);
            if spec_has_prefix(after, ",\"method\":\""@) {
                let mrest = after.skip(",\"method\":\""@.len() as int);
                let me = spec_find_c(mrest, '"', 0);
                if me < 0 {
                    None
                } else {
                    let method = mrest.take(me);
                    let tail = mrest.skip(me);
                    if spec_has_prefix(tail, "\",\"params\":"@) && "\",\"params\":"@.len()
                        <= tail.len() - 1 {
                        Some((0int, id, method, tail.subrange(
                            "\",\"params\":"@.len() as int,
                            tail.len() - 1,
                        )))
                    } else {
                        None
                    }
                }
            } else if spec_has_prefix(after, ",\"result\":"@) && ",\"result\":"@.len()
                <= after.len() - 1 {
                Some((1int, id, Seq::empty(), after.subrange(
                    ",\"result\":"@.len() as int,
                    after.len() - 1,
                )))
            } else {
                None
            }
        }
    } else if spec_has_prefix(s, "{\"jsonrpc\":\"2.0\",\"method\":\""@) {
        let mrest = s.skip("{\"jsonrpc\":\"2.0\",\"method\":\""@.len() as int);
        let me = spec_find_c(mrest, '"', 0);
        if me < 0 {
            None
        } else {
            let method = mrest.take(me);
            let tail = mrest.skip(me);
            if spec_has_prefix(tail, "\",\"params\":"@) && "\",\"params\":"@.len() <= tail.len()
                - 1 {
                Some((2int, 0u64, method, tail.subrange(
                    "\",\"params\":"@.len() as int,
                    tail.len() - 1,
                )))
            } else {
                None
            }
        }
    } else {
        None
    }
}

/// A digit boundary surrounded as expected pins down `spec_lead_digits`.
proof fn lemma_lead_digits_at(s: Seq<char>, k: int, j: int)
    requires
        0 <= j <= k <= s.len(),
        forall|t: int| j <= t < k ==> spec_is_digit(#[trigger] s[t]),
        k < s.len() ==> !spec_is_digit(s[k]),
    ensures
        spec_lead_digits(s, j) == k,
    decreases k - j,
{
    if j < k {
        lemma_lead_digits_at(s, k, j + 1);
    }
}

/// A first occurrence pins down `spec_find_c`.
proof fn lemma_find_c_at(s: Seq<char>, c: char, k: int, j: int)
    requires
        0 <= j <= k <= s.len(),
        forall|t: int| j <= t < k ==> #[trigger] s[t] != c,
        k < s.len() ==> s[k] == c,
    ensures
        spec_find_c(s, c, j) == if k == s.len() {
            -1int
        } else {
            k
        },
    decreases k - j,
{
    if j < k {
        lemma_find_c_at(s, c, k, j + 1);
    }
}

/// Decoding the canonical body of a well-formed message yields the
/// message back.
#[verifier::rlimit(100)]
pub proof fn lemma_msg_round_trip(m: ProtocolMessage)
    requires
        spec_msg_wf(m),
    ensures
        spec_decode_msg(spec_encode_msg(m)) == Some(msg_model(m)),
{
    reveal_strlit("{\"jsonrpc\":\"2.0\",\"id\":");
    reveal_strlit("{\"jsonrpc\":\"2.0\",\"method\":\"");
    reveal_strlit(",\"method\":\"");
    reveal_strlit(",\"result\":");
    reveal_strlit("\",\"params\":");
    reveal_strlit("}");
    let req_pre = "{\"jsonrpc\":\"2.0\",\"id\":"@;
    let not_pre = "{\"jsonrpc\":\"2.0\",\"method\":\""@;
    let s = spec_encode_msg(m);
    match m {
        ProtocolMessage::Request { id, method, params } => {
            lemma_dec_digits(id as nat);
            let d = spec_dec(id as nat);
            let mid = ",\"method\":\""@;
            let par = "\",\"params\":"@;
            assert(s =~= req_pre + d + mid + method@ + par + params@ + "}"@);
            assert(s.last() == '}');
            assert(s.take(req_pre.len() as int) =~= req_pre);
            let rest = s.skip(req_pre.len() as int);
            assert(rest =~= d + mid + method@ + par + params@ + "}"@);
            assert(!spec_is_digit(mid[0]));
            assert(forall|t: int| 0 <= t < d.len() ==> spec_is_digit(#[trigger] rest[t]));
            assert(rest[d.len() as int] == ',');
            lemma_lead_digits_at(rest, d.len() as int, 0);
            assert(rest.take(d.len() as int) =~= d);
            crate::numeral::lemma_dec_round_trip(id as nat);
            let after = rest.skip(d.len() as int);
            assert(after =~= mid + method@ + par + params@ + "}"@);
            assert(after.take(mid.len() as int) =~= mid);
            let mrest = after.skip(mid.len() as int);
            assert(mrest =~= method@ + par + params@ + "}"@);
            assert(forall|t: int| 0 <= t < method@.len() ==> #[trigger] mrest[t] != '"');
            assert(mrest[method@.len() as int] == '"');
            lemma_find_c_at(mrest, '"', method@.len() as int, 0);
            assert(mrest.take(method@.len() as int) =~= method@);
            let tail = mrest.skip(method@.len() as int);
            assert(tail =~= par + params@ + "}"@);
            assert(tail.take(par.len() as int) =~= par);
            assert(tail.subrange(par.len() as int, tail.len() - 1) =~= params@);
        },
        ProtocolMessage::Response { id, result } => {
            lemma_dec_digits(id as nat);
            let d = spec_dec(id as nat);
            let res = ",\"result\":"@;
            assert(s =~= req_pre + d + res + result@ + "}"@);
            assert(s.last() == '}');
            assert(s.take(req_pre.len() as int) =~= req_pre);
            let rest = s.skip(req_pre.len() as int);
            assert(rest =~= d + res + result@ + "}"@);
            assert(!spec_is_digit(res[0]));
            assert(forall|t: int| 0 <= t < d.len() ==> spec_is_digit(#[trigger] rest[t]));
            lemma_lead_digits_at(rest, d.len() as int, 0);
            assert(rest.take(d.len() as int) =~= d);
            crate::numeral::lemma_dec_round_trip(id as nat);
            let after = rest.skip(d.len() as int);
            assert(after =~= res + result@ + "}"@);
            let mid = ",\"method\":\""@;
            reveal_strlit(",\"method\":\"");
            assert(res[1] == '"' && res[2] == 'r');
            assert(mid[2] == 'm');
            assert(!spec_has_prefix(after, mid)) by {
                if spec_has_prefix(after, mid) {
                    assert(after.take(mid.len() as int)[2] == after[2]);
                    assert(after[2] == res[2]);
                }
            }
            assert(after.take(res.len() as int) =~= res);
            assert(after.subrange(res.len() as int, after.len() - 1) =~= result@);
        },
        ProtocolMessage::Notification { method, params } => {
            let par = "\",\"params\":"@;
            assert(s =~= not_pre + method@ + par + params@ + "}"@);
            assert(s.last() == '}');
            assert(req_pre[18] == 'i');
            assert(not_pre[18] == 'm');
            assert(!spec_has_prefix(s, req_pre)) by {
                if spec_has_prefix(s, req_pre) {
                    assert(s.take(req_pre.len() as int)[18] == s[18]);
                    assert(s[18] == not_pre[18]);
                }
            }
            assert(s.take(not_pre.len() as int) =~= not_pre);
            let mrest = s.skip(not_pre.len() as int);
            assert(mrest =~= method@ + par + params@ + "}"@);
            assert(forall|t: int| 0 <= t < method@.len() ==> #[trigger] mrest[t] != '"');
            assert(mrest[method@.len() as int] == '"');
            lemma_find_c_at(mrest, '"', method@.len() as int, 0);
            assert(mrest.take(method@.len() as int) =~= method@);
            let tail = mrest.skip(method@.len() as int);
            assert(tail =~= par + params@ + "}"@);
            assert(tail.take(par.len() as int) =~= par);
            assert(tail.subrange(par.len() as int, tail.len() - 1) =~= params@);
        },
    }
}

/// The decimal rendering consists of digits.
proof fn lemma_dec_digits(n: nat)
    ensures
        spec_all_digits(spec_dec(n)),
        spec_dec(n).len() >= 1,
        spec_parse_dec(spec_dec(n)) == n,
{
    crate::numeral::lemma_dec_round_trip(n);
}

impl ProtocolMessage {
    /// A message with the same model.
    pub fn duplicate(&self) -> (r: Self)
        ensures
            msg_model(r) == msg_model(*self),
    {
        match self {
            ProtocolMessage::Request { id, method, params } => ProtocolMessage::Request {
                id: *id,
                method: method.clone(),
                params: params.clone(),
            },
            ProtocolMessage::Response { id, result } => ProtocolMessage::Response {
                id: *id,
                result: result.clone(),
            },
            ProtocolMessage::Notification { method, params } => ProtocolMessage::Notification {
                method: method.clone(),
                params: params.clone(),
            },
        }
    }

    /// The id the message carries, if any.
    pub fn id(&self) -> (r: Option<u64>)
        ensures
            r == spec_msg_id(*self),
    {
        match self {
            ProtocolMessage::Request { id, .. } => Some(*id),
            ProtocolMessage::Response { id, .. } => Some(*id),
            ProtocolMessage::Notification { .. } => None,
        }
    }
}

/// Executable digit test.
fn is_digit_c(c: char) -> (r: bool)
    ensures
        r == spec_is_digit(c),
{
    c == '0' || c == '1' || c == '2' || c == '3' || c == '4' || c == '5' || c == '6' || c == '7'
        || c == '8' || c == '9'
}

/// Decodes a canonical body back into a message; `None` for any body not
/// of the canonical shape.
#[verifier::rlimit(100)]
pub fn decode_message(s: &str) -> (r: Option<ProtocolMessage>)
    ensures
        match r {
            Some(m) => spec_decode_msg(s@) == Some(msg_model(m)),
            None => spec_decode_msg(s@) is None,
        },
{
    proof {
        reveal_strlit("{\"jsonrpc\":\"2.0\",\"id\":");
        reveal_strlit("{\"jsonrpc\":\"2.0\",\"method\":\"");
        reveal_strlit(",\"method\":\"");
        reveal_strlit(",\"result\":");
        reveal_strlit("\",\"params\":");
    }
    let ghost req_pre = "{\"jsonrpc\":\"2.0\",\"id\":"@;
    let ghost not_pre = "{\"jsonrpc\":\"2.0\",\"method\":\""@;
    let ghost mid = ",\"method\":\""@;
    let ghost res = ",\"result\":"@;
    let ghost par = "\",\"params\":"@;
    assert(req_pre.len() == 22 && not_pre.len() == 27 && mid.len() == 11 && res.len() == 10
        && par.len() == 11);
    let n = s.unicode_len();
    if n == 0 {
        return None;
    }
    if s.get_char(n - 1) != '}' {
        return None;
    }
    if has_prefix(s, "{\"jsonrpc\":\"2.0\",\"id\":") {
        let ghost rest = s@.skip(22);
        let mut de: usize = 22;
        while de < n && is_digit_c(s.get_char(de))
            invariant
                22 <= de <= n == s@.len(),
                rest == s@.skip(22),
                spec_lead_digits(rest, 0) == spec_lead_digits(rest, de - 22),
            decreases n - de,
        {
            assert(rest[de - 22] == s@[de as int]);
            de = de + 1;
        }
        assert(de < n ==> rest[de - 22] == s@[de as int]);
        assert(spec_lead_digits(rest, 0) == de - 22);
        if de == 22 {
            return None;
        }
        assert(rest.take(de - 22) =~= s@.subrange(22, de as int));
        proof {
            lemma_lead_digits_range(rest, 0);
        }
        let id = match crate::numeral::parse_dec_range(s, 22, de) {
            Some(v) => v,
            None => {
                proof {
                    lemma_all_digits_shift(rest, s@, de as int);
                }
                return None;
            },
        };
        let ghost after = rest.skip(de - 22);
        assert(after =~= s@.skip(de as int));
        let seg_after = s.substring_char(de, n);
        assert(seg_after@ =~= after);
        if has_prefix(seg_after, ",\"method\":\"") {
            let ghost mrest = after.skip(11);
            let mstart = de + 11;
            assert(mrest =~= s@.skip(mstart as int));
            let mut me = mstart;
            while me < n && s.get_char(me) != '"'
                invariant
                    mstart <= me <= n == s@.len(),
                    mrest == s@.skip(mstart as int),
                    spec_find_c(mrest, '"', 0) == spec_find_c(mrest, '"', me - mstart),
                decreases n - me,
            {
                assert(mrest[me - mstart] == s@[me as int]);
                me = me + 1;
            }
            assert(me < n ==> mrest[me - mstart] == s@[me as int]);
            if me == n {
                assert(spec_find_c(mrest, '"', me - mstart) == -1);
                return None;
            }
            assert(spec_find_c(mrest, '"', 0) == me - mstart);
            let method = s.substring_char(mstart, me).to_owned();
            assert(method@ =~= mrest.take(me - mstart));
            let ghost tail = mrest.skip(me - mstart);
            assert(tail =~= s@.skip(me as int));
            let seg_tail = s.substring_char(me, n);
            assert(seg_tail@ =~= tail);
            if has_prefix(seg_tail, "\",\"params\":") && me + 11 <= n - 1 {
                let params = s.substring_char(me + 11, n - 1).to_owned();
                assert(params@ =~= tail.subrange(par.len() as int, tail.len() - 1));
                Some(ProtocolMessage::Request { id, method, params })
            } else {
                None
            }
        } else if has_prefix(seg_after, ",\"result\":") {
            if de + 10 <= n - 1 {
                let result = s.substring_char(de + 10, n - 1).to_owned();
                assert(result@ =~= after.subrange(res.len() as int, after.len() - 1));
                Some(ProtocolMessage::Response { id, result })
            } else {
                None
            }
        } else {
            None
        }
    } else if has_prefix(s, "{\"jsonrpc\":\"2.0\",\"method\":\"") {
        let ghost mrest = s@.skip(27);
        let mstart: usize = 27;
        let mut me = mstart;
        while me < n && s.get_char(me) != '"'
            invariant
                mstart == 27,
                mstart <= me <= n == s@.len(),
                mrest == s@.skip(27),
                spec_find_c(mrest, '"', 0) == spec_find_c(mrest, '"', me - mstart),
            decreases n - me,
        {
            assert(mrest[me - mstart] == s@[me as int]);
            me = me + 1;
        }
        assert(me < n ==> mrest[me - mstart] == s@[me as int]);
        if me == n {
            assert(spec_find_c(mrest, '"', me - mstart) == -1);
            return None;
        }
        assert(spec_find_c(mrest, '"', 0) == me - mstart);
        let method = s.substring_char(mstart, me).to_owned();
        assert(method@ =~= mrest.take(me - mstart));
        let ghost tail = mrest.skip(me - mstart);
        assert(tail =~= s@.skip(me as int));
        let seg_tail = s.substring_char(me, n);
        assert(seg_tail@ =~= tail);
        if has_prefix(seg_tail, "\",\"params\":") && me + 11 <= n - 1 {
            let params = s.substring_char(me + 11, n - 1).to_owned();
            assert(params@ =~= tail.subrange(par.len() as int, tail.len() - 1));
            Some(ProtocolMessage::Notification { method, params })
        } else {
            None
        }
    } else {
        None
    }
}

/// Every character before the digit boundary is a digit.
proof fn lemma_lead_digits_range(s: Seq<char>, i: int)
    requires
        0 <= i <= s.len(),
    ensures
        i <= spec_lead_digits(s, i) <= s.len(),
        forall|j: int| i <= j < spec_lead_digits(s, i) ==> spec_is_digit(#[trigger] s[j]),
    decreases s.len() - i,
{
    if i < s.len() && spec_is_digit(s[i]) {
        lemma_lead_digits_range(s, i + 1);
    }
}

/// Digits of a subrange stay digits after an index shift.
proof fn lemma_all_digits_shift(rest: Seq<char>, s: Seq<char>, de: int)
    requires
        rest == s.skip(22),
        22 <= de <= s.len(),
        forall|t: int| 0 <= t < de - 22 ==> spec_is_digit(#[trigger] rest[t]),
    ensures
        spec_all_digits(s.subrange(22, de)) == spec_all_digits(rest.take(de - 22)),
        spec_parse_dec(s.subrange(22, de)) == spec_parse_dec(rest.take(de - 22)),
{
    assert(rest.take(de - 22) =~= s.subrange(22, de));
}

/// Renders the canonical body of a message.
pub fn encode_message(m: &ProtocolMessage) -> (r: String)
    ensures
        r@ == spec_encode_msg(*m),
{
    match m {
        ProtocolMessage::Request { id, method, params } => {
            let mut out = String::from_str("{\"jsonrpc\":\"2.0\",\"id\":");
            out.append(dec_string(*id).as_str());
            out.append(",\"method\":\"");
            out.append(method.as_str());
            out.append("\",\"params\":");
            out.append(params.as_str());
            out.append("}");
            assert(out@ =~= spec_encode_msg(*m));
            out
        },
        ProtocolMessage::Response { id, result } => {
            let mut out = String::from_str("{\"jsonrpc\":\"2.0\",\"id\":");
            out.append(dec_string(*id).as_str());
            out.append(",\"result\":");
            out.append(result.as_str());
            out.append("}");
            assert(out@ =~= spec_encode_msg(*m));
            out
        },
        ProtocolMessage::Notification { method, params } => {
            let mut out = String::from_str("{\"jsonrpc\":\"2.0\",\"method\":\"");
            out.append(method.as_str());
            out.append("\",\"params\":");
            out.append(params.as_str());
            out.append("}");
            assert(out@ =~= spec_encode_msg(*m));
            out
        },
    }
}

} // verus!
