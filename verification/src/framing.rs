//! Length-prefixed wire framing: each message travels as
//! `"Content-Length: <n>\r\n\r\n"` followed by exactly `n` payload bytes.
//! Decoding a frame that encoding produced yields the payload back, and a
//! malformed header costs one line, never the stream.

use vstd::prelude::*;

use crate::numeral::{parse_dec_range, spec_all_digits, spec_parse_dec};
use crate::text::{spec_has_prefix, spec_is_space, spec_leading, spec_leading_from};

verus! {

/// Byte of one decimal digit value.
pub open spec fn spec_digit_b(d: int) -> u8 {
    (48 + d) as u8
}

/// Whether a byte is a decimal digit.
pub open spec fn spec_is_digit_b(b: u8) -> bool {
    48 <= b <= 57
}

/// Whether every byte of a sequence is a decimal digit.
pub open spec fn spec_all_digits_b(s: Seq<u8>) -> bool {
    forall|i: int| 0 <= i < s.len() ==> spec_is_digit_b(#[trigger] s[i])
}

/// Canonical decimal rendering of a natural number, as bytes.
pub open spec fn spec_dec_b(n: nat) -> Seq<u8>
    decreases n,
{
    if n < 10 {
        seq![spec_digit_b(n as int)]
    } else {
        spec_dec_b(n / 10) + seq![spec_digit_b((n % 10) as int)]
    }
}

/// Value of a digit-byte string, read left to right.
pub open spec fn spec_parse_b(s: Seq<u8>) -> nat
    decreases s.len(),
{
    if s.len() == 0 {
        0
    } else {
        spec_parse_b(s.take(s.len() - 1)) * 10 + (if spec_is_digit_b(s.last()) {
            (s.last() - 48) as nat
        } else {
            0
        })
    }
}

/// The byte rendering consists of digits and parses back to its value.
pub proof fn lemma_dec_b_round_trip(n: nat)
    ensures
        spec_all_digits_b(spec_dec_b(n)),
        spec_dec_b(n).len() >= 1,
        spec_parse_b(spec_dec_b(n)) == n,
    decreases n,
{
    if n < 10 {
        let s = spec_dec_b(n);
        assert(s.take(0) =~= Seq::<u8>::empty());
        assert(spec_parse_b(s) == spec_parse_b(s.take(0)) * 10 + (s.last() - 48));
    } else {
        lemma_dec_b_round_trip(n / 10);
        let s = spec_dec_b(n);
        assert(s.take(s.len() - 1) =~= spec_dec_b(n / 10));
        assert(s.last() == spec_digit_b((n % 10) as int));
        assert(spec_parse_b(s) == spec_parse_b(s.take(s.len() - 1)) * 10 + (s.last() - 48));
        assert((n / 10) * 10 + n % 10 == n) by (nonlinear_arith);
    }
}

/// The header's fixed part, `"Content-Length: "`, as bytes.
pub open spec fn spec_cl_prefix() -> Seq<u8> {
    seq![67u8, 111u8, 110u8, 116u8, 101u8, 110u8, 116u8, 45u8, 76u8, 101u8, 110u8, 103u8, 116u8, 104u8, 58u8, 32u8]
}

/// The whole wire frame of a payload.
pub open spec fn spec_frame(p: Seq<u8>) -> Seq<u8> {
    spec_cl_prefix() + spec_dec_b(p.len()) + seq![13u8, 10u8, 13u8, 10u8] + p
}

/// Renders a number in decimal, as bytes.
pub fn dec_bytes(n: u64) -> (r: Vec<u8>)
    ensures
        r@ == spec_dec_b(n as nat),
    decreases n,
{
    if n < 10 {
        let mut v: Vec<u8> = Vec::new();
        v.push(48 + (n as u8));
        assert(v@ =~= spec_dec_b(n as nat));
        v
    } else {
        let mut v = dec_bytes(n / 10);
        v.push(48 + ((n % 10) as u8));
        assert(v@ =~= spec_dec_b(n as nat));
        v
    }
}

/// Encodes one payload as a wire frame: the fixed header, the payload's
/// byte count in decimal, the blank separator line, then the payload.
pub fn encode_frame(payload: &Vec<u8>) -> (r: Vec<u8>)
    ensures
        r@ == spec_frame(payload@),
{
    let mut out: Vec<u8> = Vec::new();
    out.push(67);
    out.push(111);
    out.push(110);
    out.push(116);
    out.push(101);
    out.push(110);
    out.push(116);
    out.push(45);
    out.push(76);
    out.push(101);
    out.push(110);
    out.push(103);
    out.push(116);
    out.push(104);
    out.push(58);
    out.push(32);
    assert(out@ =~= spec_cl_prefix());
    let mut num = dec_bytes(payload.len() as u64);
    out.append(&mut num);
    out.push(13);
    out.push(10);
    out.push(13);
    out.push(10);
    let ghost header = out@;
    let mut i: usize = 0;
    while i < payload.len()
        invariant
            0 <= i <= payload@.len(),
            out@ =~= header + payload@.take(i as int),
        decreases payload@.len() - i,
    {
        out.push(payload[i]);
        assert(out@ =~= header + payload@.take(i + 1));
        i = i + 1;
    }
    assert(payload@.take(payload@.len() as int) =~= payload@);
    assert(out@ =~= spec_frame(payload@));
    out
}

/// Whether a byte counts as whitespace when the header line is trimmed.
pub open spec fn spec_is_space_b(b: u8) -> bool {
    b == 32 || b == 9 || b == 13 || b == 10
}

/// First all-space boundary from the left.
pub open spec fn spec_lead_b(l: Seq<u8>, i: int) -> int
    decreases l.len() - i,
{
    if i < 0 || i >= l.len() {
        l.len() as int
    } else if !spec_is_space_b(l[i]) {
        i
    } else {
        spec_lead_b(l, i + 1)
    }
}

/// Trimming boundary from the right: the end of the last non-space byte.
pub open spec fn spec_rtrim_b(l: Seq<u8>, i: int) -> int
    decreases i,
{
    if i <= 0 || i > l.len() {
        0
    } else if !spec_is_space_b(l[i - 1]) {
        i
    } else {
        spec_rtrim_b(l, i - 1)
    }
}

/// The header line with surrounding whitespace removed.
pub open spec fn spec_trim_b(l: Seq<u8>) -> Seq<u8> {
    let a = spec_lead_b(l, 0);
    let b = spec_rtrim_b(l, l.len() as int);
    if a >= b {
        Seq::empty()
    } else {
        l.subrange(a, b)
    }
}

/// The length a header line announces: the value after
/// `"Content-Length: "`, or 0 when the line is not of that shape, the
/// digits are missing or malformed, or the value does not fit.
pub open spec fn spec_header_value(line: Seq<u8>) -> int {
    let t = spec_trim_b(line);
    if spec_cl_prefix().len() <= t.len() && t.take(spec_cl_prefix().len() as int)
        == spec_cl_prefix() {
        let d = t.skip(spec_cl_prefix().len() as int);
        if d.len() >= 1 && spec_all_digits_b(d) && spec_parse_b(d) <= usize::MAX {
            spec_parse_b(d) as int
        } else {
            0
        }
    } else {
        0
    }
}

/// First index of a byte value at or after `pos`, or -1.
pub open spec fn spec_find_b(s: Seq<u8>, b: u8, i: int) -> int
    decreases s.len() - i,
{
    if i < 0 || i >= s.len() {
        -1
    } else if s[i] == b {
        i
    } else {
        spec_find_b(s, b, i + 1)
    }
}

/// One step of the inbound reader, at a position in the stream:
/// - `(0, _, _)`: incomplete; more bytes are needed before anything can
///   be decided.
/// - `(1, _, next)`: the header line was malformed or announced nothing;
///   it is skipped and reading resumes at `next`.
/// - `(2, payload, next)`: one whole frame; its payload, and the position
///   after it.
pub open spec fn spec_next_frame(s: Seq<u8>, pos: int) -> (int, Seq<u8>, int) {
    let nl = spec_find_b(s, 10, pos);
    if nl < 0 {
        (0, Seq::empty(), 0)
    } else {
        let n = spec_header_value(s.subrange(pos, nl));
        if n == 0 {
            (1, Seq::empty(), nl + 1)
        } else {
            let nl2 = spec_find_b(s, 10, nl + 1);
            if nl2 < 0 {
                (0, Seq::empty(), 0)
            } else if nl2 + 1 + n <= s.len() {
                (2, s.subrange(nl2 + 1, nl2 + 1 + n), nl2 + 1 + n)
            } else {
                (0, Seq::empty(), 0)
            }
        }
    }
}

/// A position with no occurrence of the byte before it and an occurrence
/// (or the end) at it pins down `spec_find_b`.
proof fn lemma_find_b_at(s: Seq<u8>, b: u8, k: int, j: int)
    requires
        0 <= j <= k <= s.len(),
        forall|t: int| j <= t < k ==> s[t] != b,
        k < s.len() ==> s[k] == b,
    ensures
        spec_find_b(s, b, j) == if k == s.len() {
            -1int
        } else {
            k
        },
    decreases k - j,
{
    if j < k {
        lemma_find_b_at(s, b, k, j + 1);
    }
}

/// Decoding a frame that `encode_frame` produced, at its start, yields
/// exactly the payload and resumes exactly after the frame, whatever
/// follows on the stream. (A payload is never empty: an announced length
/// of zero is indistinguishable from a malformed header, which is
/// skipped.)
pub proof fn lemma_frame_round_trip(p: Seq<u8>, rest: Seq<u8>)
    requires
        1 <= p.len() <= usize::MAX,
    ensures
        spec_next_frame(spec_frame(p) + rest, 0) == (
            2int,
            p,
            spec_frame(p).len() as int,
        ),
{
    let d = spec_dec_b(p.len());
    lemma_dec_b_round_trip(p.len());
    let pre = spec_cl_prefix();
    let s = spec_frame(p) + rest;
    let hl = 16 + d.len() as int;
    assert(pre.len() == 16);
    assert(forall|i: int| 0 <= i < 16 ==> #[trigger] s[i] == pre[i]);
    assert(forall|i: int| 16 <= i < hl ==> #[trigger] s[i] == d[i - 16]);
    assert(s[hl] == 13 && s[hl + 1] == 10 && s[hl + 2] == 13 && s[hl + 3] == 10);
    assert(forall|i: int| hl + 4 <= i < hl + 4 + p.len() ==> #[trigger] s[i] == p[i - hl - 4]);

    assert(forall|i: int| 0 <= i < 16 ==> pre[i] != 10);
    assert(forall|t: int| 0 <= t < hl + 1 ==> s[t] != 10) by {
        assert(forall|i: int| 16 <= i < hl ==> spec_is_digit_b(#[trigger] d[i - 16]));
    }
    lemma_find_b_at(s, 10, hl + 1, 0);
    assert(spec_find_b(s, 10, 0) == hl + 1);

    let line = s.subrange(0, hl + 1);
    assert(line.len() == hl + 1);
    assert(!spec_is_space_b(line[0]));
    assert(spec_lead_b(line, 0) == 0);
    assert(spec_is_space_b(line[hl]));
    assert(spec_rtrim_b(line, hl + 1) == spec_rtrim_b(line, hl));
    assert(spec_is_digit_b(line[hl - 1]));
    assert(!spec_is_space_b(line[hl - 1]));
    assert(spec_rtrim_b(line, hl) == hl);
    let t = spec_trim_b(line);
    assert(t =~= pre + d);
    assert(t.take(16) =~= pre);
    assert(t.skip(16) =~= d);
    assert(spec_header_value(line) == p.len());

    assert(s[hl + 2] != 10 && s[hl + 3] == 10);
    lemma_find_b_at(s, 10, hl + 3, hl + 2);
    assert(spec_find_b(s, 10, hl + 2) == hl + 3);

    assert(s.subrange(hl + 4, hl + 4 + p.len()) =~= p);
    assert(spec_frame(p).len() == hl + 4 + p.len());
}

/// A header line that announces nothing — malformed, non-numeric, or a
/// zero length — costs exactly that line: decoding resumes at the byte
/// after its newline, and the stream is not terminated.
pub proof fn lemma_bad_header_skipped(line: Seq<u8>, rest: Seq<u8>)
    requires
        spec_header_value(line) == 0,
        forall|i: int| 0 <= i < line.len() ==> #[trigger] line[i] != 10,
    ensures
        spec_next_frame(line + seq![10u8] + rest, 0) == (
            1int,
            Seq::<u8>::empty(),
            line.len() + 1 as int,
        ),
{
    let s = line + seq![10u8] + rest;
    assert(forall|t: int| 0 <= t < line.len() ==> #[trigger] s[t] == line[t]);
    assert(s[line.len() as int] == 10);
    lemma_find_b_at(s, 10, line.len() as int, 0);
    assert(s.subrange(0, line.len() as int) =~= line);
}

/// The 16 bytes of `"Content-Length: "`.
fn cl_prefix() -> (r: Vec<u8>)
    ensures
        r@ == spec_cl_prefix(),
{
    let mut v: Vec<u8> = Vec::new();
    v.push(67);
    v.push(111);
    v.push(110);
    v.push(116);
    v.push(101);
    v.push(110);
    v.push(116);
    v.push(45);
    v.push(76);
    v.push(101);
    v.push(110);
    v.push(103);
    v.push(116);
    v.push(104);
    v.push(58);
    v.push(32);
    assert(v@ =~= spec_cl_prefix());
    v
}

/// Parses the byte range `[from, to)` of `s` as a decimal number that
/// fits a `usize`.
fn parse_b_range(s: &Vec<u8>, from: usize, to: usize) -> (r: Option<usize>)
    requires
        from <= to <= s@.len(),
    ensures
        ({
            let t = s@.subrange(from as int, to as int);
            match r {
                Some(v) => spec_all_digits_b(t) && to > from && spec_parse_b(t) == v,
                None => !(spec_all_digits_b(t) && to > from && spec_parse_b(t) <= usize::MAX),
            }
        }),
{
    let ghost t = s@.subrange(from as int, to as int);
    if from == to {
        return None;
    }
    let mut val: usize = 0;
    let mut i: usize = from;
    while i < to
        invariant
            from <= i <= to <= s@.len(),
            t == s@.subrange(from as int, to as int),
            spec_all_digits_b(t.take(i - from)),
            val == spec_parse_b(t.take(i - from)),
        decreases to - i,
    {
        let b = s[i];
        assert(b == t[i - from]);
        if b < 48 || b > 57 {
            assert(!spec_all_digits_b(t)) by {
                assert(t[i - from] == b);
            }
            return None;
        }
        let d = (b - 48) as usize;
        proof {
            assert(t.take(i - from + 1).take(t.take(i - from + 1).len() - 1) =~= t.take(
                i - from,
            ));
        }
        if val > (usize::MAX - d) / 10 {
            assert(val * 10 + d > usize::MAX) by (nonlinear_arith)
                requires
                    d < 10,
                    val > (usize::MAX - d) / 10,
            ;
            proof {
                lemma_parse_b_grows(t, i - from + 1, t.len() as int);
                assert(t.take(t.len() as int) =~= t);
            }
            return None;
        }
        assert(val * 10 + d <= usize::MAX) by (nonlinear_arith)
            requires
                d < 10,
                val <= (usize::MAX - d) / 10,
        ;
        val = val * 10 + d;
        i = i + 1;
    }
    proof {
        assert(t.take(t.len() as int) =~= t);
    }
    Some(val)
}

/// Longer digit-byte strings never parse to smaller values.
proof fn lemma_parse_b_grows(s: Seq<u8>, i: int, j: int)
    requires
        0 <= i <= j <= s.len(),
    ensures
        spec_parse_b(s.take(i)) <= spec_parse_b(s.take(j)),
    decreases j - i,
{
    if i < j {
        lemma_parse_b_grows(s, i, j - 1);
        assert(s.take(j).take(s.take(j).len() - 1) =~= s.take(j - 1));
    }
}

/// The value a header line within the stream announces.
fn header_value(s: &Vec<u8>, from: usize, to: usize) -> (r: usize)
    requires
        from <= to <= s@.len(),
    ensures
        r == spec_header_value(s@.subrange(from as int, to as int)),
{
    let ghost line = s@.subrange(from as int, to as int);
    assert(spec_cl_prefix().len() == 16);
    let mut a = from;
    while a < to && is_space_b(s[a])
        invariant
            from <= a <= to <= s@.len(),
            line == s@.subrange(from as int, to as int),
            spec_lead_b(line, 0) == spec_lead_b(line, a - from),
        decreases to - a,
    {
        assert(line[a - from] == s@[a as int]);
        a = a + 1;
    }
    assert(a < to ==> line[a - from] == s@[a as int]);
    assert(spec_lead_b(line, a - from) == a - from);
    let mut b = to;
    while b > a && is_space_b(s[b - 1])
        invariant
            from <= a <= b <= to <= s@.len(),
            line == s@.subrange(from as int, to as int),
            spec_rtrim_b(line, to - from) == spec_rtrim_b(line, b - from),
            spec_lead_b(line, 0) == a - from,
        decreases b,
    {
        assert(line[b - 1 - from] == s@[b - 1]);
        b = b - 1;
    }
    assert(b > a ==> line[b - 1 - from] == s@[b - 1]);
    if b <= a {
        proof {
            lemma_lead_b_spaces(line, 0);
            lemma_rtrim_of_spaces(line, a - from, b - from);
        }
        assert(spec_trim_b(line) =~= Seq::<u8>::empty());
        return 0;
    }
    assert(spec_rtrim_b(line, b - from) == b - from);
    let ghost t = spec_trim_b(line);
    assert(t =~= s@.subrange(a as int, b as int));
    if b - a < 16 {
        assert(t.len() == b - a);
        assert(!(spec_cl_prefix().len() <= t.len()));
        assert(spec_header_value(line) == 0);
        return 0;
    }
    let pre = cl_prefix();
    let mut k: usize = 0;
    while k < 16
        invariant
            0 <= k <= 16,
            from <= a,
            a + 16 <= b <= to <= s@.len(),
            pre@ == spec_cl_prefix(),
            line == s@.subrange(from as int, to as int),
            t == spec_trim_b(line),
            t =~= s@.subrange(a as int, b as int),
            forall|j: int| 0 <= j < k ==> #[trigger] t[j] == spec_cl_prefix()[j],
        decreases 16 - k,
    {
        assert(t[k as int] == s@[a + k]);
        if s[a + k] != pre[k] {
            assert(spec_cl_prefix().len() == 16);
            assert(t.take(16)[k as int] != spec_cl_prefix()[k as int]);
            assert(spec_header_value(line) == 0);
            return 0;
        }
        k = k + 1;
    }
    assert(t.take(16) =~= spec_cl_prefix());
    match parse_b_range(s, a + 16, b) {
        Some(v) => {
            assert(t.skip(16) =~= s@.subrange(a + 16, b as int));
            v
        },
        None => {
            assert(t.skip(16) =~= s@.subrange(a + 16, b as int));
            0
        },
    }
}

/// Every byte before the leading boundary is whitespace.
proof fn lemma_lead_b_spaces(l: Seq<u8>, i: int)
    requires
        0 <= i <= l.len(),
    ensures
        i <= spec_lead_b(l, i) <= l.len(),
        forall|j: int| i <= j < spec_lead_b(l, i) ==> spec_is_space_b(#[trigger] l[j]),
    decreases l.len() - i,
{
    if i < l.len() && spec_is_space_b(l[i]) {
        lemma_lead_b_spaces(l, i + 1);
    }
}

/// Right-trimming from a boundary inside the leading spaces reaches 0.
proof fn lemma_rtrim_of_spaces(l: Seq<u8>, a: int, b: int)
    requires
        0 <= b <= a <= l.len(),
        forall|j: int| 0 <= j < a ==> spec_is_space_b(#[trigger] l[j]),
    ensures
        spec_rtrim_b(l, b) == 0,
    decreases b,
{
    if b > 0 {
        lemma_rtrim_of_spaces(l, a, b - 1);
    }
}

/// Executable whitespace test on bytes.
fn is_space_b(b: u8) -> (r: bool)
    ensures
        r == spec_is_space_b(b),
{
    b == 32 || b == 9 || b == 13 || b == 10
}

/// One step of the inbound reader.
pub enum FrameStep {
    /// More bytes are needed.
    Incomplete,
    /// The header line was malformed or announced nothing; reading
    /// resumes after it.
    SkipLine(usize),
    /// One whole frame: its payload and the position after it.
    Frame(Vec<u8>, usize),
}

/// Decodes the next frame of `stream` at `pos`: reads the header line,
/// skips it if it announces nothing, otherwise skips the blank separator
/// line and takes exactly the announced number of payload bytes.
pub fn next_frame(stream: &Vec<u8>, pos: usize) -> (r: FrameStep)
    requires
        pos <= stream@.len(),
    ensures
        ({
            let step = spec_next_frame(stream@, pos as int);
            match r {
                FrameStep::Incomplete => step.0 == 0,
                FrameStep::SkipLine(next) => step.0 == 1 && next == step.2,
                FrameStep::Frame(p, next) => step.0 == 2 && p@ == step.1 && next == step.2,
            }
        }),
{
    let n_len = stream.len();
    let mut i = pos;
    while i < n_len && stream[i] != 10
        invariant
            pos <= i <= n_len == stream@.len(),
            spec_find_b(stream@, 10, pos as int) == spec_find_b(stream@, 10, i as int),
        decreases n_len - i,
    {
        i = i + 1;
    }
    if i == n_len {
        assert(spec_find_b(stream@, 10, i as int) == -1);
        return FrameStep::Incomplete;
    }
    let nl = i;
    assert(spec_find_b(stream@, 10, pos as int) == nl);
    let n = header_value(stream, pos, nl);
    if n == 0 {
        return FrameStep::SkipLine(nl + 1);
    }
    let mut i = nl + 1;
    while i < n_len && stream[i] != 10
        invariant
            nl + 1 <= i <= n_len == stream@.len(),
            spec_find_b(stream@, 10, nl + 1) == spec_find_b(stream@, 10, i as int),
        decreases n_len - i,
    {
        i = i + 1;
    }
    if i == n_len {
        assert(spec_find_b(stream@, 10, i as int) == -1);
        return FrameStep::Incomplete;
    }
    let nl2 = i;
    assert(spec_find_b(stream@, 10, nl + 1) == nl2);
    if n > n_len - (nl2 + 1) {
        return FrameStep::Incomplete;
    }
    let mut payload: Vec<u8> = Vec::new();
    let mut j = nl2 + 1;
    while j < nl2 + 1 + n
        invariant
            nl2 + 1 <= j <= nl2 + 1 + n <= n_len == stream@.len(),
            payload@ =~= stream@.subrange(nl2 + 1, j as int),
        decreases nl2 + 1 + n - j,
    {
        payload.push(stream[j]);
        assert(payload@ =~= stream@.subrange(nl2 + 1, j + 1));
        j = j + 1;
    }
    FrameStep::Frame(payload, nl2 + 1 + n)
}

/// The announced length of one header line, or 0 when the line is not a
/// well-formed `Content-Length` header or the value does not fit.
pub open spec fn spec_content_length(h: Seq<char>) -> int {
    let a = spec_leading(h);
    let b = spec_rtrim_c(h, h.len() as int);
    let t = if a >= b {
        Seq::<char>::empty()
    } else {
        h.subrange(a, b)
    };
    if spec_has_prefix(t, "Content-Length: "@) {
        let d = t.skip("Content-Length: "@.len() as int);
        if d.len() >= 1 && spec_all_digits(d) && spec_parse_dec(d) <= usize::MAX {
            spec_parse_dec(d) as int
        } else {
            0
        }
    } else {
        0
    }
}

/// Right-trimming boundary over characters.
pub open spec fn spec_rtrim_c(l: Seq<char>, i: int) -> int
    decreases i,
{
    if i <= 0 || i > l.len() {
        0
    } else if !spec_is_space(l[i - 1]) {
        i
    } else {
        spec_rtrim_c(l, i - 1)
    }
}

/// Right-trimming from a boundary inside the leading spaces reaches 0.
proof fn lemma_rtrim_c_of_spaces(l: Seq<char>, a: int, b: int)
    requires
        0 <= b <= a <= l.len(),
        forall|j: int| 0 <= j < a ==> spec_is_space(#[trigger] l[j]),
    ensures
        spec_rtrim_c(l, b) == 0,
    decreases b,
{
    if b > 0 {
        lemma_rtrim_c_of_spaces(l, a, b - 1);
    }
}

/// Reads the length a header line announces: the line is trimmed, must
/// then start with `"Content-Length: "`, and the rest must be a decimal
/// number that fits; anything else reads as 0, which the caller treats as
/// a line to skip.
pub fn parse_content_length(header: &str) -> (r: usize)
    ensures
        r == spec_content_length(header@),
{
    let ghost h = header@;
    let n = header.unicode_len();
    let mut a: usize = 0;
    while a < n && is_space_c(header.get_char(a))
        invariant
            0 <= a <= n == h.len(),
            h == header@,
            spec_leading_from(h, 0) == spec_leading_from(h, a as int),
        decreases n - a,
    {
        a = a + 1;
    }
    assert(spec_leading_from(h, a as int) == a);
    let mut b: usize = n;
    while b > a && is_space_c(header.get_char(b - 1))
        invariant
            0 <= a <= b <= n == h.len(),
            h == header@,
            spec_leading(h) == a,
            spec_rtrim_c(h, n as int) == spec_rtrim_c(h, b as int),
        decreases b,
    {
        b = b - 1;
    }
    if b <= a {
        proof {
            lemma_leading_all_spaces(h, a as int);
            lemma_rtrim_c_of_spaces(h, a as int, b as int);
            reveal_strlit("Content-Length: ");
        }
        return 0;
    }
    assert(spec_rtrim_c(h, b as int) == b);
    let ghost t = h.subrange(a as int, b as int);
    let trimmed = header.substring_char(a, b);
    assert(trimmed@ == t);
    proof {
        reveal_strlit("Content-Length: ");
    }
    if b - a < 16 {
        assert(!spec_has_prefix(t, "Content-Length: "@));
        return 0;
    }
    if !crate::text::has_prefix(trimmed, "Content-Length: ") {
        return 0;
    }
    match parse_dec_range(trimmed, 16, b - a) {
        Some(v) => {
            assert(t.skip(16) =~= t.subrange(16, t.len() as int));
            if v <= usize::MAX as u64 {
                v as usize
            } else {
                0
            }
        },
        None => {
            assert(t.skip(16) =~= t.subrange(16, t.len() as int));
            0
        },
    }
}

/// Everything before the leading boundary is whitespace.
proof fn lemma_leading_all_spaces(l: Seq<char>, a: int)
    requires
        0 <= a <= l.len(),
        spec_leading(l) == a,
    ensures
        forall|j: int| 0 <= j < a ==> spec_is_space(#[trigger] l[j]),
{
    crate::text::lemma_leading_spaces(l, 0);
}

/// Executable whitespace test on characters.
fn is_space_c(c: char) -> (r: bool)
    ensures
        r == spec_is_space(c),
{
    c == ' ' || c == '\t' || c == '\r' || c == '\n'
}

} // verus!
