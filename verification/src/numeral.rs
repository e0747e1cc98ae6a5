//! Decimal rendering and parsing of unsigned integers, with a proved
//! round trip. Used by the protocol framing (`Content-Length`), the wire
//! codec and the verifier's reports.

use vstd::prelude::*;

verus! {

/// The character for one decimal digit value.
pub open spec fn spec_digit_char(d: int) -> char {
    if d == 0 {
        '0'
    } else if d == 1 {
        '1'
    } else if d == 2 {
        '2'
    } else if d == 3 {
        '3'
    } else if d == 4 {
        '4'
    } else if d == 5 {
        '5'
    } else if d == 6 {
        '6'
    } else if d == 7 {
        '7'
    } else if d == 8 {
        '8'
    } else {
        '9'
    }
}

/// The numeric value of a decimal digit character, or -1 if the character
/// is not a digit.
pub open spec fn spec_digit_val(c: char) -> int {
    if c == '0' {
        0
    } else if c == '1' {
        1
    } else if c == '2' {
        2
    } else if c == '3' {
        3
    } else if c == '4' {
        4
    } else if c == '5' {
        5
    } else if c == '6' {
        6
    } else if c == '7' {
        7
    } else if c == '8' {
        8
    } else if c == '9' {
        9
    } else {
        -1
    }
}

/// Whether a character is a decimal digit.
pub open spec fn spec_is_digit(c: char) -> bool {
    spec_digit_val(c) >= 0
}

/// Whether every character of a sequence is a decimal digit.
pub open spec fn spec_all_digits(s: Seq<char>) -> bool {
    forall|i: int| 0 <= i < s.len() ==> spec_is_digit(#[trigger] s[i])
}

/// The canonical decimal rendering of a natural number (no leading zeros,
/// except that 0 renders as "0").
pub open spec fn spec_dec(n: nat) -> Seq<char>
    decreases n,
{
    if n < 10 {
        seq![spec_digit_char(n as int)]
    } else {
        spec_dec(n / 10) + seq![spec_digit_char((n % 10) as int)]
    }
}

/// The value of a digit string, read left to right; 0 for the empty string.
pub open spec fn spec_parse_dec(s: Seq<char>) -> nat
    decreases s.len(),
{
    if s.len() == 0 {
        0
    } else {
        spec_parse_dec(s.take(s.len() - 1)) * 10 + (if spec_is_digit(s.last()) {
            spec_digit_val(s.last()) as nat
        } else {
            0
        })
    }
}

/// The canonical rendering consists of digits and parses back to its value.
pub proof fn lemma_dec_round_trip(n: nat)
    ensures
        spec_all_digits(spec_dec(n)),
        spec_dec(n).len() >= 1,
        spec_parse_dec(spec_dec(n)) == n,
    decreases n,
{
    assert(spec_digit_val(spec_digit_char((n % 10) as int)) == n % 10);
    if n < 10 {
        let s = spec_dec(n);
        assert(spec_digit_val(spec_digit_char(n as int)) == n);
        assert(s.len() == 1);
        assert(s.last() == spec_digit_char(n as int));
        assert(s.take(0) =~= Seq::<char>::empty());
        assert(spec_parse_dec(s) == spec_parse_dec(s.take(0)) * 10 + spec_digit_val(s.last()));
    } else {
        lemma_dec_round_trip(n / 10);
        let s = spec_dec(n);
        assert(s.take(s.len() - 1) =~= spec_dec(n / 10));
        assert(s.last() == spec_digit_char((n % 10) as int));
        assert(spec_parse_dec(s) == spec_parse_dec(s.take(s.len() - 1)) * 10 + spec_digit_val(
            s.last(),
        ));
        assert((n / 10) * 10 + n % 10 == n) by (nonlinear_arith);
    }
}

/// Reading one more digit multiplies the parsed prefix by ten and adds it.
pub proof fn lemma_parse_dec_step(s: Seq<char>, i: int)
    requires
        0 <= i < s.len(),
    ensures
        spec_parse_dec(s.take(i + 1)) == spec_parse_dec(s.take(i)) * 10 + (if spec_is_digit(s[i]) {
            spec_digit_val(s[i])
        } else {
            0
        }),
{
    let t = s.take(i + 1);
    assert(t.take(t.len() - 1) =~= s.take(i));
    assert(t.last() == s[i]);
}

/// Longer digit strings never parse to smaller values.
pub proof fn lemma_parse_dec_grows(s: Seq<char>, i: int, j: int)
    requires
        0 <= i <= j <= s.len(),
    ensures
        spec_parse_dec(s.take(i)) <= spec_parse_dec(s.take(j)),
    decreases j - i,
{
    if i < j {
        lemma_parse_dec_grows(s, i, j - 1);
        lemma_parse_dec_step(s, j - 1);
    }
}

/// Renders one digit value as a one-character string.
fn digit_string(d: u64) -> (r: String)
    requires
        d < 10,
    ensures
        r@ =~= seq![spec_digit_char(d as int)],
{
    let r = if d == 0 {
        String::from_str("0")
    } else if d == 1 {
        String::from_str("1")
    } else if d == 2 {
        String::from_str("2")
    } else if d == 3 {
        String::from_str("3")
    } else if d == 4 {
        String::from_str("4")
    } else if d == 5 {
        String::from_str("5")
    } else if d == 6 {
        String::from_str("6")
    } else if d == 7 {
        String::from_str("7")
    } else if d == 8 {
        String::from_str("8")
    } else {
        String::from_str("9")
    };
    proof {
        reveal_strlit("0");
        reveal_strlit("1");
        reveal_strlit("2");
        reveal_strlit("3");
        reveal_strlit("4");
        reveal_strlit("5");
        reveal_strlit("6");
        reveal_strlit("7");
        reveal_strlit("8");
        reveal_strlit("9");
    }
    r
}

/// Renders a number in decimal.
pub fn dec_string(n: u64) -> (r: String)
    ensures
        r@ == spec_dec(n as nat),
    decreases n,
{
    if n < 10 {
        digit_string(n)
    } else {
        let prefix = dec_string(n / 10);
        let last = digit_string(n % 10);
        let r = prefix.concat(last.as_str());
        assert(r@ =~= spec_dec(n as nat));
        r
    }
}

/// The numeric value of a digit character, or 10 if it is not a digit.
fn digit_val(c: char) -> (r: u64)
    ensures
        spec_is_digit(c) ==> r == spec_digit_val(c),
        !spec_is_digit(c) ==> r == 10,
{
    if c == '0' {
        0
    } else if c == '1' {
        1
    } else if c == '2' {
        2
    } else if c == '3' {
        3
    } else if c == '4' {
        4
    } else if c == '5' {
        5
    } else if c == '6' {
        6
    } else if c == '7' {
        7
    } else if c == '8' {
        8
    } else if c == '9' {
        9
    } else {
        10
    }
}

/// Parses the character range `[from, to)` of `s` as a decimal number.
/// Returns `None` when the range is empty, holds a non-digit, or the value
/// does not fit in `u64`.
pub fn parse_dec_range(s: &str, from: usize, to: usize) -> (r: Option<u64>)
    requires
        from <= to <= s@.len(),
    ensures
        match r {
            Some(v) => spec_all_digits(s@.subrange(from as int, to as int)) && to > from
                && spec_parse_dec(s@.subrange(from as int, to as int)) == v,
            None => !(spec_all_digits(s@.subrange(from as int, to as int)) && to > from
                && spec_parse_dec(s@.subrange(from as int, to as int)) <= u64::MAX),
        },
{
    let ghost t = s@.subrange(from as int, to as int);
    if from == to {
        return None;
    }
    let mut val: u64 = 0;
    let mut i: usize = from;
    while i < to
        invariant
            from <= i <= to <= s@.len(),
            t == s@.subrange(from as int, to as int),
            spec_all_digits(t.take(i - from)),
            val == spec_parse_dec(t.take(i - from)),
        decreases to - i,
    {
        let c = s.get_char(i);
        assert(c == t[i - from]);
        let d = digit_val(c);
        if d >= 10 {
            assert(!spec_all_digits(t)) by {
                assert(t[i - from] == c);
            }
            return None;
        }
        proof {
            lemma_parse_dec_step(t, i - from);
        }
        if val > (u64::MAX - d) / 10 {
            assert(val * 10 + d > u64::MAX) by (nonlinear_arith)
                requires
                    d < 10,
                    val > (u64::MAX - d) / 10,
            ;
            proof {
                lemma_parse_dec_grows(t, i - from + 1, t.len() as int);
                assert(t.take(t.len() as int) =~= t);
            }
            return None;
        }
        assert(val * 10 + d <= u64::MAX) by (nonlinear_arith)
            requires
                d < 10,
                val <= (u64::MAX - d) / 10,
        ;
        val = val * 10 + d;
        i = i + 1;
    }
    proof {
        assert(t.take(t.len() as int) =~= t);
    }
    Some(val)
}

} // verus!
