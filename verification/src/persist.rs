//! Durable form of the result cache: a length-prefixed text format,
//! written at the end of a full run and rehydrated at the start of the
//! next. Decoding what encoding wrote reproduces an equivalent mapping;
//! key order is not part of the format's meaning.

use vstd::prelude::*;

use crate::cache::{Fingerprint, ResultCache};
use crate::kinds::DecoKind;
use crate::message::spec_lead_digits;
use crate::numeral::{spec_dec, spec_is_digit, spec_parse_dec};
use crate::workspace::{item_model, spec_assoc_map, Item};

verus! {

/// Stable index of each kind in the durable format.
pub open spec fn spec_kind_index(k: DecoKind) -> int {
    match k {
        DecoKind::Lifetime => 0,
        DecoKind::ImmBorrow => 1,
        DecoKind::MutBorrow => 2,
        DecoKind::Move => 3,
        DecoKind::Call => 4,
        DecoKind::SharedMut => 5,
        DecoKind::Outlive => 6,
    }
}

/// The kind a stored index denotes.
pub open spec fn spec_kind_of(i: int) -> DecoKind {
    if i == 0 {
        DecoKind::Lifetime
    } else if i == 1 {
        DecoKind::ImmBorrow
    } else if i == 2 {
        DecoKind::MutBorrow
    } else if i == 3 {
        DecoKind::Move
    } else if i == 4 {
        DecoKind::Call
    } else if i == 5 {
        DecoKind::SharedMut
    } else {
        DecoKind::Outlive
    }
}

/// A number: its decimal digits, terminated by a semicolon.
pub open spec fn spec_enc_num(n: nat) -> Seq<char> {
    spec_dec(n) + seq![';']
}

/// A string: its length, then exactly that many characters.
pub open spec fn spec_enc_str(t: Seq<char>) -> Seq<char> {
    spec_enc_num(t.len()) + t
}

/// An optional string: a presence flag, then the string if present.
pub open spec fn spec_enc_opt(o: Option<Seq<char>>) -> Seq<char> {
    match o {
        None => spec_enc_num(0),
        Some(d) => spec_enc_num(1) + spec_enc_str(d),
    }
}

/// One fact: kind index, span numbers, optional detail.
pub open spec fn spec_enc_fact(f: (DecoKind, u32, u32, u32, Option<Seq<char>>)) -> Seq<char> {
    spec_enc_num(spec_kind_index(f.0) as nat) + spec_enc_num(f.1 as nat) + spec_enc_num(
        f.2 as nat,
    ) + spec_enc_num(f.3 as nat) + spec_enc_opt(f.4)
}

/// A fact list, in order.
pub open spec fn spec_enc_facts(fs: Seq<(DecoKind, u32, u32, u32, Option<Seq<char>>)>) -> Seq<
    char,
>
    decreases fs.len(),
{
    if fs.len() == 0 {
        Seq::empty()
    } else {
        spec_enc_fact(fs.first()) + spec_enc_facts(fs.drop_first())
    }
}

/// One item: its unit name, its fact count, its facts.
pub open spec fn spec_enc_item(
    it: (Seq<char>, Seq<(DecoKind, u32, u32, u32, Option<Seq<char>>)>),
) -> Seq<char> {
    spec_enc_str(it.0) + spec_enc_num(it.1.len()) + spec_enc_facts(it.1)
}

/// One cache entry: the two content hashes, then the item.
pub open spec fn spec_enc_entry(
    e: ((Seq<char>, Seq<char>), (Seq<char>, Seq<(DecoKind, u32, u32, u32, Option<Seq<char>>)>)),
) -> Seq<char> {
    spec_enc_str(e.0.0) + spec_enc_str(e.0.1) + spec_enc_item(e.1)
}

/// The entry list, in order.
pub open spec fn spec_enc_entries(
    es: Seq<((Seq<char>, Seq<char>), (Seq<char>, Seq<(DecoKind, u32, u32, u32, Option<Seq<char>>)>))>,
) -> Seq<char>
    decreases es.len(),
{
    if es.len() == 0 {
        Seq::empty()
    } else {
        spec_enc_entry(es.first()) + spec_enc_entries(es.drop_first())
    }
}

/// The whole cache: the entry count, then the entries.
pub open spec fn spec_enc_cache(
    es: Seq<((Seq<char>, Seq<char>), (Seq<char>, Seq<(DecoKind, u32, u32, u32, Option<Seq<char>>)>))>,
) -> Seq<char> {
    spec_enc_num(es.len()) + spec_enc_entries(es)
}

/// Decodes a number at `i`: at least one digit, a semicolon, and a value
/// that fits.
pub open spec fn spec_dec_num(s: Seq<char>, i: int) -> Option<(nat, int)> {
    let e = spec_lead_digits(s, i);
    if i < 0 || e == i || e >= s.len() || s[e] != ';' {
        None
    } else if spec_parse_dec(s.subrange(i, e)) > u64::MAX {
        None
    } else {
        Some((spec_parse_dec(s.subrange(i, e)), e + 1))
    }
}

/// Decodes a string at `i`.
pub open spec fn spec_dec_str(s: Seq<char>, i: int) -> Option<(Seq<char>, int)> {
    match spec_dec_num(s, i) {
        None => None,
        Some((n, j)) => if j + n <= s.len() {
            Some((s.subrange(j, j + n as int), j + n as int))
        } else {
            None
        },
    }
}

/// Decodes an optional string at `i`.
pub open spec fn spec_dec_opt(s: Seq<char>, i: int) -> Option<(Option<Seq<char>>, int)> {
    match spec_dec_num(s, i) {
        None => None,
        Some((flag, j)) => if flag == 0 {
            Some((None, j))
        } else if flag == 1 {
            match spec_dec_str(s, j) {
                None => None,
                Some((d, j2)) => Some((Some(d), j2)),
            }
        } else {
            None
        },
    }
}

/// Decodes one fact at `i`.
pub open spec fn spec_dec_fact(s: Seq<char>, i: int) -> Option<(
    (DecoKind, u32, u32, u32, Option<Seq<char>>),
    int,
)> {
    match spec_dec_num(s, i) {
        None => None,
        Some((ki, j1)) => if ki > 6 {
            None
        } else {
            match spec_dec_num(s, j1) {
                None => None,
                Some((line, j2)) => if line > u32::MAX {
                    None
                } else {
                    match spec_dec_num(s, j2) {
                        None => None,
                        Some((sc, j3)) => if sc > u32::MAX {
                            None
                        } else {
                            match spec_dec_num(s, j3) {
                                None => None,
                                Some((ec, j4)) => if ec > u32::MAX {
                                    None
                                } else {
                                    match spec_dec_opt(s, j4) {
                                        None => None,
                                        Some((d, j5)) => Some((
                                            (
                                                spec_kind_of(ki as int),
                                                line as u32,
                                                sc as u32,
                                                ec as u32,
                                                d,
                                            ),
                                            j5,
                                        )),
                                    }
                                },
                            }
                        },
                    }
                },
            }
        },
    }
}

/// Decodes `count` facts at `i`.
pub open spec fn spec_dec_facts(s: Seq<char>, i: int, count: nat) -> Option<(
    Seq<(DecoKind, u32, u32, u32, Option<Seq<char>>)>,
    int,
)>
    decreases count,
{
    if count == 0 {
        Some((Seq::empty(), i))
    } else {
        match spec_dec_fact(s, i) {
            None => None,
            Some((f, j)) => match spec_dec_facts(s, j, (count - 1) as nat) {
                None => None,
                Some((rest, j2)) => Some((seq![f] + rest, j2)),
            },
        }
    }
}

/// Decodes one item at `i`.
pub open spec fn spec_dec_item(s: Seq<char>, i: int) -> Option<(
    (Seq<char>, Seq<(DecoKind, u32, u32, u32, Option<Seq<char>>)>),
    int,
)> {
    match spec_dec_str(s, i) {
        None => None,
        Some((name, j)) => match spec_dec_num(s, j) {
            None => None,
            Some((count, j2)) => match spec_dec_facts(s, j2, count) {
                None => None,
                Some((fs, j3)) => Some(((name, fs), j3)),
            },
        },
    }
}

/// Decodes one entry at `i`.
pub open spec fn spec_dec_entry(s: Seq<char>, i: int) -> Option<(
    ((Seq<char>, Seq<char>), (Seq<char>, Seq<(DecoKind, u32, u32, u32, Option<Seq<char>>)>)),
    int,
)> {
    match spec_dec_str(s, i) {
        None => None,
        Some((fh, j)) => match spec_dec_str(s, j) {
            None => None,
            Some((mh, j2)) => match spec_dec_item(s, j2) {
                None => None,
                Some((it, j3)) => Some((((fh, mh), it), j3)),
            },
        },
    }
}

/// Decodes `count` entries at `i`.
pub open spec fn spec_dec_entries(s: Seq<char>, i: int, count: nat) -> Option<(
    Seq<((Seq<char>, Seq<char>), (Seq<char>, Seq<(DecoKind, u32, u32, u32, Option<Seq<char>>)>))>,
    int,
)>
    decreases count,
{
    if count == 0 {
        Some((Seq::empty(), i))
    } else {
        match spec_dec_entry(s, i) {
            None => None,
            Some((e, j)) => match spec_dec_entries(s, j, (count - 1) as nat) {
                None => None,
                Some((rest, j2)) => Some((seq![e] + rest, j2)),
            },
        }
    }
}

/// Decodes a whole cache: the count, the entries, and nothing after.
pub open spec fn spec_dec_cache(s: Seq<char>) -> Option<
    Seq<((Seq<char>, Seq<char>), (Seq<char>, Seq<(DecoKind, u32, u32, u32, Option<Seq<char>>)>))>,
> {
    match spec_dec_num(s, 0) {
        None => None,
        Some((count, j)) => match spec_dec_entries(s, j, count) {
            None => None,
            Some((es, j2)) => if j2 == s.len() {
                Some(es)
            } else {
                None
            },
        },
    }
}

/// Length bounds under which a fact survives the round trip.
pub open spec fn spec_fact_wf(f: (DecoKind, u32, u32, u32, Option<Seq<char>>)) -> bool {
    match f.4 {
        Some(d) => d.len() <= u64::MAX,
        None => true,
    }
}

/// Length bounds under which an item survives the round trip.
pub open spec fn spec_item_wf(
    it: (Seq<char>, Seq<(DecoKind, u32, u32, u32, Option<Seq<char>>)>),
) -> bool {
    &&& it.0.len() <= u64::MAX
    &&& it.1.len() <= u64::MAX
    &&& forall|t: int| 0 <= t < it.1.len() ==> spec_fact_wf(#[trigger] it.1[t])
}

/// Length bounds under which an entry survives the round trip.
pub open spec fn spec_entry_wf(
    e: ((Seq<char>, Seq<char>), (Seq<char>, Seq<(DecoKind, u32, u32, u32, Option<Seq<char>>)>)),
) -> bool {
    e.0.0.len() <= u64::MAX && e.0.1.len() <= u64::MAX && spec_item_wf(e.1)
}

/// A concatenation occupying `s[i..j]` splits at its seam.
proof fn lemma_split(s: Seq<char>, i: int, j: int, a: Seq<char>, b: Seq<char>)
    requires
        0 <= i <= j <= s.len(),
        j - i == a.len() + b.len(),
        s.subrange(i, j) == a + b,
    ensures
        s.subrange(i, i + a.len() as int) =~= a,
        s.subrange(i + a.len() as int, j) =~= b,
{
    assert forall|t: int| 0 <= t < a.len() implies #[trigger] s.subrange(
        i,
        i + a.len() as int,
    )[t] == a[t] by {
        assert(s.subrange(i, j)[t] == (a + b)[t]);
    }
    assert forall|t: int| 0 <= t < b.len() implies #[trigger] s.subrange(
        i + a.len() as int,
        j,
    )[t] == b[t] by {
        assert(s.subrange(i, j)[a.len() + t] == (a + b)[a.len() + t]);
        assert(s.subrange(i, j)[a.len() + t] == s[i + (a.len() + t)]);
        assert(s.subrange(i + a.len() as int, j)[t] == s[(i + a.len() as int) + t]);
        assert((a + b)[a.len() + t] == b[t]);
    }
}

/// A digit boundary surrounded as expected pins down `spec_lead_digits`.
proof fn lemma_lead_digits_pos(s: Seq<char>, k: int, j: int)
    requires
        0 <= j <= k <= s.len(),
        forall|t: int| j <= t < k ==> spec_is_digit(#[trigger] s[t]),
        k < s.len() ==> !spec_is_digit(s[k]),
    ensures
        spec_lead_digits(s, j) == k,
    decreases k - j,
{
    if j < k {
        lemma_lead_digits_pos(s, k, j + 1);
    }
}

/// A number decodes back from where it was encoded.
proof fn lemma_rt_num(s: Seq<char>, i: int, n: nat)
    requires
        0 <= i,
        n <= u64::MAX,
        i + spec_enc_num(n).len() <= s.len(),
        s.subrange(i, i + spec_enc_num(n).len() as int) == spec_enc_num(n),
    ensures
        spec_dec_num(s, i) == Some((n, i + spec_enc_num(n).len() as int)),
{
    let d = spec_dec(n);
    crate::numeral::lemma_dec_round_trip(n);
    let e = i + d.len() as int;
    assert forall|t: int| i <= t < e implies spec_is_digit(#[trigger] s[t]) by {
        assert(s.subrange(i, i + spec_enc_num(n).len() as int)[t - i] == spec_enc_num(n)[t - i]);
        assert(spec_enc_num(n)[t - i] == d[t - i]);
    }
    assert(s[e] == ';') by {
        assert(s.subrange(i, i + spec_enc_num(n).len() as int)[e - i] == spec_enc_num(n)[e - i]);
    }
    assert(!spec_is_digit(';'));
    lemma_lead_digits_pos(s, e, i);
    assert(s.subrange(i, e) =~= d);
}

/// A string decodes back from where it was encoded.
proof fn lemma_rt_str(s: Seq<char>, i: int, t: Seq<char>)
    requires
        0 <= i,
        t.len() <= u64::MAX,
        i + spec_enc_str(t).len() <= s.len(),
        s.subrange(i, i + spec_enc_str(t).len() as int) == spec_enc_str(t),
    ensures
        spec_dec_str(s, i) == Some((t, i + spec_enc_str(t).len() as int)),
{
    let a = spec_enc_num(t.len());
    let j = i + spec_enc_str(t).len() as int;
    lemma_split(s, i, j, a, t);
    lemma_rt_num(s, i, t.len());
    assert(s.subrange(i + a.len() as int, j) =~= t);
}

/// An optional string decodes back from where it was encoded.
proof fn lemma_rt_opt(s: Seq<char>, i: int, o: Option<Seq<char>>)
    requires
        0 <= i,
        (o matches Some(d) ==> d.len() <= u64::MAX),
        i + spec_enc_opt(o).len() <= s.len(),
        s.subrange(i, i + spec_enc_opt(o).len() as int) == spec_enc_opt(o),
    ensures
        spec_dec_opt(s, i) == Some((o, i + spec_enc_opt(o).len() as int)),
{
    match o {
        None => {
            lemma_rt_num(s, i, 0);
        },
        Some(d) => {
            let a = spec_enc_num(1);
            let j = i + spec_enc_opt(o).len() as int;
            lemma_split(s, i, j, a, spec_enc_str(d));
            lemma_rt_num(s, i, 1);
            lemma_rt_str(s, i + a.len() as int, d);
        },
    }
}

/// A fact decodes back from where it was encoded.
proof fn lemma_rt_fact(s: Seq<char>, i: int, f: (DecoKind, u32, u32, u32, Option<Seq<char>>))
    requires
        0 <= i,
        spec_fact_wf(f),
        i + spec_enc_fact(f).len() <= s.len(),
        s.subrange(i, i + spec_enc_fact(f).len() as int) == spec_enc_fact(f),
    ensures
        spec_dec_fact(s, i) == Some((f, i + spec_enc_fact(f).len() as int)),
{
    let n1 = spec_enc_num(spec_kind_index(f.0) as nat);
    let n2 = spec_enc_num(f.1 as nat);
    let n3 = spec_enc_num(f.2 as nat);
    let n4 = spec_enc_num(f.3 as nat);
    let op = spec_enc_opt(f.4);
    let j = i + spec_enc_fact(f).len() as int;
    assert(spec_enc_fact(f) =~= n1 + (n2 + n3 + n4 + op));
    lemma_split(s, i, j, n1, n2 + n3 + n4 + op);
    let i1 = i + n1.len() as int;
    assert(n2 + n3 + n4 + op =~= n2 + (n3 + n4 + op));
    lemma_split(s, i1, j, n2, n3 + n4 + op);
    let i2 = i1 + n2.len() as int;
    assert(n3 + n4 + op =~= n3 + (n4 + op));
    lemma_split(s, i2, j, n3, n4 + op);
    let i3 = i2 + n3.len() as int;
    lemma_split(s, i3, j, n4, op);
    let i4 = i3 + n4.len() as int;
    lemma_rt_num(s, i, spec_kind_index(f.0) as nat);
    lemma_rt_num(s, i1, f.1 as nat);
    lemma_rt_num(s, i2, f.2 as nat);
    lemma_rt_num(s, i3, f.3 as nat);
    lemma_rt_opt(s, i4, f.4);
    assert(spec_kind_of(spec_kind_index(f.0)) == f.0);
}

/// A fact list decodes back from where it was encoded.
proof fn lemma_rt_facts(s: Seq<char>, i: int, fs: Seq<(DecoKind, u32, u32, u32, Option<Seq<char>>)>)
    requires
        0 <= i,
        forall|t: int| 0 <= t < fs.len() ==> spec_fact_wf(#[trigger] fs[t]),
        i + spec_enc_facts(fs).len() <= s.len(),
        s.subrange(i, i + spec_enc_facts(fs).len() as int) == spec_enc_facts(fs),
    ensures
        spec_dec_facts(s, i, fs.len()) == Some((fs, i + spec_enc_facts(fs).len() as int)),
    decreases fs.len(),
{
    if fs.len() == 0 {
        assert(spec_dec_facts(s, i, 0) == Some((Seq::<(
            DecoKind,
            u32,
            u32,
            u32,
            Option<Seq<char>>,
        )>::empty(), i)));
        assert(fs =~= Seq::<(DecoKind, u32, u32, u32, Option<Seq<char>>)>::empty());
    } else {
        let f = fs.first();
        let rest = fs.drop_first();
        let j = i + spec_enc_facts(fs).len() as int;
        lemma_split(s, i, j, spec_enc_fact(f), spec_enc_facts(rest));
        lemma_rt_fact(s, i, f);
        let i1 = i + spec_enc_fact(f).len() as int;
        assert(forall|t: int| 0 <= t < rest.len() ==> spec_fact_wf(#[trigger] rest[t])) by {
            assert(forall|t: int| 0 <= t < rest.len() ==> rest[t] == fs[t + 1]);
        }
        lemma_rt_facts(s, i1, rest);
        assert(seq![f] + rest =~= fs);
    }
}

/// An item decodes back from where it was encoded.
proof fn lemma_rt_item(
    s: Seq<char>,
    i: int,
    it: (Seq<char>, Seq<(DecoKind, u32, u32, u32, Option<Seq<char>>)>),
)
    requires
        0 <= i,
        spec_item_wf(it),
        i + spec_enc_item(it).len() <= s.len(),
        s.subrange(i, i + spec_enc_item(it).len() as int) == spec_enc_item(it),
    ensures
        spec_dec_item(s, i) == Some((it, i + spec_enc_item(it).len() as int)),
{
    let a = spec_enc_str(it.0);
    let b = spec_enc_num(it.1.len());
    let c = spec_enc_facts(it.1);
    let j = i + spec_enc_item(it).len() as int;
    assert(spec_enc_item(it) =~= a + (b + c));
    lemma_split(s, i, j, a, b + c);
    let i1 = i + a.len() as int;
    lemma_split(s, i1, j, b, c);
    let i2 = i1 + b.len() as int;
    lemma_rt_str(s, i, it.0);
    lemma_rt_num(s, i1, it.1.len());
    lemma_rt_facts(s, i2, it.1);
}

/// An entry decodes back from where it was encoded.
proof fn lemma_rt_entry(
    s: Seq<char>,
    i: int,
    e: ((Seq<char>, Seq<char>), (Seq<char>, Seq<(DecoKind, u32, u32, u32, Option<Seq<char>>)>)),
)
    requires
        0 <= i,
        spec_entry_wf(e),
        i + spec_enc_entry(e).len() <= s.len(),
        s.subrange(i, i + spec_enc_entry(e).len() as int) == spec_enc_entry(e),
    ensures
        spec_dec_entry(s, i) == Some((e, i + spec_enc_entry(e).len() as int)),
{
    let a = spec_enc_str(e.0.0);
    let b = spec_enc_str(e.0.1);
    let c = spec_enc_item(e.1);
    let j = i + spec_enc_entry(e).len() as int;
    assert(spec_enc_entry(e) =~= a + (b + c));
    lemma_split(s, i, j, a, b + c);
    let i1 = i + a.len() as int;
    lemma_split(s, i1, j, b, c);
    let i2 = i1 + b.len() as int;
    lemma_rt_str(s, i, e.0.0);
    lemma_rt_str(s, i1, e.0.1);
    lemma_rt_item(s, i2, e.1);
}

/// An entry list decodes back from where it was encoded.
proof fn lemma_rt_entries(
    s: Seq<char>,
    i: int,
    es: Seq<((Seq<char>, Seq<char>), (Seq<char>, Seq<(DecoKind, u32, u32, u32, Option<Seq<char>>)>))>,
)
    requires
        0 <= i,
        forall|t: int| 0 <= t < es.len() ==> spec_entry_wf(#[trigger] es[t]),
        i + spec_enc_entries(es).len() <= s.len(),
        s.subrange(i, i + spec_enc_entries(es).len() as int) == spec_enc_entries(es),
    ensures
        spec_dec_entries(s, i, es.len()) == Some((es, i + spec_enc_entries(es).len() as int)),
    decreases es.len(),
{
    if es.len() == 0 {
        assert(es =~= Seq::<(
            (Seq<char>, Seq<char>),
            (Seq<char>, Seq<(DecoKind, u32, u32, u32, Option<Seq<char>>)>),
        )>::empty());
    } else {
        let e = es.first();
        let rest = es.drop_first();
        let j = i + spec_enc_entries(es).len() as int;
        lemma_split(s, i, j, spec_enc_entry(e), spec_enc_entries(rest));
        lemma_rt_entry(s, i, e);
        let i1 = i + spec_enc_entry(e).len() as int;
        assert(forall|t: int| 0 <= t < rest.len() ==> spec_entry_wf(#[trigger] rest[t])) by {
            assert(forall|t: int| 0 <= t < rest.len() ==> rest[t] == es[t + 1]);
        }
        lemma_rt_entries(s, i1, rest);
        assert(seq![e] + rest =~= es);
    }
}

/// The encoding of one more list element extends the encoding of the
/// prefix.
proof fn lemma_enc_facts_snoc(fs: Seq<(DecoKind, u32, u32, u32, Option<Seq<char>>)>, k: int)
    requires
        0 <= k < fs.len(),
    ensures
        spec_enc_facts(fs.take(k + 1)) =~= spec_enc_facts(fs.take(k)) + spec_enc_fact(fs[k]),
    decreases k,
{
    if k == 0 {
        assert(fs.take(1) =~= seq![fs[0]]);
        assert(fs.take(1).drop_first() =~= Seq::<(
            DecoKind,
            u32,
            u32,
            u32,
            Option<Seq<char>>,
        )>::empty());
        assert(fs.take(0) =~= Seq::<(DecoKind, u32, u32, u32, Option<Seq<char>>)>::empty());
    } else {
        let t = fs.drop_first();
        assert(fs.take(k + 1).drop_first() =~= t.take(k));
        assert(fs.take(k).drop_first() =~= t.take(k - 1));
        assert(fs.take(k + 1).first() == fs[0]);
        assert(fs.take(k).first() == fs[0]);
        lemma_enc_facts_snoc(t, k - 1);
        assert(t[k - 1] == fs[k]);
    }
}

/// The encoding of one more entry extends the encoding of the prefix.
proof fn lemma_enc_entries_snoc(
    es: Seq<((Seq<char>, Seq<char>), (Seq<char>, Seq<(DecoKind, u32, u32, u32, Option<Seq<char>>)>))>,
    k: int,
)
    requires
        0 <= k < es.len(),
    ensures
        spec_enc_entries(es.take(k + 1)) =~= spec_enc_entries(es.take(k)) + spec_enc_entry(
            es[k],
        ),
    decreases k,
{
    if k == 0 {
        assert(es.take(1) =~= seq![es[0]]);
        assert(es.take(1).drop_first() =~= Seq::<(
            (Seq<char>, Seq<char>),
            (Seq<char>, Seq<(DecoKind, u32, u32, u32, Option<Seq<char>>)>),
        )>::empty());
        assert(es.take(0) =~= Seq::<(
            (Seq<char>, Seq<char>),
            (Seq<char>, Seq<(DecoKind, u32, u32, u32, Option<Seq<char>>)>),
        )>::empty());
    } else {
        let t = es.drop_first();
        assert(es.take(k + 1).drop_first() =~= t.take(k));
        assert(es.take(k).drop_first() =~= t.take(k - 1));
        assert(es.take(k + 1).first() == es[0]);
        assert(es.take(k).first() == es[0]);
        lemma_enc_entries_snoc(t, k - 1);
        assert(t[k - 1] == es[k]);
    }
}

/// Appends one number field.
fn push_num(out: &mut String, n: u64)
    ensures
        final(out)@ == old(out)@ + spec_enc_num(n as nat),
{
    out.append(crate::numeral::dec_string(n).as_str());
    out.append(";");
    proof {
        reveal_strlit(";");
        assert(";"@ =~= seq![';']);
        assert(out@ =~= old(out)@ + spec_enc_num(n as nat));
    }
}

/// Appends one string field.
fn push_str_field(out: &mut String, t: &str)
    ensures
        final(out)@ == old(out)@ + spec_enc_str(t@),
{
    let n = t.unicode_len();
    push_num(out, n as u64);
    out.append(t);
    proof {
        assert(out@ =~= old(out)@ + spec_enc_str(t@));
    }
}

/// The stored index of a kind.
fn kind_index(k: DecoKind) -> (r: u64)
    ensures
        r == spec_kind_index(k),
{
    match k {
        DecoKind::Lifetime => 0,
        DecoKind::ImmBorrow => 1,
        DecoKind::MutBorrow => 2,
        DecoKind::Move => 3,
        DecoKind::Call => 4,
        DecoKind::SharedMut => 5,
        DecoKind::Outlive => 6,
    }
}

/// The kind a stored index denotes.
fn kind_of(i: u64) -> (r: DecoKind)
    requires
        i <= 6,
    ensures
        r == spec_kind_of(i as int),
{
    if i == 0 {
        DecoKind::Lifetime
    } else if i == 1 {
        DecoKind::ImmBorrow
    } else if i == 2 {
        DecoKind::MutBorrow
    } else if i == 3 {
        DecoKind::Move
    } else if i == 4 {
        DecoKind::Call
    } else if i == 5 {
        DecoKind::SharedMut
    } else {
        DecoKind::Outlive
    }
}

/// Appends one fact.
fn push_fact(out: &mut String, f: &crate::workspace::DecorationFact)
    ensures
        final(out)@ == old(out)@ + spec_enc_fact(crate::workspace::fact_model(*f)),
{
    push_num(out, kind_index(f.kind));
    push_num(out, f.line as u64);
    push_num(out, f.start_char as u64);
    push_num(out, f.end_char as u64);
    match &f.detail {
        None => {
            push_num(out, 0);
        },
        Some(d) => {
            push_num(out, 1);
            push_str_field(out, d.as_str());
        },
    }
    assert(out@ =~= old(out)@ + spec_enc_fact(crate::workspace::fact_model(*f)));
}

/// Appends one item.
fn push_item(out: &mut String, it: &Item)
    ensures
        final(out)@ == old(out)@ + spec_enc_item(item_model(*it)),
{
    let ghost im = item_model(*it);
    push_str_field(out, it.name.as_str());
    push_num(out, it.facts.len() as u64);
    let ghost base = out@;
    let mut k: usize = 0;
    while k < it.facts.len()
        invariant
            0 <= k <= it.facts@.len(),
            im == item_model(*it),
            out@ == base + spec_enc_facts(im.1.take(k as int)),
        decreases it.facts@.len() - k,
    {
        assert(im.1[k as int] == crate::workspace::fact_model(it.facts@[k as int]));
        push_fact(out, &it.facts[k]);
        proof {
            lemma_enc_facts_snoc(im.1, k as int);
            assert(out@ =~= base + spec_enc_facts(im.1.take(k + 1)));
        }
        k = k + 1;
    }
    proof {
        assert(im.1.take(im.1.len() as int) =~= im.1);
        assert(out@ =~= old(out)@ + spec_enc_item(im));
    }
}

/// Renders the whole cache in its durable form.
pub fn encode_cache(cache: &ResultCache) -> (r: String)
    ensures
        r@ == spec_enc_cache(
            cache.entries@.map_values(|p: (Fingerprint, Item)| (p.0.model(), item_model(p.1))),
        ),
{
    let ghost es = cache.entries@.map_values(
        |p: (Fingerprint, Item)| (p.0.model(), item_model(p.1)),
    );
    let mut out = String::new();
    push_num(&mut out, cache.entries.len() as u64);
    let ghost base = out@;
    let mut k: usize = 0;
    while k < cache.entries.len()
        invariant
            0 <= k <= cache.entries@.len(),
            es == cache.entries@.map_values(
                |p: (Fingerprint, Item)| (p.0.model(), item_model(p.1)),
            ),
            out@ == base + spec_enc_entries(es.take(k as int)),
        decreases cache.entries@.len() - k,
    {
        assert(es[k as int] == (
            cache.entries@[k as int].0.model(),
            item_model(cache.entries@[k as int].1),
        ));
        let ghost before = out@;
        push_str_field(&mut out, cache.entries[k].0.file_hash.as_str());
        push_str_field(&mut out, cache.entries[k].0.mir_hash.as_str());
        push_item(&mut out, &cache.entries[k].1);
        proof {
            assert(out@ =~= before + spec_enc_entry(es[k as int]));
            lemma_enc_entries_snoc(es, k as int);
            assert(out@ =~= base + spec_enc_entries(es.take(k + 1)));
        }
        k = k + 1;
    }
    proof {
        assert(es.take(es.len() as int) =~= es);
        assert(out@ =~= spec_enc_cache(es));
    }
    out
}

/// Round trip of the durable cache form: decoding what encoding produced
/// yields exactly the encoded entries, in order. Rehydrating them into a
/// cache therefore reproduces an equivalent mapping.
pub proof fn lemma_cache_round_trip(
    es: Seq<((Seq<char>, Seq<char>), (Seq<char>, Seq<(DecoKind, u32, u32, u32, Option<Seq<char>>)>))>,
)
    requires
        es.len() <= u64::MAX,
        forall|t: int| 0 <= t < es.len() ==> spec_entry_wf(#[trigger] es[t]),
    ensures
        spec_dec_cache(spec_enc_cache(es)) == Some(es),
{
    let s = spec_enc_cache(es);
    let a = spec_enc_num(es.len());
    let b = spec_enc_entries(es);
    assert(s.subrange(0, s.len() as int) =~= a + b);
    lemma_split(s, 0, s.len() as int, a, b);
    lemma_rt_num(s, 0, es.len());
    lemma_rt_entries(s, a.len() as int, es);
}

/// Executable digit test.
fn is_digit_c(c: char) -> (r: bool)
    ensures
        r == spec_is_digit(c),
{
    c == '0' || c == '1' || c == '2' || c == '3' || c == '4' || c == '5' || c == '6' || c == '7'
        || c == '8' || c == '9'
}

/// Every character before the digit boundary is a digit.
proof fn lemma_digits_before_boundary(s: Seq<char>, i: int)
    requires
        0 <= i <= s.len(),
    ensures
        i <= spec_lead_digits(s, i) <= s.len(),
        forall|t: int| i <= t < spec_lead_digits(s, i) ==> spec_is_digit(#[trigger] s[t]),
    decreases s.len() - i,
{
    if i < s.len() && spec_is_digit(s[i]) {
        lemma_digits_before_boundary(s, i + 1);
    }
}

/// Reads one number field.
fn dnum(s: &str, i: usize) -> (r: Option<(u64, usize)>)
    requires
        i <= s@.len(),
    ensures
        match r {
            Some((n, j)) => spec_dec_num(s@, i as int) == Some((n as nat, j as int)) && i < j
                <= s@.len(),
            None => spec_dec_num(s@, i as int) is None,
        },
{
    let n_len = s.unicode_len();
    let mut e = i;
    while e < n_len && is_digit_c(s.get_char(e))
        invariant
            i <= e <= n_len == s@.len(),
            spec_lead_digits(s@, i as int) == spec_lead_digits(s@, e as int),
        decreases n_len - e,
    {
        e = e + 1;
    }
    assert(spec_lead_digits(s@, e as int) == e);
    if e == i || e == n_len {
        return None;
    }
    if s.get_char(e) != ';' {
        return None;
    }
    match crate::numeral::parse_dec_range(s, i, e) {
        Some(v) => Some((v, e + 1)),
        None => {
            proof {
                lemma_digits_before_boundary(s@, i as int);
                assert(s@.subrange(i as int, e as int).len() > 0);
            }
            None
        },
    }
}

/// Reads one string field.
fn dstr(s: &str, i: usize) -> (r: Option<(String, usize)>)
    requires
        i <= s@.len(),
    ensures
        match r {
            Some((t, j)) => spec_dec_str(s@, i as int) == Some((t@, j as int)) && i < j
                <= s@.len(),
            None => spec_dec_str(s@, i as int) is None,
        },
{
    let n_len = s.unicode_len();
    match dnum(s, i) {
        None => None,
        Some((n, j)) => {
            if n > (n_len - j) as u64 {
                return None;
            }
            let end = j + (n as usize);
            let t = s.substring_char(j, end).to_owned();
            Some((t, end))
        },
    }
}

/// Reads one fact.
fn dfact(s: &str, i: usize) -> (r: Option<(crate::workspace::DecorationFact, usize)>)
    requires
        i <= s@.len(),
    ensures
        match r {
            Some((f, j)) => spec_dec_fact(s@, i as int) == Some((
                crate::workspace::fact_model(f),
                j as int,
            )) && i < j <= s@.len(),
            None => spec_dec_fact(s@, i as int) is None,
        },
{
    let (ki, j1) = match dnum(s, i) {
        Some(x) => x,
        None => {
            return None;
        },
    };
    if ki > 6 {
        return None;
    }
    let (line, j2) = match dnum(s, j1) {
        Some(x) => x,
        None => {
            return None;
        },
    };
    if line > u32::MAX as u64 {
        return None;
    }
    let (sc, j3) = match dnum(s, j2) {
        Some(x) => x,
        None => {
            return None;
        },
    };
    if sc > u32::MAX as u64 {
        return None;
    }
    let (ec, j4) = match dnum(s, j3) {
        Some(x) => x,
        None => {
            return None;
        },
    };
    if ec > u32::MAX as u64 {
        return None;
    }
    let (flag, j5) = match dnum(s, j4) {
        Some(x) => x,
        None => {
            return None;
        },
    };
    if flag == 0 {
        let f = crate::workspace::DecorationFact {
            kind: kind_of(ki),
            line: line as u32,
            start_char: sc as u32,
            end_char: ec as u32,
            detail: None,
        };
        Some((f, j5))
    } else if flag == 1 {
        let (d, j6) = match dstr(s, j5) {
            Some(x) => x,
            None => {
                return None;
            },
        };
        let f = crate::workspace::DecorationFact {
            kind: kind_of(ki),
            line: line as u32,
            start_char: sc as u32,
            end_char: ec as u32,
            detail: Some(d),
        };
        Some((f, j6))
    } else {
        None
    }
}

/// Reads `count` facts.
fn dfacts(s: &str, i: usize, count: u64) -> (r: Option<(Vec<crate::workspace::DecorationFact>, usize)>)
    requires
        i <= s@.len(),
    ensures
        match r {
            Some((fs, j)) => spec_dec_facts(s@, i as int, count as nat) == Some((
                fs@.map_values(|f: crate::workspace::DecorationFact| crate::workspace::fact_model(f)),
                j as int,
            )) && i <= j <= s@.len(),
            None => spec_dec_facts(s@, i as int, count as nat) is None,
        },
{
    let mut out: Vec<crate::workspace::DecorationFact> = Vec::new();
    let mut pos = i;
    let mut k: u64 = 0;
    while k < count
        invariant
            i <= pos <= s@.len(),
            0 <= k <= count,
            ({
                let acc = out@.map_values(
                    |f: crate::workspace::DecorationFact| crate::workspace::fact_model(f),
                );
                match spec_dec_facts(s@, pos as int, (count - k) as nat) {
                    Some((rest, end)) => spec_dec_facts(s@, i as int, count as nat) == Some((
                        acc + rest,
                        end,
                    )),
                    None => spec_dec_facts(s@, i as int, count as nat) is None,
                }
            }),
        decreases count - k,
    {
        let ghost acc0 = out@.map_values(
            |f: crate::workspace::DecorationFact| crate::workspace::fact_model(f),
        );
        let (f, j) = match dfact(s, pos) {
            Some(x) => x,
            None => {
                return None;
            },
        };
        out.push(f);
        proof {
            let acc1 = out@.map_values(
                |f: crate::workspace::DecorationFact| crate::workspace::fact_model(f),
            );
            assert(acc1 =~= acc0 + seq![crate::workspace::fact_model(f)]);
            match spec_dec_facts(s@, j as int, (count - k - 1) as nat) {
                Some((rest, end)) => {
                    assert(acc0 + (seq![crate::workspace::fact_model(f)] + rest) =~= acc1
                        + rest);
                },
                None => {},
            }
        }
        pos = j;
        k = k + 1;
    }
    proof {
        let acc = out@.map_values(
            |f: crate::workspace::DecorationFact| crate::workspace::fact_model(f),
        );
        assert(acc + Seq::<(DecoKind, u32, u32, u32, Option<Seq<char>>)>::empty() =~= acc);
    }
    Some((out, pos))
}

/// Reads one item.
fn ditem(s: &str, i: usize) -> (r: Option<(Item, usize)>)
    requires
        i <= s@.len(),
    ensures
        match r {
            Some((it, j)) => spec_dec_item(s@, i as int) == Some((item_model(it), j as int)) && i
                <= j <= s@.len(),
            None => spec_dec_item(s@, i as int) is None,
        },
{
    let (name, j) = match dstr(s, i) {
        Some(x) => x,
        None => {
            return None;
        },
    };
    let (count, j2) = match dnum(s, j) {
        Some(x) => x,
        None => {
            return None;
        },
    };
    let (facts, j3) = match dfacts(s, j2, count) {
        Some(x) => x,
        None => {
            return None;
        },
    };
    Some((Item { name, facts }, j3))
}

/// Reads one entry.
fn dentry(s: &str, i: usize) -> (r: Option<((Fingerprint, Item), usize)>)
    requires
        i <= s@.len(),
    ensures
        match r {
            Some(((f, it), j)) => spec_dec_entry(s@, i as int) == Some((
                (f.model(), item_model(it)),
                j as int,
            )) && i <= j <= s@.len(),
            None => spec_dec_entry(s@, i as int) is None,
        },
{
    let (fh, j) = match dstr(s, i) {
        Some(x) => x,
        None => {
            return None;
        },
    };
    let (mh, j2) = match dstr(s, j) {
        Some(x) => x,
        None => {
            return None;
        },
    };
    let (it, j3) = match ditem(s, j2) {
        Some(x) => x,
        None => {
            return None;
        },
    };
    Some(((Fingerprint::new(fh, mh), it), j3))
}

/// Rehydrates a cache from its durable form: the decoded entries are
/// inserted in order, so a duplicated fingerprint in a hand-edited file
/// keeps its last payload, exactly as the map semantics dictate.
pub fn decode_cache(s: &str) -> (r: Option<ResultCache>)
    ensures
        match r {
            Some(c) => {
                &&& spec_dec_cache(s@) matches Some(es)
                &&& c.model() == spec_assoc_map(es)
                &&& c.wf()
            },
            None => spec_dec_cache(s@) is None,
        },
{
    let (count, j) = match dnum(s, 0) {
        Some(x) => x,
        None => {
            return None;
        },
    };
    let mut cache = ResultCache::new();
    let mut pos = j;
    let mut k: u64 = 0;
    let ghost mut done: Seq<((Seq<char>, Seq<char>), (Seq<char>, Seq<(DecoKind, u32, u32, u32, Option<Seq<char>>)>))> = Seq::empty();
    while k < count
        invariant
            0 <= pos <= s@.len(),
            0 <= k <= count,
            spec_dec_num(s@, 0) == Some((count as nat, j as int)),
            cache.wf(),
            cache.model() == spec_assoc_map(done),
            ({
                match spec_dec_entries(s@, pos as int, (count - k) as nat) {
                    Some((rest, end)) => spec_dec_entries(s@, j as int, count as nat) == Some((
                        done + rest,
                        end,
                    )),
                    None => spec_dec_entries(s@, j as int, count as nat) is None,
                }
            }),
        decreases count - k,
    {
        let ((f, it), j2) = match dentry(s, pos) {
            Some(x) => x,
            None => {
                return None;
            },
        };
        proof {
            match spec_dec_entries(s@, j2 as int, (count - k - 1) as nat) {
                Some((rest, end)) => {
                    assert(done + (seq![(f.model(), item_model(it))] + rest) =~= (done
                        + seq![(f.model(), item_model(it))]) + rest);
                },
                None => {},
            }
        }
        let ghost fm = f.model();
        let ghost im = item_model(it);
        cache.insert(f, it);
        proof {
            let d2 = done + seq![(fm, im)];
            assert(d2.drop_last() =~= done);
            assert(d2.last() == (fm, im));
            assert(spec_assoc_map(d2) == spec_assoc_map(done).insert(fm, im));
            done = d2;
        }
        pos = j2;
        k = k + 1;
    }
    proof {
        match spec_dec_entries(s@, pos as int, 0) {
            Some((rest, end)) => {
                assert(done + rest =~= done);
            },
            None => {},
        }
    }
    let n_len = s.unicode_len();
    if pos != n_len {
        return None;
    }
    Some(cache)
}

} // verus!
