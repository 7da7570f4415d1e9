//! Parsing a serialized value gives the value back.
//!
//! The main result, `lemma_parse_ser_json`, states that for every
//! well-formed JSON value `v`, parsing the text `ser(v)` yields exactly
//! `v`. The proof follows the structure of the serializer: digits, string
//! bodies, then values, array elements and object members by mutual
//! induction.

use vstd::prelude::*;
use crate::json::{JsonView, json_wf};
use crate::ser::{esc, esc_char, ser, ser_items, ser_pairs};
use crate::parse::{skip_ws, p_string, p_number, p_value, p_elems, p_members, p_json,
    digits_end, horner, unescaped};
use crate::text::{is_ws_char, is_digit_char, digit_val, digit_char, dec_digits,
    lemma_dec_digits_are_digits};

verus! {

/// The text `t` stands at position `i` of `s`.
pub open spec fn has_at(s: Seq<char>, i: int, t: Seq<char>) -> bool {
    &&& 0 <= i
    &&& i + t.len() <= s.len()
    &&& s.subrange(i, i + t.len()) == t
}

/// A text standing at `i` splits into its two halves.
pub proof fn lemma_has_at_split(s: Seq<char>, i: int, a: Seq<char>, b: Seq<char>)
    requires
        has_at(s, i, a + b),
    ensures
        has_at(s, i, a),
        has_at(s, i + a.len(), b),
{
    let t = a + b;
    assert forall|k: int| 0 <= k < a.len() implies s.subrange(i, i + a.len())[k] == a[k] by {
        assert(s.subrange(i, i + t.len())[k] == t[k]);
        assert(t[k] == a[k]);
    }
    assert(s.subrange(i, i + a.len()) =~= a);
    assert forall|k: int| 0 <= k < b.len() implies s.subrange(i + a.len(), i + t.len())[k]
        == b[k] by {
        assert(s.subrange(i, i + t.len())[a.len() + k] == t[a.len() + k]);
        assert(t[a.len() + k] == b[k]);
    }
    assert(s.subrange(i + a.len(), i + t.len()) =~= b);
}

/// Powers of ten.
pub open spec fn pow10(k: nat) -> nat
    decreases k,
{
    if k == 0 {
        1
    } else {
        10 * pow10((k - 1) as nat)
    }
}

pub proof fn lemma_pow10_pos(k: nat)
    ensures
        pow10(k) >= 1,
    decreases k,
{
    if k > 0 {
        lemma_pow10_pos((k - 1) as nat);
    }
}

/// The numeric value of a digit string, most significant digit first.
pub open spec fn valf(ds: Seq<char>) -> int
    decreases ds.len(),
{
    if ds.len() == 0 {
        0
    } else {
        valf(ds.drop_last()) * 10 + digit_val(ds.last())
    }
}

/// A digit character carries its digit's value.
pub proof fn lemma_digit_char_val(d: int)
    requires
        0 <= d < 10,
    ensures
        digit_val(digit_char(d)) == d,
        is_digit_char(digit_char(d)),
{
}

/// The decimal notation of `n` has value `n`.
pub proof fn lemma_valf_dec_digits(n: nat)
    ensures
        valf(dec_digits(n)) == n,
    decreases n,
{
    if n < 10 {
        let ds = dec_digits(n);
        assert(ds =~= seq![digit_char(n as int)]);
        assert(ds.drop_last() =~= Seq::<char>::empty());
        assert(valf(Seq::<char>::empty()) == 0);
        assert(ds.last() == digit_char(n as int));
        lemma_digit_char_val(n as int);
        assert(valf(ds) == valf(ds.drop_last()) * 10 + digit_val(ds.last()));
    } else {
        lemma_valf_dec_digits(n / 10);
        let ds = dec_digits(n);
        assert(ds == dec_digits(n / 10) + seq![digit_char((n % 10) as int)]);
        assert(ds.drop_last() =~= dec_digits(n / 10));
        assert(ds.last() == digit_char((n % 10) as int));
        lemma_digit_char_val((n % 10) as int);
        assert(valf(ds) == valf(ds.drop_last()) * 10 + digit_val(ds.last()));
        assert((n / 10) * 10 + (n % 10) == n) by {
            vstd::arithmetic::div_mod::lemma_fundamental_div_mod(n as int, 10);
        }
    }
}

/// Digit strings have non-negative value.
pub proof fn lemma_valf_nonneg(ds: Seq<char>)
    requires
        forall|k: int| 0 <= k < ds.len() ==> is_digit_char(ds[k]),
    ensures
        valf(ds) >= 0,
    decreases ds.len(),
{
    if ds.len() > 0 {
        lemma_valf_nonneg(ds.drop_last());
    }
}

/// Front decomposition of the value of a digit string.
pub proof fn lemma_valf_front(ds: Seq<char>)
    requires
        ds.len() >= 1,
    ensures
        valf(ds) == digit_val(ds[0]) * pow10((ds.len() - 1) as nat) + valf(ds.drop_first()),
    decreases ds.len(),
{
    if ds.len() == 1 {
        assert(ds.drop_last() =~= Seq::<char>::empty());
        assert(ds.drop_first() =~= Seq::<char>::empty());
        assert(valf(Seq::<char>::empty()) == 0);
        assert(ds.last() == ds[0]);
        assert(valf(ds) == valf(ds.drop_last()) * 10 + digit_val(ds.last()));
        assert(pow10(0) == 1);
        assert((ds.len() - 1) as nat == 0);
        assert(pow10((ds.len() - 1) as nat) == 1);
        assert(digit_val(ds[0]) * pow10((ds.len() - 1) as nat) == digit_val(ds[0]) * 1);
        assert(digit_val(ds[0]) * 1 == digit_val(ds[0])) by (nonlinear_arith);
        assert(valf(ds) == digit_val(ds[0]) * pow10((ds.len() - 1) as nat)
            + valf(ds.drop_first()));
    } else {
        let dl = ds.drop_last();
        lemma_valf_front(dl);
        let df = ds.drop_first();
        let d0 = digit_val(ds[0]);
        let p = pow10((ds.len() - 2) as nat);
        assert(dl[0] == ds[0]);
        assert(dl.drop_first() =~= df.drop_last());
        assert(df.last() == ds.last());
        assert(valf(ds) == valf(dl) * 10 + digit_val(ds.last()));
        assert(valf(dl) == d0 * p + valf(df.drop_last()));
        assert((d0 * p + valf(df.drop_last())) * 10 == (d0 * p) * 10 + valf(df.drop_last()) * 10)
            by (nonlinear_arith);
        assert((d0 * p) * 10 == d0 * (10 * p)) by (nonlinear_arith);
        assert(pow10((ds.len() - 1) as nat) == 10 * p);
        assert(valf(df) == valf(df.drop_last()) * 10 + digit_val(df.last()));
        assert(valf(ds) == d0 * pow10((ds.len() - 1) as nat) + valf(df));
        assert(valf(ds) == digit_val(ds[0]) * pow10((ds.len() - 1) as nat)
            + valf(ds.drop_first()));
    }
}

/// Where the whole run fits in 64 bits, the left-to-right accumulation
/// succeeds and yields the value of the digits.
pub proof fn lemma_horner_digits(s: Seq<char>, i: int, j: int, acc: u64)
    requires
        0 <= i <= j <= s.len(),
        forall|k: int| i <= k < j ==> is_digit_char(s[k]),
        acc * pow10((j - i) as nat) + valf(s.subrange(i, j)) <= u64::MAX,
    ensures
        horner(s, i, j, acc) == Some((acc * pow10((j - i) as nat) + valf(
            s.subrange(i, j),
        )) as u64),
    decreases j - i,
{
    let sub = s.subrange(i, j);
    if i == j {
        assert(sub =~= Seq::<char>::empty());
        assert(valf(sub) == 0);
        assert(pow10(0) == 1);
        assert(horner(s, i, j, acc) == Some(acc));
        assert((j - i) as nat == 0);
        assert(pow10((j - i) as nat) == 1);
        assert(acc * pow10((j - i) as nat) == acc * 1);
        assert(acc * 1 == acc) by (nonlinear_arith);
        assert(acc * pow10((j - i) as nat) + valf(s.subrange(i, j)) == acc);
    } else {
        let d = digit_val(s[i]);
        let lm1 = (j - i - 1) as nat;
        let p = pow10(lm1);
        lemma_pow10_pos(lm1);
        lemma_valf_front(sub);
        assert(sub[0] == s[i]);
        assert(sub.drop_first() =~= s.subrange(i + 1, j));
        let rest = s.subrange(i + 1, j);
        assert forall|k: int| 0 <= k < rest.len() implies is_digit_char(rest[k]) by {
            assert(rest[k] == s[i + 1 + k]);
        }
        lemma_valf_nonneg(rest);
        assert(0 <= d <= 9);
        let total = acc * pow10((j - i) as nat) + valf(sub);
        assert(pow10((j - i) as nat) == 10 * p);
        assert(acc * (10 * p) == (acc * 10) * p) by (nonlinear_arith);
        assert(valf(sub) == d * p + valf(rest));
        assert((acc * 10) * p + d * p == (acc * 10 + d) * p) by (nonlinear_arith);
        assert(total == (acc * 10 + d) * p + valf(rest));
        assert(acc * 10 + d <= (acc * 10 + d) * p) by (nonlinear_arith)
            requires
                p >= 1,
                acc * 10 + d >= 0,
        ;
        assert(acc * 10 + d <= u64::MAX);
        assert(acc <= (u64::MAX - d) / 10) by {
            vstd::arithmetic::div_mod::lemma_fundamental_div_mod((u64::MAX - d) as int, 10);
        }
        let acc2 = (acc * 10 + d) as u64;
        assert(acc2 == acc * 10 + d);
        assert(acc2 * pow10(lm1) + valf(rest) == total);
        lemma_horner_digits(s, i + 1, j, acc2);
        assert(horner(s, i + 1, j, acc2) == Some(total as u64));
        assert(horner(s, i, j, acc) == horner(s, i + 1, j, acc2));
        assert(horner(s, i, j, acc) == Some((acc * pow10((j - i) as nat) + valf(
            s.subrange(i, j),
        )) as u64));
    }
}

/// `digits_end` stops exactly at the end of a digit run.
pub proof fn lemma_digits_end_at(s: Seq<char>, i: int, k: int)
    requires
        0 <= i <= k <= s.len(),
        forall|m: int| i <= m < k ==> is_digit_char(s[m]),
        k == s.len() || !is_digit_char(s[k]),
    ensures
        digits_end(s, i) == k,
    decreases k - i,
{
    if i < k {
        lemma_digits_end_at(s, i + 1, k);
    }
}

/// Parsing the decimal notation of `n` gives `n` back.
pub proof fn lemma_parse_dec(s: Seq<char>, i: int, n: u64)
    requires
        has_at(s, i, dec_digits(n as nat)),
        i + dec_digits(n as nat).len() == s.len() || !is_digit_char(
            s[i + dec_digits(n as nat).len()],
        ),
    ensures
        p_number(s, i) == Some((JsonView::UInt(n), i + dec_digits(n as nat).len())),
{
    let ds = dec_digits(n as nat);
    let j = i + ds.len();
    lemma_dec_digits_are_digits(n as nat);
    assert forall|k: int| i <= k < j implies is_digit_char(s[k]) by {
        assert(s.subrange(i, j)[k - i] == s[k]);
        assert(ds[k - i] == s[k]);
    }
    assert(is_digit_char(s[i]));
    assert(!(s[i] == '-'));
    lemma_digits_end_at(s, i, j);
    assert(s.subrange(i, j) == ds);
    lemma_valf_dec_digits(n as nat);
    lemma_horner_digits(s, i, j, 0);
    assert(0 * pow10((j - i) as nat) == 0);
    assert(horner(s, i, j, 0) == Some(n));
}


/// Index form of `has_at`.
pub proof fn lemma_has_at_index(s: Seq<char>, i: int, t: Seq<char>, k: int)
    requires
        has_at(s, i, t),
        0 <= k < t.len(),
    ensures
        s[i + k] == t[k],
{
    assert(s.subrange(i, i + t.len())[k] == t[k]);
}

/// Parsing a negative decimal notation.
pub proof fn lemma_parse_neg(s: Seq<char>, i: int, m: u64)
    requires
        1 <= m <= 9223372036854775808u64,
        has_at(s, i, seq!['-'] + dec_digits(m as nat)),
        i + 1 + dec_digits(m as nat).len() == s.len() || !is_digit_char(
            s[i + 1 + dec_digits(m as nat).len()],
        ),
    ensures
        p_number(s, i) == Some((JsonView::Int((-(m as int)) as i64), i + 1 + dec_digits(
            m as nat,
        ).len())),
{
    let ds = dec_digits(m as nat);
    let j = i + 1 + ds.len();
    lemma_has_at_split(s, i, seq!['-'], ds);
    lemma_has_at_index(s, i, seq!['-'] + ds, 0);
    assert(s[i] == '-');
    lemma_dec_digits_are_digits(m as nat);
    assert forall|k: int| i + 1 <= k < j implies is_digit_char(s[k]) by {
        lemma_has_at_index(s, i + 1, ds, k - i - 1);
    }
    lemma_digits_end_at(s, i + 1, j);
    assert(s.subrange(i + 1, j) == ds);
    lemma_valf_dec_digits(m as nat);
    lemma_horner_digits(s, i + 1, j, 0);
    assert(0 * pow10((j - i - 1) as nat) == 0);
    assert(horner(s, i + 1, j, 0) == Some(m));
    assert(!is_digit_char('-'));
}

/// The beginning of a serialized value: at least one character, which is
/// neither whitespace nor one of the structural delimiters.
pub proof fn lemma_ser_shape(v: JsonView)
    ensures
        ser(v).len() >= 1,
        !is_ws_char(ser(v)[0]),
        ser(v)[0] != ']',
        ser(v)[0] != '}',
        ser(v)[0] != ',',
        ser(v)[0] != ':',
{
    match v {
        JsonView::UInt(n) => {
            lemma_dec_digits_are_digits(n as nat);
        },
        JsonView::Int(n) => {
            if n >= 0 {
                lemma_dec_digits_are_digits(n as nat);
            } else {
                lemma_dec_digits_are_digits((-(n as int)) as nat);
                assert(ser(v)[0] == '-');
            }
        },
        _ => {},
    }
}

/// Parsing the escaped body of a string plus its closing quote gives the
/// original characters back.
pub proof fn lemma_parse_esc(t: Seq<char>, s: Seq<char>, i: int)
    requires
        has_at(s, i, esc(t) + seq!['"']),
    ensures
        p_string(s, i) == Some((t, i + esc(t).len() + 1)),
    decreases t.len(),
{
    if t.len() == 0 {
        assert(esc(t) == Seq::<char>::empty());
        assert(esc(t) + seq!['"'] =~= seq!['"']);
        lemma_has_at_index(s, i, esc(t) + seq!['"'], 0);
        assert(s[i] == '"');
        assert(p_string(s, i) == Some((Seq::<char>::empty(), i + 1)));
        assert(t =~= Seq::<char>::empty());
    } else {
        let c = t[0];
        let tr = t.drop_first();
        assert(esc(t) == esc_char(c) + esc(tr));
        assert(esc(t) + seq!['"'] =~= esc_char(c) + (esc(tr) + seq!['"']));
        lemma_has_at_split(s, i, esc_char(c), esc(tr) + seq!['"']);
        if c == '"' || c == '\\' {
            assert(esc_char(c) == seq!['\\', c]);
            lemma_has_at_index(s, i, esc_char(c), 0);
            lemma_has_at_index(s, i, esc_char(c), 1);
            assert(s[i] == '\\');
            assert(s[i + 1] == c);
            lemma_parse_esc(tr, s, i + 2);
            assert(unescaped(c) == Some(c));
            assert(i + 1 < s.len());
            assert(p_string(s, i) == Some((seq![c] + tr, i + 2 + esc(tr).len() + 1)));
            assert(seq![c] + tr =~= t);
            assert(esc(t).len() == 2 + esc(tr).len());
        } else {
            assert(esc_char(c) == seq![c]);
            lemma_has_at_index(s, i, esc_char(c), 0);
            assert(s[i] == c);
            lemma_parse_esc(tr, s, i + 1);
            assert(p_string(s, i) == Some((seq![c] + tr, i + 1 + esc(tr).len() + 1)));
            assert(seq![c] + tr =~= t);
            assert(esc(t).len() == 1 + esc(tr).len());
        }
    }
}

/// Numbers need a non-digit after them; everything else is self-delimiting.
pub open spec fn delim_ok(v: JsonView, s: Seq<char>, j: int) -> bool {
    (v is UInt || v is Int) ==> (j == s.len() || !is_digit_char(s[j]))
}

/// Parsing a serialized well-formed value standing at `i` yields the value
/// and stops right after it.
pub proof fn lemma_parse_ser_at(v: JsonView, s: Seq<char>, i: int)
    requires
        json_wf(v),
        has_at(s, i, ser(v)),
        delim_ok(v, s, i + ser(v).len()),
    ensures
        p_value(s, i) == Some((v, i + ser(v).len())),
    decreases v, 1int,
{
    lemma_ser_shape(v);
    lemma_has_at_index(s, i, ser(v), 0);
    assert(skip_ws(s, i) == i);
    match v {
        JsonView::Null => {
            lemma_has_at_index(s, i, ser(v), 1);
            lemma_has_at_index(s, i, ser(v), 2);
            lemma_has_at_index(s, i, ser(v), 3);
            assert(p_value(s, i) == Some((JsonView::Null, i + 4)));
        },
        JsonView::Bool(b) => {
            lemma_has_at_index(s, i, ser(v), 1);
            lemma_has_at_index(s, i, ser(v), 2);
            lemma_has_at_index(s, i, ser(v), 3);
            if !b {
                lemma_has_at_index(s, i, ser(v), 4);
            }
            assert(p_value(s, i) == Some((v, i + ser(v).len())));
        },
        JsonView::UInt(n) => {
            assert(s.subrange(i, i + ser(v).len()) == dec_digits(n as nat));
            lemma_parse_dec(s, i, n);
            assert(is_digit_char(s[i]));
            assert(p_value(s, i) == Some((v, i + ser(v).len())));
        },
        JsonView::Int(n) => {
            let m = (-(n as int)) as u64;
            assert(ser(v) == seq!['-'] + dec_digits(m as nat));
            lemma_parse_neg(s, i, m);
            assert((-(m as int)) as i64 == n);
            assert(p_value(s, i) == Some((v, i + ser(v).len())));
        },
        JsonView::Text(t) => {
            assert(ser(v) =~= seq!['"'] + (esc(t) + seq!['"']));
            lemma_has_at_split(s, i, seq!['"'], esc(t) + seq!['"']);
            lemma_parse_esc(t, s, i + 1);
            assert(p_value(s, i) == Some((JsonView::Text(t), i + 1 + esc(t).len() + 1)));
            assert(p_value(s, i) == Some((v, i + ser(v).len())));
        },
        JsonView::Arr(items) => {
            if items.len() == 0 {
                assert(ser(v) =~= seq!['[', ']']);
                lemma_has_at_index(s, i, ser(v), 1);
                assert(s[i + 1] == ']');
                assert(skip_ws(s, i + 1) == i + 1);
                assert(items =~= Seq::<JsonView>::empty());
                assert(p_value(s, i) == Some((JsonView::Arr(Seq::empty()), i + 2)));
                assert(p_value(s, i) == Some((v, i + ser(v).len())));
            } else {
                assert(ser(v) =~= seq!['['] + (ser_items(items) + seq![']']));
                lemma_has_at_split(s, i, seq!['['], ser_items(items) + seq![']']);
                lemma_ser_shape(items[0]);
                assert(ser_items(items)[0] == ser(items[0])[0]);
                lemma_has_at_index(s, i + 1, ser_items(items) + seq![']'], 0);
                assert(skip_ws(s, i + 1) == i + 1);
                assert(s[i + 1] != ']');
                lemma_parse_ser_items(items, s, i + 1);
                assert(p_value(s, i) == Some((JsonView::Arr(items), i + 1 + ser_items(
                    items,
                ).len() + 1)));
                assert(p_value(s, i) == Some((v, i + ser(v).len())));
            }
        },
        JsonView::Obj(pairs) => {
            if pairs.len() == 0 {
                assert(ser(v) =~= seq!['{', '}']);
                lemma_has_at_index(s, i, ser(v), 1);
                assert(s[i + 1] == '}');
                assert(skip_ws(s, i + 1) == i + 1);
                assert(pairs =~= Seq::<(Seq<char>, JsonView)>::empty());
                assert(p_value(s, i) == Some((JsonView::Obj(Seq::empty()), i + 2)));
                assert(p_value(s, i) == Some((v, i + ser(v).len())));
            } else {
                assert(ser(v) =~= seq!['{'] + (ser_pairs(pairs) + seq!['}']));
                lemma_has_at_split(s, i, seq!['{'], ser_pairs(pairs) + seq!['}']);
                assert(ser_pairs(pairs)[0] == '"');
                lemma_has_at_index(s, i + 1, ser_pairs(pairs) + seq!['}'], 0);
                assert(skip_ws(s, i + 1) == i + 1);
                assert(s[i + 1] != '}');
                lemma_parse_ser_pairs(pairs, s, i + 1);
                assert(p_value(s, i) == Some((JsonView::Obj(pairs), i + 1 + ser_pairs(
                    pairs,
                ).len() + 1)));
                assert(p_value(s, i) == Some((v, i + ser(v).len())));
            }
        },
    }
}

/// Parsing serialized array elements followed by `]`.
pub proof fn lemma_parse_ser_items(items: Seq<JsonView>, s: Seq<char>, i: int)
    requires
        items.len() >= 1,
        forall|k: int| 0 <= k < items.len() ==> json_wf(#[trigger] items[k]),
        has_at(s, i, ser_items(items) + seq![']']),
    ensures
        p_elems(s, i) == Some((items, i + ser_items(items).len() + 1)),
    decreases items, 0int,
{
    let v0 = items[0];
    assert(json_wf(v0));
    if items.len() == 1 {
        assert(ser_items(items) == ser(v0));
        lemma_has_at_split(s, i, ser(v0), seq![']']);
        let j0 = i + ser(v0).len();
        lemma_has_at_index(s, j0, seq![']'], 0);
        assert(s[j0] == ']');
        assert(!is_digit_char(']'));
        lemma_parse_ser_at(v0, s, i);
        assert(skip_ws(s, j0) == j0);
        assert(p_elems(s, i) == Some((seq![v0], j0 + 1)));
        assert(seq![v0] =~= items);
    } else {
        let rest = items.drop_first();
        assert(ser_items(items) == ser(v0) + seq![','] + ser_items(rest));
        assert(ser_items(items) + seq![']'] =~= ser(v0) + (seq![','] + (ser_items(rest)
            + seq![']'])));
        lemma_has_at_split(s, i, ser(v0), seq![','] + (ser_items(rest) + seq![']']));
        let j0 = i + ser(v0).len();
        lemma_has_at_split(s, j0, seq![','], ser_items(rest) + seq![']']);
        lemma_has_at_index(s, j0, seq![','], 0);
        assert(s[j0] == ',');
        assert(!is_digit_char(','));
        lemma_parse_ser_at(v0, s, i);
        assert(skip_ws(s, j0) == j0);
        assert forall|k: int| 0 <= k < rest.len() implies json_wf(#[trigger] rest[k]) by {
            assert(rest[k] == items[k + 1]);
        }
        lemma_parse_ser_items(rest, s, j0 + 1);
        assert(p_elems(s, i) == Some((seq![v0] + rest, j0 + 1 + ser_items(rest).len() + 1)));
        assert(seq![v0] + rest =~= items);
        assert(ser_items(items).len() == ser(v0).len() + 1 + ser_items(rest).len());
    }
}

/// Parsing serialized object members followed by `}`.
pub proof fn lemma_parse_ser_pairs(pairs: Seq<(Seq<char>, JsonView)>, s: Seq<char>, i: int)
    requires
        pairs.len() >= 1,
        forall|k: int| 0 <= k < pairs.len() ==> json_wf((#[trigger] pairs[k]).1),
        has_at(s, i, ser_pairs(pairs) + seq!['}']),
    ensures
        p_members(s, i) == Some((pairs, i + ser_pairs(pairs).len() + 1)),
    decreases pairs, 0int,
{
    let key = pairs[0].0;
    let v0 = pairs[0].1;
    let entry = seq!['"'] + esc(key) + seq!['"', ':'] + ser(v0);
    assert(json_wf(v0));
    let tail: Seq<char> = if pairs.len() == 1 {
        seq!['}']
    } else {
        seq![','] + (ser_pairs(pairs.drop_first()) + seq!['}'])
    };
    assert(ser_pairs(pairs) + seq!['}'] =~= entry + tail);
    lemma_has_at_split(s, i, entry, tail);
    // the key string
    assert(entry =~= seq!['"'] + ((esc(key) + seq!['"']) + (seq![':'] + ser(v0))));
    lemma_has_at_split(s, i, seq!['"'], (esc(key) + seq!['"']) + (seq![':'] + ser(v0)));
    lemma_has_at_split(s, i + 1, esc(key) + seq!['"'], seq![':'] + ser(v0));
    lemma_has_at_index(s, i, seq!['"'], 0);
    assert(s[i] == '"');
    assert(skip_ws(s, i) == i);
    lemma_parse_esc(key, s, i + 1);
    let jk = i + 1 + esc(key).len() + 1;
    // the colon
    lemma_has_at_split(s, jk, seq![':'], ser(v0));
    lemma_has_at_index(s, jk, seq![':'], 0);
    assert(s[jk] == ':');
    assert(skip_ws(s, jk) == jk);
    // the value
    let jv = jk + 1 + ser(v0).len();
    lemma_has_at_index(s, jv, tail, 0);
    assert(delim_ok(v0, s, jv));
    lemma_parse_ser_at(v0, s, jk + 1);
    assert(skip_ws(s, jv) == jv);
    if pairs.len() == 1 {
        assert(s[jv] == '}');
        assert(p_members(s, i) == Some((seq![(key, v0)], jv + 1)));
        assert(seq![(key, v0)] =~= pairs);
        assert(ser_pairs(pairs).len() == entry.len());
    } else {
        let rest = pairs.drop_first();
        assert(s[jv] == ',');
        lemma_has_at_split(s, jv, seq![','], ser_pairs(rest) + seq!['}']);
        assert forall|k: int| 0 <= k < rest.len() implies json_wf((#[trigger] rest[k]).1) by {
            assert(rest[k] == pairs[k + 1]);
        }
        lemma_parse_ser_pairs(rest, s, jv + 1);
        assert(p_members(s, i) == Some((seq![(key, v0)] + rest, jv + 1 + ser_pairs(
            rest,
        ).len() + 1)));
        assert(seq![(key, v0)] + rest =~= pairs);
        assert(ser_pairs(pairs).len() == entry.len() + 1 + ser_pairs(rest).len());
    }
}

/// Round trip: parsing the wire text of a well-formed value yields exactly
/// that value.
pub proof fn lemma_parse_ser_json(v: JsonView)
    requires
        json_wf(v),
    ensures
        p_json(ser(v)) == Some(v),
{
    let s = ser(v);
    lemma_ser_shape(v);
    assert(s.subrange(0, s.len() as int) =~= s);
    assert(has_at(s, 0, s));
    lemma_parse_ser_at(v, s, 0);
    assert(skip_ws(s, s.len() as int) == s.len());
}

} // verus!
