//! The JSON parser.
//!
//! The mathematical parser (`p_value` and its helpers) is the reference:
//! it maps a character sequence and a start position to the parsed value
//! and the position just past it, or to nothing when the text is not
//! well-formed JSON. The executable parser returns exactly what the
//! mathematical one describes.
//!
//! Compared to the serializer's output the parser is lenient: it accepts
//! insignificant whitespace, any object member order, a few extra string
//! escapes, and leading zeros in numbers.

use vstd::prelude::*;
use crate::json::{JsonValue, JsonView, json_view, json_view_seq, json_view_pairs,
    lemma_json_view_seq, lemma_json_view_pairs};
use crate::text::{is_ws_char, is_digit_char, digit_val, digit_val_of, chars_to_string};

verus! {

/// First position at or after `i` that does not hold whitespace.
pub open spec fn skip_ws(s: Seq<char>, i: int) -> int
    decreases s.len() - i,
{
    if 0 <= i < s.len() && is_ws_char(s[i]) {
        skip_ws(s, i + 1)
    } else {
        i
    }
}

/// `skip_ws` moves forward, stays inside the text, and stops only at a
/// position that holds no whitespace.
pub proof fn lemma_skip_ws(s: Seq<char>, i: int)
    ensures
        i <= skip_ws(s, i),
        i <= s.len() ==> skip_ws(s, i) <= s.len(),
        0 <= i && skip_ws(s, i) < s.len() ==> !is_ws_char(s[skip_ws(s, i)]),
    decreases s.len() - i,
{
    if 0 <= i < s.len() && is_ws_char(s[i]) {
        lemma_skip_ws(s, i + 1);
    }
}

/// The character that an escape sequence `\c` stands for.
pub open spec fn unescaped(c: char) -> Option<char> {
    if c == '"' {
        Some('"')
    } else if c == '\\' {
        Some('\\')
    } else if c == '/' {
        Some('/')
    } else if c == 'n' {
        Some('\n')
    } else if c == 't' {
        Some('\t')
    } else if c == 'r' {
        Some('\r')
    } else {
        None
    }
}

/// Parses the body of a string literal starting at `i` (just past the
/// opening quote), up to and including the closing quote.
pub open spec fn p_string(s: Seq<char>, i: int) -> Option<(Seq<char>, int)>
    decreases s.len() - i,
{
    if i < 0 || i >= s.len() {
        None
    } else if s[i] == '"' {
        Some((Seq::empty(), i + 1))
    } else if s[i] == '\\' {
        if i + 1 < s.len() && unescaped(s[i + 1]) is Some {
            match p_string(s, i + 2) {
                Some((t, j)) => Some((seq![unescaped(s[i + 1])->0] + t, j)),
                None => None,
            }
        } else {
            None
        }
    } else {
        match p_string(s, i + 1) {
            Some((t, j)) => Some((seq![s[i]] + t, j)),
            None => None,
        }
    }
}

/// A parsed string body ends past its start and inside the text.
pub proof fn lemma_p_string_bounds(s: Seq<char>, i: int)
    ensures
        p_string(s, i) matches Some((t, j)) ==> i < j <= s.len(),
    decreases s.len() - i,
{
    if 0 <= i < s.len() {
        if s[i] == '\\' {
            if i + 1 < s.len() && unescaped(s[i + 1]) is Some {
                lemma_p_string_bounds(s, i + 2);
            }
        } else {
            lemma_p_string_bounds(s, i + 1);
        }
    }
}

/// First position at or after `i` that does not hold a decimal digit.
pub open spec fn digits_end(s: Seq<char>, i: int) -> int
    decreases s.len() - i,
{
    if 0 <= i < s.len() && is_digit_char(s[i]) {
        digits_end(s, i + 1)
    } else {
        i
    }
}

/// `digits_end` moves forward over digits only.
pub proof fn lemma_digits_end(s: Seq<char>, i: int)
    ensures
        i <= digits_end(s, i),
        i <= s.len() ==> digits_end(s, i) <= s.len(),
        forall|k: int| i <= k < digits_end(s, i) ==> is_digit_char(s[k]),
        0 <= i && digits_end(s, i) < s.len() ==> !is_digit_char(s[digits_end(s, i)]),
    decreases s.len() - i,
{
    if 0 <= i < s.len() && is_digit_char(s[i]) {
        lemma_digits_end(s, i + 1);
    }
}

/// Left-to-right decimal accumulation of `s[i..j)` onto `acc`, failing
/// where a step would exceed the range of a 64-bit unsigned integer.
pub open spec fn horner(s: Seq<char>, i: int, j: int, acc: u64) -> Option<u64>
    decreases j - i,
{
    if i >= j {
        Some(acc)
    } else if !(0 <= i < s.len()) {
        None
    } else {
        let d = digit_val(s[i]);
        if acc <= (u64::MAX - d) / 10 {
            horner(s, i + 1, j, (acc * 10 + d) as u64)
        } else {
            None
        }
    }
}

/// Parses a number starting at `i`.
pub open spec fn p_number(s: Seq<char>, i: int) -> Option<(JsonView, int)> {
    if 0 <= i < s.len() && s[i] == '-' {
        let j = digits_end(s, i + 1);
        if j == i + 1 {
            None
        } else {
            match horner(s, i + 1, j, 0) {
                Some(m) => if m == 0 {
                    Some((JsonView::UInt(0), j))
                } else if m <= i64::MAX as u64 {
                    Some((JsonView::Int((-(m as int)) as i64), j))
                } else if m == 9223372036854775808u64 {
                    Some((JsonView::Int(i64::MIN), j))
                } else {
                    None
                },
                None => None,
            }
        }
    } else {
        let j = digits_end(s, i);
        if j == i {
            None
        } else {
            match horner(s, i, j, 0) {
                Some(m) => Some((JsonView::UInt(m), j)),
                None => None,
            }
        }
    }
}

/// A parsed number ends past its start and inside the text.
pub proof fn lemma_p_number_bounds(s: Seq<char>, i: int)
    requires
        0 <= i <= s.len(),
    ensures
        p_number(s, i) matches Some((v, j)) ==> i < j <= s.len(),
{
    lemma_digits_end(s, i);
    if i < s.len() {
        lemma_digits_end(s, i + 1);
    }
}

/// Parses one JSON value: optional leading whitespace, then a literal,
/// number, string, array or object.
pub open spec fn p_value(s: Seq<char>, i: int) -> Option<(JsonView, int)>
    decreases s.len() - i, 0int,
{
    let a = skip_ws(s, i);
    if i < 0 || a < i || a >= s.len() {
        None
    } else if s[a] == 'n' {
        if a + 4 <= s.len() && s[a + 1] == 'u' && s[a + 2] == 'l' && s[a + 3] == 'l' {
            Some((JsonView::Null, a + 4))
        } else {
            None
        }
    } else if s[a] == 't' {
        if a + 4 <= s.len() && s[a + 1] == 'r' && s[a + 2] == 'u' && s[a + 3] == 'e' {
            Some((JsonView::Bool(true), a + 4))
        } else {
            None
        }
    } else if s[a] == 'f' {
        if a + 5 <= s.len() && s[a + 1] == 'a' && s[a + 2] == 'l' && s[a + 3] == 's'
            && s[a + 4] == 'e' {
            Some((JsonView::Bool(false), a + 5))
        } else {
            None
        }
    } else if s[a] == '"' {
        match p_string(s, a + 1) {
            Some((t, j)) => Some((JsonView::Text(t), j)),
            None => None,
        }
    } else if s[a] == '[' {
        let b = skip_ws(s, a + 1);
        if b < s.len() && s[b] == ']' {
            Some((JsonView::Arr(Seq::empty()), b + 1))
        } else {
            match p_elems(s, a + 1) {
                Some((items, j)) => Some((JsonView::Arr(items), j)),
                None => None,
            }
        }
    } else if s[a] == '{' {
        let b = skip_ws(s, a + 1);
        if b < s.len() && s[b] == '}' {
            Some((JsonView::Obj(Seq::empty()), b + 1))
        } else {
            match p_members(s, a + 1) {
                Some((pairs, j)) => Some((JsonView::Obj(pairs), j)),
                None => None,
            }
        }
    } else if s[a] == '-' || is_digit_char(s[a]) {
        p_number(s, a)
    } else {
        None
    }
}

/// Parses the elements of a non-empty array from `i` (just past `[` or a
/// comma) up to and including the closing bracket.
pub open spec fn p_elems(s: Seq<char>, i: int) -> Option<(Seq<JsonView>, int)>
    decreases s.len() - i, 1int,
{
    match p_value(s, i) {
        Some((v, j)) => {
            let k = skip_ws(s, j);
            if k >= s.len() || k < 0 {
                None
            } else if s[k] == ']' {
                Some((seq![v], k + 1))
            } else if s[k] == ',' && k + 1 > i {
                match p_elems(s, k + 1) {
                    Some((items, m)) => Some((seq![v] + items, m)),
                    None => None,
                }
            } else {
                None
            }
        },
        None => None,
    }
}

/// Parses the members of a non-empty object from `i` (just past `{` or a
/// comma) up to and including the closing brace.
pub open spec fn p_members(s: Seq<char>, i: int) -> Option<(Seq<(Seq<char>, JsonView)>, int)>
    decreases s.len() - i, 1int,
{
    let a = skip_ws(s, i);
    if i < 0 || a < i || a >= s.len() || s[a] != '"' {
        None
    } else {
        match p_string(s, a + 1) {
            Some((key, j)) => {
                let b = skip_ws(s, j);
                if b >= s.len() || b < i || s[b] != ':' {
                    None
                } else {
                    match p_value(s, b + 1) {
                        Some((v, jv)) => {
                            let k = skip_ws(s, jv);
                            if k >= s.len() || k < 0 {
                                None
                            } else if s[k] == '}' {
                                Some((seq![(key, v)], k + 1))
                            } else if s[k] == ',' && k + 1 > i {
                                match p_members(s, k + 1) {
                                    Some((pairs, m)) => Some((seq![(key, v)] + pairs, m)),
                                    None => None,
                                }
                            } else {
                                None
                            }
                        },
                        None => None,
                    }
                }
            },
            None => None,
        }
    }
}

/// Parses a whole document: one value, with nothing but whitespace after it.
pub open spec fn p_json(s: Seq<char>) -> Option<JsonView> {
    match p_value(s, 0) {
        Some((v, j)) => {
            if skip_ws(s, j) == s.len() {
                Some(v)
            } else {
                None
            }
        },
        None => None,
    }
}

/// A parsed value ends past its start and inside the text; the same holds
/// for array elements and object members.
pub proof fn lemma_p_value_bounds(s: Seq<char>, i: int)
    ensures
        p_value(s, i) matches Some((v, j)) ==> i < j <= s.len(),
        p_elems(s, i) matches Some((items, j)) ==> i < j <= s.len(),
        p_members(s, i) matches Some((pairs, j)) ==> i < j <= s.len(),
    decreases s.len() - i, 2int,
{
    lemma_skip_ws(s, i);
    let a = skip_ws(s, i);
    // the value cases
    if 0 <= a < s.len() {
        if s[a] == '"' {
            lemma_p_string_bounds(s, a + 1);
        } else if s[a] == '[' {
            lemma_skip_ws(s, a + 1);
            if p_value(s, i) is Some {
                lemma_p_elems_bounds(s, a + 1);
            }
        } else if s[a] == '{' {
            lemma_skip_ws(s, a + 1);
            if p_value(s, i) is Some {
                lemma_p_members_bounds(s, a + 1);
            }
        } else if s[a] == '-' || is_digit_char(s[a]) {
            lemma_p_number_bounds(s, a);
        }
    }
    // the element-list case
    if p_elems(s, i) is Some {
        lemma_p_elems_bounds(s, i);
    }
    // the member-list case
    if p_members(s, i) is Some {
        lemma_p_members_bounds(s, i);
    }
}

proof fn lemma_p_elems_bounds(s: Seq<char>, i: int)
    ensures
        p_elems(s, i) matches Some((items, j)) ==> i < j <= s.len(),
    decreases s.len() - i, 1int,
{
    lemma_p_value_only_bounds(s, i);
    match p_value(s, i) {
        Some((v, j)) => {
            lemma_skip_ws(s, j);
            let k = skip_ws(s, j);
            if 0 <= k < s.len() && s[k] == ',' && k + 1 > i {
                lemma_p_elems_bounds(s, k + 1);
            }
        },
        None => {},
    }
}

proof fn lemma_p_members_bounds(s: Seq<char>, i: int)
    ensures
        p_members(s, i) matches Some((pairs, j)) ==> i < j <= s.len(),
    decreases s.len() - i, 1int,
{
    lemma_skip_ws(s, i);
    let a = skip_ws(s, i);
    if 0 <= a < s.len() && s[a] == '"' {
        lemma_p_string_bounds(s, a + 1);
        match p_string(s, a + 1) {
            Some((key, j)) => {
                lemma_skip_ws(s, j);
                let b = skip_ws(s, j);
                if i <= b < s.len() && s[b] == ':' {
                    lemma_p_value_only_bounds(s, b + 1);
                    match p_value(s, b + 1) {
                        Some((v, jv)) => {
                            lemma_skip_ws(s, jv);
                            let k = skip_ws(s, jv);
                            if 0 <= k < s.len() && s[k] == ',' && k + 1 > i {
                                lemma_p_members_bounds(s, k + 1);
                            }
                        },
                        None => {},
                    }
                }
            },
            None => {},
        }
    }
}

proof fn lemma_p_value_only_bounds(s: Seq<char>, i: int)
    ensures
        p_value(s, i) matches Some((v, j)) ==> i < j <= s.len(),
    decreases s.len() - i, 0int,
{
    lemma_skip_ws(s, i);
    let a = skip_ws(s, i);
    if 0 <= a < s.len() {
        if s[a] == '"' {
            lemma_p_string_bounds(s, a + 1);
        } else if s[a] == '[' {
            lemma_skip_ws(s, a + 1);
            let b = skip_ws(s, a + 1);
            if !(b < s.len() && s[b] == ']') {
                lemma_p_elems_bounds(s, a + 1);
            }
        } else if s[a] == '{' {
            lemma_skip_ws(s, a + 1);
            let b = skip_ws(s, a + 1);
            if !(b < s.len() && s[b] == '}') {
                lemma_p_members_bounds(s, a + 1);
            }
        } else if s[a] == '-' || is_digit_char(s[a]) {
            lemma_p_number_bounds(s, a);
        }
    }
}

/// Exec counterpart of `unescaped`.
pub fn unescaped_of(c: char) -> (r: Option<char>)
    ensures
        r == unescaped(c),
{
    if c == '"' {
        Some('"')
    } else if c == '\\' {
        Some('\\')
    } else if c == '/' {
        Some('/')
    } else if c == 'n' {
        Some('\n')
    } else if c == 't' {
        Some('\t')
    } else if c == 'r' {
        Some('\r')
    } else {
        None
    }
}

/// Exec counterpart of `skip_ws`.
pub fn e_ws(s: &Vec<char>, i: usize) -> (r: usize)
    requires
        i <= s.len(),
    ensures
        r as int == skip_ws(s@, i as int),
        i <= r <= s.len(),
{
    let mut k = i;
    loop
        invariant_except_break
            i <= k <= s@.len(),
            skip_ws(s@, i as int) == skip_ws(s@, k as int),
        ensures
            i <= k <= s@.len(),
            skip_ws(s@, i as int) == k as int,
        decreases s@.len() - k,
    {
        if k == s.len() {
            break;
        }
        let c = s[k];
        if c == ' ' || c == '\t' || c == '\n' || c == '\r' {
            k = k + 1;
        } else {
            break;
        }
    }
    k
}

/// Exec counterpart of `p_string`: the body of a string literal.
pub fn e_string(s: &Vec<char>, i: usize) -> (r: Option<(Vec<char>, usize)>)
    requires
        i <= s.len(),
    ensures
        match r {
            Some((t, j)) => p_string(s@, i as int) == Some((t@, j as int)) && i < j <= s.len(),
            None => p_string(s@, i as int) is None,
        },
    decreases s.len() - i,
{
    if i == s.len() {
        return None;
    }
    let c = s[i];
    if c == '"' {
        let t: Vec<char> = Vec::new();
        assert(t@ =~= Seq::<char>::empty());
        Some((t, i + 1))
    } else if c == '\\' {
        if s.len() - i >= 2 {
            match unescaped_of(s[i + 1]) {
                Some(u) => {
                    match e_string(s, i + 2) {
                        Some((mut t, j)) => {
                            t.insert(0, u);
                            proof {
                                assert(t@ =~= seq![unescaped(s@[i as int + 1])->0]
                                    + t@.subrange(1, t@.len() as int));
                            }
                            Some((t, j))
                        },
                        None => None,
                    }
                },
                None => None,
            }
        } else {
            None
        }
    } else {
        match e_string(s, i + 1) {
            Some((mut t, j)) => {
                t.insert(0, c);
                proof {
                    assert(t@ =~= seq![s@[i as int]] + t@.subrange(1, t@.len() as int));
                }
                Some((t, j))
            },
            None => None,
        }
    }
}

/// Exec counterpart of `digits_end`.
pub fn e_digits_end(s: &Vec<char>, i: usize) -> (r: usize)
    requires
        i <= s.len(),
    ensures
        r as int == digits_end(s@, i as int),
        i <= r <= s.len(),
{
    let mut k = i;
    loop
        invariant_except_break
            i <= k <= s@.len(),
            digits_end(s@, i as int) == digits_end(s@, k as int),
        ensures
            i <= k <= s@.len(),
            digits_end(s@, i as int) == k as int,
        decreases s@.len() - k,
    {
        if k == s.len() {
            break;
        }
        let c = s[k];
        if '0' <= c && c <= '9' {
            k = k + 1;
        } else {
            break;
        }
    }
    k
}

/// Exec counterpart of `horner` started with an empty accumulator.
pub fn e_horner(s: &Vec<char>, i: usize, j: usize) -> (r: Option<u64>)
    requires
        i <= j <= s.len(),
        forall|k: int| i <= k < j ==> is_digit_char(s@[k]),
    ensures
        r == horner(s@, i as int, j as int, 0),
{
    let mut acc: u64 = 0;
    let mut k = i;
    while k < j
        invariant
            i <= k <= j <= s@.len(),
            forall|m: int| i <= m < j ==> is_digit_char(s@[m]),
            horner(s@, i as int, j as int, 0) == horner(s@, k as int, j as int, acc),
        decreases j - k,
    {
        let d = digit_val_of(s[k]);
        if acc <= (u64::MAX - d) / 10 {
            proof {
                vstd::arithmetic::div_mod::lemma_fundamental_div_mod(
                    (u64::MAX - d) as int, 10);
            }
            acc = acc * 10 + d;
            k = k + 1;
        } else {
            return None;
        }
    }
    Some(acc)
}

/// Exec counterpart of `p_number`.
pub fn e_number(s: &Vec<char>, i: usize) -> (r: Option<(JsonValue, usize)>)
    requires
        i <= s.len(),
    ensures
        match r {
            Some((v, j)) => p_number(s@, i as int) == Some((v.deep_view(), j as int))
                && i < j <= s.len(),
            None => p_number(s@, i as int) is None,
        },
{
    if i < s.len() && s[i] == '-' {
        let j = e_digits_end(s, i + 1);
        if j == i + 1 {
            None
        } else {
            proof {
                lemma_digits_end(s@, i as int + 1);
            }
            match e_horner(s, i + 1, j) {
                Some(m) => {
                    if m == 0 {
                        Some((JsonValue::UInt(0), j))
                    } else if m <= i64::MAX as u64 {
                        Some((JsonValue::Int(-(m as i64)), j))
                    } else if m == 9223372036854775808u64 {
                        Some((JsonValue::Int(i64::MIN), j))
                    } else {
                        None
                    }
                },
                None => None,
            }
        }
    } else {
        let j = e_digits_end(s, i);
        if j == i {
            None
        } else {
            proof {
                lemma_digits_end(s@, i as int);
            }
            match e_horner(s, i, j) {
                Some(m) => Some((JsonValue::UInt(m), j)),
                None => None,
            }
        }
    }
}

/// Exec counterpart of `p_value`.
pub fn e_value(s: &Vec<char>, i: usize) -> (r: Option<(JsonValue, usize)>)
    requires
        i <= s.len(),
    ensures
        match r {
            Some((v, j)) => p_value(s@, i as int) == Some((v.deep_view(), j as int))
                && i < j <= s.len(),
            None => p_value(s@, i as int) is None,
        },
    decreases s.len() - i, 0int,
{
    let a = e_ws(s, i);
    if a == s.len() {
        return None;
    }
    let c = s[a];
    if c == 'n' {
        if s.len() - a >= 4 && s[a + 1] == 'u' && s[a + 2] == 'l' && s[a + 3] == 'l' {
            Some((JsonValue::Null, a + 4))
        } else {
            None
        }
    } else if c == 't' {
        if s.len() - a >= 4 && s[a + 1] == 'r' && s[a + 2] == 'u' && s[a + 3] == 'e' {
            Some((JsonValue::Bool(true), a + 4))
        } else {
            None
        }
    } else if c == 'f' {
        if s.len() - a >= 5 && s[a + 1] == 'a' && s[a + 2] == 'l' && s[a + 3] == 's'
            && s[a + 4] == 'e' {
            Some((JsonValue::Bool(false), a + 5))
        } else {
            None
        }
    } else if c == '"' {
        match e_string(s, a + 1) {
            Some((t, j)) => {
                let text = chars_to_string(&t);
                Some((JsonValue::Text(text), j))
            },
            None => None,
        }
    } else if c == '[' {
        let b = e_ws(s, a + 1);
        if b < s.len() && s[b] == ']' {
            let items: Vec<JsonValue> = Vec::new();
            proof {
                assert(json_view_seq(items@) =~= Seq::<JsonView>::empty());
            }
            Some((JsonValue::Arr(items), b + 1))
        } else {
            match e_elems(s, a + 1) {
                Some((items, j)) => Some((JsonValue::Arr(items), j)),
                None => None,
            }
        }
    } else if c == '{' {
        let b = e_ws(s, a + 1);
        if b < s.len() && s[b] == '}' {
            let pairs: Vec<(String, JsonValue)> = Vec::new();
            proof {
                assert(json_view_pairs(pairs@) =~= Seq::<(Seq<char>, JsonView)>::empty());
            }
            Some((JsonValue::Obj(pairs), b + 1))
        } else {
            match e_members(s, a + 1) {
                Some((pairs, j)) => Some((JsonValue::Obj(pairs), j)),
                None => None,
            }
        }
    } else if c == '-' || ('0' <= c && c <= '9') {
        e_number(s, a)
    } else {
        None
    }
}

/// Exec counterpart of `p_elems`.
pub fn e_elems(s: &Vec<char>, i: usize) -> (r: Option<(Vec<JsonValue>, usize)>)
    requires
        i <= s.len(),
    ensures
        match r {
            Some((items, j)) => p_elems(s@, i as int) == Some((json_view_seq(items@), j as int))
                && i < j <= s.len(),
            None => p_elems(s@, i as int) is None,
        },
    decreases s.len() - i, 1int,
{
    match e_value(s, i) {
        Some((v, j)) => {
            let k = e_ws(s, j);
            if k == s.len() {
                return None;
            }
            if s[k] == ']' {
                let mut items: Vec<JsonValue> = Vec::new();
                items.push(v);
                proof {
                    lemma_json_view_seq(items@);
                    assert(json_view_seq(items@) =~= seq![v.deep_view()]);
                }
                Some((items, k + 1))
            } else if s[k] == ',' {
                match e_elems(s, k + 1) {
                    Some((mut items, m)) => {
                        let ghost tail = items@;
                        items.insert(0, v);
                        proof {
                            assert(items@ =~= seq![v] + tail);
                            lemma_json_view_seq(items@);
                            lemma_json_view_seq(tail);
                            assert forall|ix: int| 0 <= ix < json_view_seq(items@).len()
                                implies json_view_seq(items@)[ix]
                                    == (seq![v.deep_view()] + json_view_seq(tail))[ix] by {
                                assert(json_view_seq(items@)[ix] == json_view(items@[ix]));
                                if ix > 0 {
                                    assert(items@[ix] == tail[ix - 1]);
                                    assert(json_view_seq(tail)[ix - 1]
                                        == json_view(tail[ix - 1]));
                                }
                            }
                            assert(json_view_seq(items@)
                                =~= seq![v.deep_view()] + json_view_seq(tail));
                        }
                        Some((items, m))
                    },
                    None => None,
                }
            } else {
                None
            }
        },
        None => None,
    }
}

/// Exec counterpart of `p_members`.
pub fn e_members(s: &Vec<char>, i: usize) -> (r: Option<(Vec<(String, JsonValue)>, usize)>)
    requires
        i <= s.len(),
    ensures
        match r {
            Some((pairs, j)) => p_members(s@, i as int)
                == Some((json_view_pairs(pairs@), j as int)) && i < j <= s.len(),
            None => p_members(s@, i as int) is None,
        },
    decreases s.len() - i, 1int,
{
    let a = e_ws(s, i);
    if a == s.len() {
        return None;
    }
    if s[a] != '"' {
        return None;
    }
    match e_string(s, a + 1) {
        Some((kc, j)) => {
            let key = chars_to_string(&kc);
            let b = e_ws(s, j);
            if b == s.len() {
                return None;
            }
            if s[b] != ':' {
                return None;
            }
            match e_value(s, b + 1) {
                Some((v, jv)) => {
                    let k = e_ws(s, jv);
                    if k == s.len() {
                        return None;
                    }
                    if s[k] == '}' {
                        let mut pairs: Vec<(String, JsonValue)> = Vec::new();
                        pairs.push((key, v));
                        proof {
                            lemma_json_view_pairs(pairs@);
                            assert(json_view_pairs(pairs@) =~= seq![(kc@, v.deep_view())]);
                        }
                        Some((pairs, k + 1))
                    } else if s[k] == ',' {
                        match e_members(s, k + 1) {
                            Some((mut pairs, m)) => {
                                let ghost tail = pairs@;
                                pairs.insert(0, (key, v));
                                proof {
                                    assert(pairs@ =~= seq![(key, v)] + tail);
                                    lemma_json_view_pairs(pairs@);
                                    lemma_json_view_pairs(tail);
                                    assert forall|ix: int| 0 <= ix < json_view_pairs(pairs@).len()
                                        implies json_view_pairs(pairs@)[ix]
                                            == (seq![(kc@, v.deep_view())]
                                                + json_view_pairs(tail))[ix] by {
                                        assert(json_view_pairs(pairs@)[ix]
                                            == (pairs@[ix].0@, json_view(pairs@[ix].1)));
                                        if ix > 0 {
                                            assert(pairs@[ix] == tail[ix - 1]);
                                            assert(json_view_pairs(tail)[ix - 1]
                                                == (tail[ix - 1].0@, json_view(tail[ix - 1].1)));
                                        }
                                    }
                                    assert(json_view_pairs(pairs@)
                                        =~= seq![(kc@, v.deep_view())] + json_view_pairs(tail));
                                }
                                Some((pairs, m))
                            },
                            None => None,
                        }
                    } else {
                        None
                    }
                },
                None => None,
            }
        },
        None => None,
    }
}

/// Parses a whole JSON document held in a character vector.
pub fn parse_json_chars(s: &Vec<char>) -> (r: Option<JsonValue>)
    ensures
        match r {
            Some(v) => p_json(s@) == Some(v.deep_view()),
            None => p_json(s@) is None,
        },
{
    match e_value(s, 0) {
        Some((v, j)) => {
            let k = e_ws(s, j);
            if k == s.len() {
                Some(v)
            } else {
                None
            }
        },
        None => None,
    }
}


} // verus!
