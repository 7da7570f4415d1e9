//! The JSON serializer.
//!
//! `ser` gives the exact wire text of a JSON value: no insignificant
//! whitespace, object fields in their stored order, strings quoted with
//! `"` and `\` escaped by a backslash, numbers in plain decimal notation.

use vstd::prelude::*;
use crate::json::{JsonValue, JsonView, json_view, json_view_seq, json_view_pairs,
    lemma_json_view_seq, lemma_json_view_pairs};
use crate::text::{dec_digits, push_dec_digits, chars_to_string};
use vstd::string::StrSliceExecFns;

verus! {

/// The wire form of one character inside a JSON string literal.
pub open spec fn esc_char(c: char) -> Seq<char> {
    if c == '"' || c == '\\' {
        seq!['\\', c]
    } else {
        seq![c]
    }
}

/// The wire form of the body of a JSON string literal.
pub open spec fn esc(s: Seq<char>) -> Seq<char>
    decreases s.len(),
{
    if s.len() == 0 {
        Seq::empty()
    } else {
        esc_char(s[0]) + esc(s.drop_first())
    }
}

/// Escaping distributes over appending one character.
pub proof fn lemma_esc_push(s: Seq<char>, c: char)
    ensures
        esc(s + seq![c]) == esc(s) + esc_char(c),
    decreases s.len(),
{
    let t = s + seq![c];
    if s.len() == 0 {
        assert(t.len() == 1 && t[0] == c);
        assert(t.drop_first() =~= Seq::<char>::empty());
        assert(esc(t.drop_first()) == Seq::<char>::empty());
        assert(esc(s) == Seq::<char>::empty());
        assert(esc(t) =~= esc(s) + esc_char(c));
    } else {
        lemma_esc_push(s.drop_first(), c);
        assert(t[0] == s[0]);
        assert(t.drop_first() =~= s.drop_first() + seq![c]);
        assert(esc(t) == esc_char(t[0]) + esc(t.drop_first()));
        assert(esc(s) == esc_char(s[0]) + esc(s.drop_first()));
        assert(esc(t) =~= esc(s) + esc_char(c));
    }
}

/// The wire text of a JSON value.
pub open spec fn ser(v: JsonView) -> Seq<char>
    decreases v, 1int,
{
    match v {
        JsonView::Null => seq!['n', 'u', 'l', 'l'],
        JsonView::Bool(b) => if b {
            seq!['t', 'r', 'u', 'e']
        } else {
            seq!['f', 'a', 'l', 's', 'e']
        },
        JsonView::UInt(n) => dec_digits(n as nat),
        JsonView::Int(n) => if n < 0 {
            seq!['-'] + dec_digits((-(n as int)) as nat)
        } else {
            dec_digits(n as nat)
        },
        JsonView::Text(s) => seq!['"'] + esc(s) + seq!['"'],
        JsonView::Arr(items) => seq!['['] + ser_items(items) + seq![']'],
        JsonView::Obj(pairs) => seq!['{'] + ser_pairs(pairs) + seq!['}'],
    }
}

/// The wire text of array elements, separated by commas.
pub open spec fn ser_items(items: Seq<JsonView>) -> Seq<char>
    decreases items, 0int,
{
    if items.len() == 0 {
        Seq::empty()
    } else if items.len() == 1 {
        ser(items[0])
    } else {
        ser(items[0]) + seq![','] + ser_items(items.drop_first())
    }
}

/// The wire text of object members, separated by commas.
pub open spec fn ser_pairs(pairs: Seq<(Seq<char>, JsonView)>) -> Seq<char>
    decreases pairs, 0int,
{
    if pairs.len() == 0 {
        Seq::empty()
    } else {
        let entry = seq!['"'] + esc(pairs[0].0) + seq!['"', ':'] + ser(pairs[0].1);
        if pairs.len() == 1 {
            entry
        } else {
            entry + seq![','] + ser_pairs(pairs.drop_first())
        }
    }
}

/// Writes a quoted, escaped JSON string literal.
pub fn write_text(out: &mut Vec<char>, s: &str)
    ensures
        final(out)@ == old(out)@ + seq!['"'] + esc(s@) + seq!['"'],
{
    out.push('"');
    let n = s.unicode_len();
    let mut i: usize = 0;
    while i < n
        invariant
            n == s@.len(),
            i <= n,
            out@ == old(out)@ + seq!['"'] + esc(s@.subrange(0, i as int)),
        decreases n - i,
    {
        let c = s.get_char(i);
        if c == '"' || c == '\\' {
            out.push('\\');
        }
        out.push(c);
        proof {
            lemma_esc_push(s@.subrange(0, i as int), c);
            assert(s@.subrange(0, i as int) + seq![c] =~= s@.subrange(0, i as int + 1));
            assert(out@ =~= old(out)@ + seq!['"'] + esc(s@.subrange(0, i as int + 1)));
        }
        i = i + 1;
    }
    out.push('"');
    proof {
        assert(s@.subrange(0, s@.len() as int) =~= s@);
        assert(out@ =~= old(out)@ + seq!['"'] + esc(s@) + seq!['"']);
    }
}

/// Writes the wire text of a value at the end of `out`.
pub fn write_json(out: &mut Vec<char>, v: &JsonValue)
    ensures
        final(out)@ == old(out)@ + ser(v.deep_view()),
    decreases v, 1int, 0int,
{
    match v {
        JsonValue::Null => {
            out.push('n');
            out.push('u');
            out.push('l');
            out.push('l');
            assert(out@ =~= old(out)@ + ser(v.deep_view()));
        },
        JsonValue::Bool(b) => {
            if *b {
                out.push('t');
                out.push('r');
                out.push('u');
                out.push('e');
            } else {
                out.push('f');
                out.push('a');
                out.push('l');
                out.push('s');
                out.push('e');
            }
            assert(out@ =~= old(out)@ + ser(v.deep_view()));
        },
        JsonValue::UInt(n) => {
            push_dec_digits(out, *n);
        },
        JsonValue::Int(n) => {
            if *n < 0 {
                out.push('-');
                if *n == i64::MIN {
                    push_dec_digits(out, 9223372036854775808u64);
                } else {
                    push_dec_digits(out, (-*n) as u64);
                }
                assert(out@ =~= old(out)@ + ser(v.deep_view()));
            } else {
                push_dec_digits(out, *n as u64);
            }
        },
        JsonValue::Text(s) => {
            write_text(out, s.as_str());
            assert(out@ =~= old(out)@ + ser(v.deep_view()));
        },
        JsonValue::Arr(items) => {
            out.push('[');
            if items.len() > 0 {
                write_items(out, items, 0);
            }
            out.push(']');
            proof {
                assert(items@.subrange(0, items@.len() as int) =~= items@);
                assert(out@ =~= old(out)@ + ser(v.deep_view()));
            }
        },
        JsonValue::Obj(pairs) => {
            out.push('{');
            if pairs.len() > 0 {
                write_pairs(out, pairs, 0);
            }
            out.push('}');
            proof {
                assert(pairs@.subrange(0, pairs@.len() as int) =~= pairs@);
                assert(out@ =~= old(out)@ + ser(v.deep_view()));
            }
        },
    }
}

/// Writes the elements of `items` from `start` on, separated by commas.
pub fn write_items(out: &mut Vec<char>, items: &Vec<JsonValue>, start: usize)
    requires
        start < items.len(),
    ensures
        final(out)@ == old(out)@ + ser_items(json_view_seq(items@.subrange(start as int, items@.len() as int))),
    decreases items, 0int, items.len() - start,
{
    write_json(out, &items[start]);
    let ghost rest = items@.subrange(start as int, items@.len() as int);
    proof {
        lemma_json_view_seq(rest);
        assert(rest[0] == items@[start as int]);
    }
    if start + 1 < items.len() {
        out.push(',');
        write_items(out, items, start + 1);
        proof {
            let rest1 = items@.subrange(start as int + 1, items@.len() as int);
            lemma_json_view_seq(rest1);
            assert forall|i: int| 0 <= i < json_view_seq(rest1).len() implies
                json_view_seq(rest).drop_first()[i] == json_view_seq(rest1)[i] by {
                assert(rest[i + 1] == rest1[i]);
                assert(json_view_seq(rest)[i + 1] == json_view(rest[i + 1]));
            }
            assert(json_view_seq(rest).drop_first() =~= json_view_seq(rest1));
            assert(out@ =~= old(out)@ + ser_items(json_view_seq(rest)));
        }
    } else {
        proof {
            assert(json_view_seq(rest).len() == 1);
            assert(out@ =~= old(out)@ + ser_items(json_view_seq(rest)));
        }
    }
}

/// Writes the members of `pairs` from `start` on, separated by commas.
pub fn write_pairs(out: &mut Vec<char>, pairs: &Vec<(String, JsonValue)>, start: usize)
    requires
        start < pairs.len(),
    ensures
        final(out)@ == old(out)@ + ser_pairs(json_view_pairs(pairs@.subrange(start as int, pairs@.len() as int))),
    decreases pairs, 0int, pairs.len() - start,
{
    write_text(out, pairs[start].0.as_str());
    out.push(':');
    write_json(out, &pairs[start].1);
    let ghost rest = pairs@.subrange(start as int, pairs@.len() as int);
    proof {
        lemma_json_view_pairs(rest);
        assert(rest[0] == pairs@[start as int]);
    }
    if start + 1 < pairs.len() {
        out.push(',');
        write_pairs(out, pairs, start + 1);
        proof {
            let rest1 = pairs@.subrange(start as int + 1, pairs@.len() as int);
            lemma_json_view_pairs(rest1);
            assert forall|i: int| 0 <= i < json_view_pairs(rest1).len() implies
                json_view_pairs(rest).drop_first()[i] == json_view_pairs(rest1)[i] by {
                assert(rest[i + 1] == rest1[i]);
                assert(json_view_pairs(rest)[i + 1] == (rest[i + 1].0@, json_view(rest[i + 1].1)));
            }
            assert(json_view_pairs(rest).drop_first() =~= json_view_pairs(rest1));
            assert(out@ =~= old(out)@ + ser_pairs(json_view_pairs(rest)));
        }
    } else {
        proof {
            assert(json_view_pairs(rest).len() == 1);
            assert(out@ =~= old(out)@ + ser_pairs(json_view_pairs(rest)));
        }
    }
}

/// The wire text of a JSON value, as an owned string.
pub fn serialize_json(v: &JsonValue) -> (r: String)
    ensures
        r@ == ser(v.deep_view()),
{
    let mut out: Vec<char> = Vec::new();
    write_json(&mut out, v);
    chars_to_string(&out)
}

} // verus!
