//! Values of the data stream in words, as errors quote them.

use vstd::prelude::*;
use vstd::string::*;
use super::codec::{entry_views, value_views, Value, ValueView};
use crate::text::{decimal, push_decimal};

verus! {

/// A text in double quotes, as the standard library prints it for debugging.
pub uninterp spec fn quoted(s: Seq<char>) -> Seq<char>;

/// Prints a text with the `Debug` of `str`. The result is a function of the text,
/// named [`quoted`].
#[verifier::external_body]
fn quote(s: &str) -> (r: String)
    ensures
        r@ == quoted(s@),
{
    format!("{:?}", s)
}

/// A signed number in decimal.
pub open spec fn signed_decimal(i: int) -> Seq<char> {
    if i < 0 {
        "-"@ + decimal((-i) as nat)
    } else {
        decimal(i as nat)
    }
}

/// Bytes in decimal, separated by commas.
pub open spec fn shown_bytes(bytes: Seq<u8>) -> Seq<char>
    decreases bytes.len(),
{
    if bytes.len() == 0 {
        Seq::empty()
    } else if bytes.len() == 1 {
        decimal(bytes[0] as nat)
    } else {
        shown_bytes(bytes.drop_last()) + ", "@ + decimal(bytes.last() as nat)
    }
}

/// A value in words: the name of its kind, and what it holds. A floating-point
/// number is told by its bits.
pub open spec fn shown(v: ValueView) -> Seq<char>
    decreases v,
{
    match v {
        ValueView::Bool(b) => if b {
            "Bool(true)"@
        } else {
            "Bool(false)"@
        },
        ValueView::Null => "Null"@,
        ValueView::Int(i) => "Int("@ + signed_decimal(i as int) + ")"@,
        ValueView::Int64(i) => "Int64("@ + signed_decimal(i as int) + ")"@,
        ValueView::Float(bits) => "Float("@ + decimal(bits as nat) + ")"@,
        ValueView::Text(s) => "String("@ + quoted(s) + ")"@,
        ValueView::Data(d) => "Data(["@ + shown_bytes(d) + "])"@,
        ValueView::Array(items) => "Array(["@ + shown_items(items) + "])"@,
        ValueView::Dict(entries) => "Dict(["@ + shown_entries(entries) + "])"@,
        ValueView::Uuid(b) => "Uuid(["@ + shown_bytes(b) + "])"@,
        ValueView::Date(bits) => "Date("@ + decimal(bits as nat) + ")"@,
    }
}

pub open spec fn shown_items(items: Seq<ValueView>) -> Seq<char>
    decreases items,
{
    if items.len() == 0 {
        Seq::empty()
    } else if items.len() == 1 {
        shown(items.last())
    } else {
        shown_items(items.drop_last()) + ", "@ + shown(items.last())
    }
}

pub open spec fn shown_entries(entries: Seq<(Seq<char>, ValueView)>) -> Seq<char>
    decreases entries,
{
    if entries.len() == 0 {
        Seq::empty()
    } else {
        let last = "("@ + quoted(entries.last().0) + ", "@ + shown(entries.last().1) + ")"@;
        if entries.len() == 1 {
            last
        } else {
            shown_entries(entries.drop_last()) + ", "@ + last
        }
    }
}

fn show_signed(i: i64, out: &mut String)
    ensures
        final(out)@ == old(out)@ + signed_decimal(i as int),
{
    if i < 0 {
        out.append("-");
        push_decimal(out, (-(i as i128)) as u64);
    } else {
        push_decimal(out, i as u64);
    }
    assert(out@ =~= old(out)@ + signed_decimal(i as int));
}

fn show_bytes(bytes: &[u8], out: &mut String)
    ensures
        final(out)@ == old(out)@ + shown_bytes(bytes@),
{
    let mut i: usize = 0;
    assert(bytes@.take(0) =~= Seq::empty());
    while i < bytes.len()
        invariant
            i <= bytes@.len(),
            out@ == old(out)@ + shown_bytes(bytes@.take(i as int)),
        decreases bytes@.len() - i,
    {
        if i > 0 {
            out.append(", ");
        }
        push_decimal(out, bytes[i] as u64);
        proof {
            assert(bytes@.take(i + 1).drop_last() =~= bytes@.take(i as int));
            assert(bytes@.take(i + 1).last() == bytes@[i as int]);
        }
        i = i + 1;
        assert(out@ =~= old(out)@ + shown_bytes(bytes@.take(i as int)));
    }
    assert(bytes@.take(i as int) =~= bytes@);
}

/// Appends a value in words.
pub fn show(value: &Value, out: &mut String)
    ensures
        final(out)@ == old(out)@ + shown(value@),
    decreases value,
{
    match value {
        Value::Bool(b) => if *b {
            out.append("Bool(true)");
        } else {
            out.append("Bool(false)");
        },
        Value::Null => out.append("Null"),
        Value::Int(i) => {
            out.append("Int(");
            show_signed(*i, out);
            out.append(")");
        },
        Value::Int64(i) => {
            out.append("Int64(");
            show_signed(*i, out);
            out.append(")");
        },
        Value::Float(bits) => {
            out.append("Float(");
            push_decimal(out, *bits);
            out.append(")");
        },
        Value::String(s) => {
            out.append("String(");
            let text = quote(s.as_str());
            out.append(text.as_str());
            out.append(")");
        },
        Value::Data(d) => {
            out.append("Data([");
            show_bytes(d.as_slice(), out);
            out.append("])");
        },
        Value::Array(items) => {
            out.append("Array([");
            let ghost head = out@;
            let mut i: usize = 0;
            assert(value_views(items@.take(0)) =~= Seq::empty());
            while i < items.len()
                invariant
                    i <= items@.len(),
                    value == Value::Array(*items),
                    out@ == head + shown_items(value_views(items@.take(i as int))),
                decreases items@.len() - i,
            {
                if i > 0 {
                    out.append(", ");
                }
                assert(decreases_to!(*value => value->Array_0@[i as int]));
                show(&items[i], out);
                proof {
                    let grown = value_views(items@.take(i + 1));
                    assert(grown.drop_last() =~= value_views(items@.take(i as int)));
                    assert(grown.last() == items@[i as int]@);
                    assert(out@ =~= head + shown_items(grown));
                }
                i = i + 1;
            }
            out.append("])");
            assert(items@.take(items@.len() as int) =~= items@);
            assert(value@->Array_0 =~= value_views(items@));
        },
        Value::Dict(entries) => {
            out.append("Dict([");
            let ghost head = out@;
            let mut i: usize = 0;
            assert(entry_views(entries@.take(0)) =~= Seq::empty());
            while i < entries.len()
                invariant
                    i <= entries@.len(),
                    value == Value::Dict(*entries),
                    out@ == head + shown_entries(entry_views(entries@.take(i as int))),
                decreases entries@.len() - i,
            {
                if i > 0 {
                    out.append(", ");
                }
                out.append("(");
                let key = quote(entries[i].0.as_str());
                out.append(key.as_str());
                out.append(", ");
                assert(decreases_to!(*value => value->Dict_0@[i as int].1));
                show(&entries[i].1, out);
                out.append(")");
                proof {
                    let grown = entry_views(entries@.take(i + 1));
                    assert(grown.drop_last() =~= entry_views(entries@.take(i as int)));
                    assert(grown.last() == (entries@[i as int].0@, entries@[i as int].1@));
                    assert(out@ =~= head + shown_entries(grown));
                }
                i = i + 1;
            }
            out.append("])");
            assert(entries@.take(entries@.len() as int) =~= entries@);
            assert(value@->Dict_0 =~= entry_views(entries@));
        },
        Value::Uuid(b) => {
            out.append("Uuid([");
            show_bytes(b.as_slice(), out);
            out.append("])");
        },
        Value::Date(bits) => {
            out.append("Date(");
            push_decimal(out, *bits);
            out.append(")");
        },
    }
    assert(out@ =~= old(out)@ + shown(value@));
}

/// A negative number has a minus sign in front of its digits, and any other number none.
pub proof fn law_negative_numbers_have_a_sign(n: nat)
    ensures
        n > 0 ==> signed_decimal(-(n as int)) == seq!['-'] + decimal(n),
        signed_decimal(n as int) == decimal(n),
{
    reveal_strlit("-");
    assert("-"@ =~= seq!['-']);
}

/// Lists are told value by value, with a comma and a space between each two.
pub proof fn law_values_are_told_one_by_one(
    bytes: Seq<u8>,
    b: u8,
    items: Seq<ValueView>,
    v: ValueView,
)
    ensures
        shown_bytes(seq![b]) == decimal(b as nat),
        bytes.len() > 0 ==> shown_bytes(bytes.push(b)) == shown_bytes(bytes) + seq![',', ' ']
            + decimal(b as nat),
        shown_items(seq![v]) == shown(v),
        items.len() > 0 ==> shown_items(items.push(v)) == shown_items(items) + seq![',', ' ']
            + shown(v),
{
    reveal_strlit(", ");
    assert(", "@ =~= seq![',', ' ']);
    assert(bytes.push(b).drop_last() =~= bytes);
    assert(items.push(v).drop_last() =~= items);
}

/// A value is told by the name of its kind and what it holds, in brackets.
pub proof fn law_a_value_is_told_by_its_kind(v: ValueView)
    ensures
        v == ValueView::Bool(true) ==> shown(v) == "Bool(true)"@,
        v == ValueView::Bool(false) ==> shown(v) == "Bool(false)"@,
        v is Null ==> shown(v) == "Null"@,
        v matches ValueView::Int(i) ==> shown(v) == "Int("@ + signed_decimal(i as int) + ")"@,
        v matches ValueView::Int64(i) ==> shown(v) == "Int64("@ + signed_decimal(i as int) + ")"@,
        v matches ValueView::Float(bits) ==> shown(v) == "Float("@ + decimal(bits as nat) + ")"@,
        v matches ValueView::Text(s) ==> shown(v) == "String("@ + quoted(s) + ")"@,
        v matches ValueView::Data(d) ==> shown(v) == "Data(["@ + shown_bytes(d) + "])"@,
        v matches ValueView::Array(items) ==> shown(v) == "Array(["@ + shown_items(items) + "])"@,
        v matches ValueView::Dict(entries) ==> shown(v) == "Dict(["@ + shown_entries(entries)
            + "])"@,
        v matches ValueView::Uuid(b) ==> shown(v) == "Uuid(["@ + shown_bytes(b) + "])"@,
        v matches ValueView::Date(bits) ==> shown(v) == "Date("@ + decimal(bits as nat) + ")"@,
{
}

/// An entry of a dictionary is told as its key in quotes and its value, in brackets.
pub proof fn law_entries_are_told_with_their_keys(
    entries: Seq<(Seq<char>, ValueView)>,
    key: Seq<char>,
    v: ValueView,
)
    ensures
        ({
            let entry = "("@ + quoted(key) + ", "@ + shown(v) + ")"@;
            &&& shown_entries(seq![(key, v)]) == entry
            &&& entries.len() > 0 ==> shown_entries(entries.push((key, v))) == shown_entries(entries)
                + ", "@ + entry
        }),
{
    assert(entries.push((key, v)).drop_last() =~= entries);
}

} // verus!
