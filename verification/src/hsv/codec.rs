//! The HomeKit Data Stream binary value encoding, used for header and message
//! dictionaries.

use vstd::prelude::*;
use vstd::string::*;
use vstd::utf8::encode_utf8;
use crate::setup::hex_char;
use crate::text::{decimal, lemma_text_roundtrip, lossy, push_decimal, same, text_of};
use super::show::{show, shown};
use super::float::{truncated, widen, widened, truncate};
use crate::wire::{law_bytes_are_digits, law_negative_numbers_are_the_upper_half, le_bytes, le_value, lemma_le_bytes_len, lemma_le_roundtrip, lemma_le_value_bound, lemma_pow256_values, pow256, push_le, read_le, signed_of, signed_value, to_vec, twos_complement, unsigned_of};

verus! {

/// A value of the encoding. Floating-point numbers are held as their IEEE 754
/// bit patterns.
#[derive(Debug, PartialEq)]
pub enum Value {
    Bool(bool),
    Null,
    Int(i64),
    /// Same as `Int` but always encoded with the 8-byte form, as header `id` and
    /// `status` fields are.
    Int64(i64),
    /// The bits of a binary64 number.
    Float(u64),
    String(String),
    Data(Vec<u8>),
    Array(Vec<Value>),
    Dict(Vec<(String, Value)>),
    Uuid([u8; 16]),
    /// Seconds since 2001-01-01T00:00:00, as the bits of a binary64 number.
    Date(u64),
}

/// The mathematical value of a [`Value`].
pub ghost enum ValueView {
    Bool(bool),
    Null,
    Int(i64),
    Int64(i64),
    Float(u64),
    Text(Seq<char>),
    Data(Seq<u8>),
    Array(Seq<ValueView>),
    Dict(Seq<(Seq<char>, ValueView)>),
    Uuid(Seq<u8>),
    Date(u64),
}

pub open spec fn value_view(v: Value) -> ValueView
    decreases v,
{
    match v {
        Value::Bool(b) => ValueView::Bool(b),
        Value::Null => ValueView::Null,
        Value::Int(i) => ValueView::Int(i),
        Value::Int64(i) => ValueView::Int64(i),
        Value::Float(f) => ValueView::Float(f),
        Value::String(s) => ValueView::Text(s@),
        Value::Data(d) => ValueView::Data(d@),
        Value::Array(items) => ValueView::Array(
            Seq::new(
                items@.len(),
                |i: int|
                    if 0 <= i < items@.len() {
                        value_view(items@[i])
                    } else {
                        arbitrary()
                    },
            ),
        ),
        Value::Dict(entries) => ValueView::Dict(
            Seq::new(
                entries@.len(),
                |i: int|
                    if 0 <= i < entries@.len() {
                        (entries@[i].0@, value_view(entries@[i].1))
                    } else {
                        arbitrary()
                    },
            ),
        ),
        Value::Uuid(b) => ValueView::Uuid(b@),
        Value::Date(d) => ValueView::Date(d),
    }
}

impl View for Value {
    type V = ValueView;

    open spec fn view(&self) -> ValueView {
        value_view(*self)
    }
}

/// The mathematical values of a list of values.
pub open spec fn value_views(items: Seq<Value>) -> Seq<ValueView> {
    Seq::new(items.len(), |i: int| items[i]@)
}

/// The mathematical values of a list of dictionary entries.
pub open spec fn entry_views(entries: Seq<(String, Value)>) -> Seq<(Seq<char>, ValueView)> {
    Seq::new(entries.len(), |i: int| (entries[i].0@, entries[i].1@))
}

proof fn lemma_array_view(items: Vec<Value>)
    ensures
        Value::Array(items)@ == ValueView::Array(value_views(items@)),
{
    assert(Value::Array(items)@->Array_0 =~= value_views(items@));
}

proof fn lemma_dict_view(entries: Vec<(String, Value)>)
    ensures
        Value::Dict(entries)@ == ValueView::Dict(entry_views(entries@)),
{
    assert(Value::Dict(entries)@->Dict_0 =~= entry_views(entries@));
}

/// The bytes before a text of `n` bytes.
pub open spec fn text_header(n: nat) -> Seq<u8> {
    if n <= 32 {
        seq![(0x40 + n) as u8]
    } else if n <= 0xff {
        seq![0x61u8] + le_bytes(n, 1)
    } else if n <= 0xffff {
        seq![0x62u8] + le_bytes(n, 2)
    } else {
        seq![0x63u8] + le_bytes(n, 4)
    }
}

/// The bytes before `n` bytes of data. The short form is never written.
pub open spec fn data_header(n: nat) -> Seq<u8> {
    if n <= 0xff {
        seq![0x91u8] + le_bytes(n, 1)
    } else if n <= 0xffff {
        seq![0x92u8] + le_bytes(n, 2)
    } else {
        seq![0x93u8] + le_bytes(n, 4)
    }
}

pub open spec fn encoded_text(s: Seq<char>) -> Seq<u8> {
    text_header(encode_utf8(s).len()) + encode_utf8(s)
}

/// An integer in the shortest form that holds it.
pub open spec fn encoded_int(v: int) -> Seq<u8> {
    if v == -1 {
        seq![0x07u8]
    } else if 0 <= v <= 38 {
        seq![(0x08 + v) as u8]
    } else if -0x80 <= v < 0x80 {
        seq![0x30u8] + le_bytes(twos_complement(v, 1), 1)
    } else if -0x8000 <= v < 0x8000 {
        seq![0x31u8] + le_bytes(twos_complement(v, 2), 2)
    } else if -0x8000_0000 <= v < 0x8000_0000 {
        seq![0x32u8] + le_bytes(twos_complement(v, 4), 4)
    } else {
        seq![0x33u8] + le_bytes(twos_complement(v, 8), 8)
    }
}

/// The bytes that stand for a value.
pub open spec fn encoded(v: ValueView) -> Seq<u8>
    decreases v,
{
    match v {
        ValueView::Bool(b) => if b {
            seq![0x01u8]
        } else {
            seq![0x02u8]
        },
        ValueView::Null => seq![0x04u8],
        ValueView::Uuid(b) => seq![0x05u8] + b,
        ValueView::Date(d) => seq![0x06u8] + le_bytes(d as nat, 8),
        ValueView::Int(i) => encoded_int(i as int),
        ValueView::Int64(i) => seq![0x33u8] + le_bytes(twos_complement(i as int, 8), 8),
        ValueView::Float(f) => seq![0x36u8] + le_bytes(f as nat, 8),
        ValueView::Text(s) => encoded_text(s),
        ValueView::Data(d) => data_header(d.len()) + d,
        ValueView::Array(items) => if items.len() <= 12 {
            seq![(0xD0 + items.len()) as u8] + encoded_items(items)
        } else {
            seq![0xDFu8] + encoded_items(items) + seq![0x03u8]
        },
        ValueView::Dict(entries) => if entries.len() <= 14 {
            seq![(0xE0 + entries.len()) as u8] + encoded_entries(entries)
        } else {
            seq![0xEFu8] + encoded_entries(entries) + seq![0x03u8]
        },
    }
}

pub open spec fn encoded_items(items: Seq<ValueView>) -> Seq<u8>
    decreases items,
{
    if items.len() == 0 {
        Seq::empty()
    } else {
        encoded_items(items.drop_last()) + encoded(items.last())
    }
}

pub open spec fn encoded_entries(entries: Seq<(Seq<char>, ValueView)>) -> Seq<u8>
    decreases entries,
{
    if entries.len() == 0 {
        Seq::empty()
    } else {
        encoded_entries(entries.drop_last()) + encoded_text(entries.last().0) + encoded(
            entries.last().1,
        )
    }
}

// --- Encoding ---

fn encode_text(s: &str, out: &mut Vec<u8>)
    ensures
        final(out)@ == old(out)@ + encoded_text(s@),
{
    let bytes = s.as_bytes();
    let n: usize = bytes.len();
    if n <= 32 {
        out.push(0x40 + n as u8);
    } else if n <= 0xff {
        out.push(0x61);
        push_le(out, n as u64, 1);
    } else if n <= 0xffff {
        out.push(0x62);
        push_le(out, n as u64, 2);
    } else {
        out.push(0x63);
        push_le(out, n as u64, 4);
    }
    out.extend_from_slice(bytes);
    assert(out@ =~= old(out)@ + encoded_text(s@));
}

fn encode_int(v: i64, out: &mut Vec<u8>)
    ensures
        final(out)@ == old(out)@ + encoded_int(v as int),
{
    let n: u64 = unsigned_of(v);
    proof {
        lemma_pow256_values();
    }
    if v == -1 {
        out.push(0x07);
    } else if v >= 0 && v <= 38 {
        // 0x2F is accepted but never written.
        out.push(0x08 + v as u8);
    } else if v >= -0x80 && v < 0x80 {
        out.push(0x30);
        push_le(out, n, 1);
        proof {
            lemma_low_bytes(v as int, 1);
        }
    } else if v >= -0x8000 && v < 0x8000 {
        out.push(0x31);
        push_le(out, n, 2);
        proof {
            lemma_low_bytes(v as int, 2);
        }
    } else if v >= -0x8000_0000 && v < 0x8000_0000 {
        out.push(0x32);
        push_le(out, n, 4);
        proof {
            lemma_low_bytes(v as int, 4);
        }
    } else {
        out.push(0x33);
        push_le(out, n, 8);
    }
    assert(out@ =~= old(out)@ + encoded_int(v as int));
}

/// The low-order bytes of a number do not see what is added above them.
proof fn lemma_le_bytes_above(n: nat, k: nat, width: nat)
    ensures
        le_bytes(n + k * pow256(width), width) == le_bytes(n, width),
    decreases width,
{
    if width > 0 {
        let below = pow256((width - 1) as nat);
        assert(k * (256 * below) == 256 * (k * below)) by (nonlinear_arith);
        assert((n + 256 * (k * below)) / 256 == n / 256 + k * below);
        assert((n + 256 * (k * below)) % 256 == n % 256);
        lemma_le_bytes_above(n / 256, k, (width - 1) as nat);
    }
}

/// The low-order bytes of a pattern do not depend on the width it is taken on.
proof fn lemma_low_bytes(v: int, width: nat)
    requires
        width == 1 || width == 2 || width == 4,
        v + pow256(width) >= 0,
        v < 0x8000_0000_0000_0000,
    ensures
        le_bytes(twos_complement(v, 8), width) == le_bytes(twos_complement(v, width), width),
{
    lemma_pow256_values();
    if v < 0 {
        let k: nat = if width == 1 {
            0xff_ffff_ffff_ffff
        } else if width == 2 {
            0xffff_ffff_ffff
        } else {
            0xffff_ffff
        };
        lemma_le_bytes_above(twos_complement(v, width), k, width);
    }
}

/// Appends the encoding of `value`.
pub fn encode(value: &Value, out: &mut Vec<u8>)
    ensures
        final(out)@ == old(out)@ + encoded(value@),
    decreases value,
{
    match value {
        Value::Bool(b) => if *b {
            out.push(0x01);
        } else {
            out.push(0x02);
        },
        Value::Null => out.push(0x04),
        Value::Uuid(bytes) => {
            out.push(0x05);
            out.extend_from_slice(bytes.as_slice());
        },
        Value::Date(bits) => {
            out.push(0x06);
            push_le(out, *bits, 8);
        },
        Value::Int(v) => encode_int(*v, out),
        Value::Int64(v) => {
            out.push(0x33);
            push_le(out, unsigned_of(*v), 8);
        },
        Value::Float(bits) => {
            out.push(0x36);
            push_le(out, *bits, 8);
        },
        Value::String(s) => encode_text(s.as_str(), out),
        Value::Data(d) => {
            let n: usize = d.len();
            if n <= 0xff {
                out.push(0x91);
                push_le(out, n as u64, 1);
            } else if n <= 0xffff {
                out.push(0x92);
                push_le(out, n as u64, 2);
            } else {
                out.push(0x93);
                push_le(out, n as u64, 4);
            }
            out.extend_from_slice(d.as_slice());
        },
        Value::Array(items) => {
            let short: bool = items.len() <= 12;
            if short {
                out.push(0xD0 + items.len() as u8);
            } else {
                out.push(0xDF);
            }
            let ghost head = out@;
            let mut i: usize = 0;
            assert(value_views(items@.take(0)) =~= Seq::empty());
            while i < items.len()
                invariant
                    i <= items@.len(),
                    value == Value::Array(*items),
                    out@ == head + encoded_items(value_views(items@.take(i as int))),
                decreases items@.len() - i,
            {
                assert(decreases_to!(*value => value->Array_0@[i as int]));
                encode(&items[i], out);
                proof {
                    let grown = value_views(items@.take(i + 1));
                    assert(grown.drop_last() =~= value_views(items@.take(i as int)));
                    assert(grown.last() == items@[i as int]@);
                }
                i = i + 1;
            }
            if !short {
                out.push(0x03);
            }
            assert(items@.take(items@.len() as int) =~= items@);
            proof {
                lemma_array_view(*items);
            }
        },
        Value::Dict(entries) => {
            let short: bool = entries.len() <= 14;
            if short {
                out.push(0xE0 + entries.len() as u8);
            } else {
                out.push(0xEF);
            }
            let ghost head = out@;
            let mut i: usize = 0;
            assert(entry_views(entries@.take(0)) =~= Seq::empty());
            while i < entries.len()
                invariant
                    i <= entries@.len(),
                    value == Value::Dict(*entries),
                    out@ == head + encoded_entries(entry_views(entries@.take(i as int))),
                decreases entries@.len() - i,
            {
                encode_text(entries[i].0.as_str(), out);
                assert(decreases_to!(*value => value->Dict_0@[i as int].1));
                encode(&entries[i].1, out);
                proof {
                    let grown = entry_views(entries@.take(i + 1));
                    assert(grown.drop_last() =~= entry_views(entries@.take(i as int)));
                    assert(grown.last() == (entries@[i as int].0@, entries@[i as int].1@));
                }
                i = i + 1;
            }
            if !short {
                out.push(0x03);
            }
            assert(entries@.take(entries@.len() as int) =~= entries@);
            proof {
                lemma_dict_view(*entries);
            }
        },
    }
    assert(out@ =~= old(out)@ + encoded(value@));
}

/// The encoding of `value`.
pub fn encode_to_vec(value: &Value) -> (out: Vec<u8>)
    ensures
        out@ == encoded(value@),
{
    let mut out: Vec<u8> = Vec::new();
    encode(value, &mut out);
    assert(out@ =~= encoded(value@));
    out
}

// --- Decoding ---

/// Why a buffer does not hold a value.
#[derive(Debug, PartialEq)]
pub enum DecodeFault {
    /// The buffer ends before `need` more bytes; `have` are left.
    Short { need: u64, have: usize },
    ZeroTag,
    UnknownTag(u8),
    /// A reference to a value that has not been decoded.
    BackReference(usize),
    TerminatorInArray,
    TerminatorInDict,
    /// In a dictionary of a given length, this value where a key was due, or a
    /// terminator.
    KeyExpected(Option<Value>),
    /// In a dictionary up to a terminator, this value where a key was due.
    KeyNotString(Value),
    /// A terminator where a value was due.
    UnexpectedTerminator,
}

/// The mathematical value of a [`DecodeFault`].
pub ghost enum FaultView {
    Short { need: u64, have: usize },
    ZeroTag,
    UnknownTag(u8),
    BackReference(usize),
    TerminatorInArray,
    TerminatorInDict,
    KeyExpected(Option<ValueView>),
    KeyNotString(ValueView),
    UnexpectedTerminator,
}

impl View for DecodeFault {
    type V = FaultView;

    open spec fn view(&self) -> FaultView {
        match *self {
            DecodeFault::Short { need, have } => FaultView::Short { need, have },
            DecodeFault::ZeroTag => FaultView::ZeroTag,
            DecodeFault::UnknownTag(tag) => FaultView::UnknownTag(tag),
            DecodeFault::BackReference(index) => FaultView::BackReference(index),
            DecodeFault::TerminatorInArray => FaultView::TerminatorInArray,
            DecodeFault::TerminatorInDict => FaultView::TerminatorInDict,
            DecodeFault::KeyExpected(got) => FaultView::KeyExpected(
                match got {
                    Some(value) => Some(value@),
                    None => None,
                },
            ),
            DecodeFault::KeyNotString(value) => FaultView::KeyNotString(value@),
            DecodeFault::UnexpectedTerminator => FaultView::UnexpectedTerminator,
        }
    }
}

#[derive(Debug, PartialEq)]
pub struct DecodeError(pub DecodeFault);

/// What a fault is called.
pub open spec fn fault_text(fault: FaultView) -> Seq<char> {
    match fault {
        FaultView::Short { need, have } => "need "@ + decimal(need as nat) + " bytes, have "@
            + decimal(have as nat),
        FaultView::ZeroTag => "zero tag"@,
        FaultView::UnknownTag(tag) => "unknown tag 0x"@ + seq![
            hex_char((tag / 16) as nat),
            hex_char((tag % 16) as nat),
        ],
        FaultView::BackReference(index) => "back-reference "@ + decimal(index as nat)
            + " out of range"@,
        FaultView::TerminatorInArray => "terminator in array"@,
        FaultView::TerminatorInDict => "terminator in dict"@,
        FaultView::KeyExpected(got) => "expected string dict key, got "@ + match got {
            Some(value) => "Some("@ + shown(value) + ")"@,
            None => "None"@,
        },
        FaultView::KeyNotString(value) => "non-string dict key: "@ + shown(value),
        FaultView::UnexpectedTerminator => "unexpected terminator"@,
    }
}

fn hex_digit(d: u8) -> (c: char)
    requires
        d < 16,
    ensures
        c == hex_char(d as nat),
{
    if d < 10 {
        (48 + d) as char
    } else {
        (87 + d) as char
    }
}

impl DecodeError {
    /// The error in words.
    pub fn message(&self) -> (s: String)
        ensures
            s@ == "HDS decode error: "@ + fault_text(self.0@),
    {
        let mut s = String::from_str("HDS decode error: ");
        match &self.0 {
            DecodeFault::Short { need, have } => {
                s.append("need ");
                push_decimal(&mut s, *need);
                s.append(" bytes, have ");
                push_decimal(&mut s, *have as u64);
            },
            DecodeFault::ZeroTag => s.append("zero tag"),
            DecodeFault::UnknownTag(tag) => {
                s.append("unknown tag 0x");
                s.push(hex_digit(*tag / 16));
                s.push(hex_digit(*tag % 16));
            },
            DecodeFault::BackReference(index) => {
                s.append("back-reference ");
                push_decimal(&mut s, *index as u64);
                s.append(" out of range");
            },
            DecodeFault::TerminatorInArray => s.append("terminator in array"),
            DecodeFault::TerminatorInDict => s.append("terminator in dict"),
            DecodeFault::KeyExpected(got) => {
                s.append("expected string dict key, got ");
                match got {
                    Some(value) => {
                        s.append("Some(");
                        show(value, &mut s);
                        s.append(")");
                    },
                    None => s.append("None"),
                }
            },
            DecodeFault::KeyNotString(value) => {
                s.append("non-string dict key: ");
                show(value, &mut s);
            },
            DecodeFault::UnexpectedTerminator => s.append("unexpected terminator"),
        }
        assert(s@ =~= "HDS decode error: "@ + fault_text(self.0@));
        s
    }
}

/// What comes of decoding one value: the value, the bytes after it and the leaf
/// values decoded so far; or a terminator, and the bytes after it; or a fault, the
/// bytes not read when it was found, and the leaf values decoded before it.
pub ghost enum Decoded {
    Item { value: ValueView, rest: Seq<u8>, leaves: Seq<ValueView> },
    End { rest: Seq<u8> },
    Fail { fault: FaultView, rest: Seq<u8>, leaves: Seq<ValueView> },
}

/// What comes of decoding several values.
pub ghost enum DecodedList<T> {
    Items { values: Seq<T>, rest: Seq<u8>, leaves: Seq<ValueView> },
    Fail { fault: FaultView, rest: Seq<u8>, leaves: Seq<ValueView> },
}

/// A fault, and the bytes not read when it was found.
pub type FaultAt = (FaultView, Seq<u8>);

/// The first `n` bytes of `b` and the rest, or the fault where there are fewer.
pub open spec fn split_bytes(b: Seq<u8>, n: nat) -> Result<(Seq<u8>, Seq<u8>), FaultAt> {
    if b.len() < n {
        Err((FaultView::Short { need: n as u64, have: b.len() as usize }, b))
    } else {
        Ok((b.take(n as int), b.skip(n as int)))
    }
}

/// The bytes before the first `mark`, and the bytes after it. Where there is none,
/// all the bytes were read.
pub open spec fn split_until(b: Seq<u8>, mark: u8) -> Result<(Seq<u8>, Seq<u8>), FaultAt> {
    if b.contains(mark) {
        let i = b.index_of_first(mark)->0;
        Ok((b.take(i), b.skip(i + 1)))
    } else {
        Err((FaultView::Short { need: 1, have: 0 }, Seq::empty()))
    }
}

/// The bytes that a length of `width` bytes announces, and the bytes after them.
pub open spec fn split_counted(b: Seq<u8>, width: nat) -> Result<(Seq<u8>, Seq<u8>), FaultAt> {
    match split_bytes(b, width) {
        Err(fault) => Err(fault),
        Ok((len, rest)) => split_bytes(rest, le_value(len)),
    }
}

/// The width of the length field behind the tag `base + step`.
pub open spec fn length_width(step: int) -> nat {
    if step == 0 {
        1
    } else if step == 1 {
        2
    } else if step == 2 {
        4
    } else {
        8
    }
}

pub open spec fn map_leaf(
    parts: Result<(Seq<u8>, Seq<u8>), FaultAt>,
    f: spec_fn(Seq<u8>) -> ValueView,
) -> Result<(ValueView, Seq<u8>), FaultAt> {
    match parts {
        Ok((bytes, rest)) => Ok((f(bytes), rest)),
        Err(fault) => Err(fault),
    }
}

/// A signed integer of `width` bytes.
pub open spec fn int_leaf(bytes: Seq<u8>) -> ValueView {
    ValueView::Int(signed_value(le_value(bytes), bytes.len()) as i64)
}

/// The leaf value with tag `tag` whose payload starts `b`.
pub open spec fn leaf(tag: u8, b: Seq<u8>) -> Result<(ValueView, Seq<u8>), FaultAt> {
    if tag == 0x01 {
        Ok((ValueView::Bool(true), b))
    } else if tag == 0x02 {
        Ok((ValueView::Bool(false), b))
    } else if tag == 0x04 {
        Ok((ValueView::Null, b))
    } else if tag == 0x05 {
        map_leaf(split_bytes(b, 16), |x: Seq<u8>| ValueView::Uuid(x))
    } else if tag == 0x06 {
        map_leaf(split_bytes(b, 8), |x: Seq<u8>| ValueView::Date(le_value(x) as u64))
    } else if tag == 0x07 {
        Ok((ValueView::Int(-1i64), b))
    } else if 0x08 <= tag <= 0x2F {
        Ok((ValueView::Int((tag - 0x08) as i64), b))
    } else if tag == 0x30 {
        map_leaf(split_bytes(b, 1), |x: Seq<u8>| int_leaf(x))
    } else if tag == 0x31 {
        map_leaf(split_bytes(b, 2), |x: Seq<u8>| int_leaf(x))
    } else if tag == 0x32 {
        map_leaf(split_bytes(b, 4), |x: Seq<u8>| int_leaf(x))
    } else if tag == 0x33 {
        map_leaf(split_bytes(b, 8), |x: Seq<u8>| int_leaf(x))
    } else if tag == 0x35 {
        map_leaf(
            split_bytes(b, 4),
            |x: Seq<u8>| ValueView::Float(widened(le_value(x) as u32)),
        )
    } else if tag == 0x36 {
        map_leaf(split_bytes(b, 8), |x: Seq<u8>| ValueView::Float(le_value(x) as u64))
    } else if 0x40 <= tag <= 0x60 {
        map_leaf(split_bytes(b, (tag - 0x40) as nat), |x: Seq<u8>| ValueView::Text(text_of(x)))
    } else if 0x61 <= tag <= 0x64 {
        map_leaf(
            split_counted(b, length_width(tag - 0x61)),
            |x: Seq<u8>| ValueView::Text(text_of(x)),
        )
    } else if tag == 0x6F {
        map_leaf(split_until(b, 0x00), |x: Seq<u8>| ValueView::Text(text_of(x)))
    } else if 0x70 <= tag <= 0x90 {
        map_leaf(split_bytes(b, (tag - 0x70) as nat), |x: Seq<u8>| ValueView::Data(x))
    } else if 0x91 <= tag <= 0x94 {
        map_leaf(split_counted(b, length_width(tag - 0x91)), |x: Seq<u8>| ValueView::Data(x))
    } else if tag == 0x9F {
        map_leaf(split_until(b, 0x03), |x: Seq<u8>| ValueView::Data(x))
    } else if tag == 0x00 {
        Err((FaultView::ZeroTag, b))
    } else {
        Err((FaultView::UnknownTag(tag), b))
    }
}

/// What comes of decoding the value that starts `b`, where `leaves` are the leaf
/// values decoded before it.
pub open spec fn decoded(b: Seq<u8>, leaves: Seq<ValueView>) -> Decoded
    decreases b.len(), 0nat, 0nat,
{
    if b.len() == 0 {
        Decoded::Fail { fault: FaultView::Short { need: 1, have: 0 }, rest: b, leaves }
    } else {
        let tag = b[0];
        let rest = b.skip(1);
        if tag == 0x03 {
            Decoded::End { rest }
        } else if 0xA0 <= tag <= 0xCF {
            let index = tag - 0xA0;
            if index < leaves.len() {
                Decoded::Item { value: leaves[index], rest, leaves }
            } else {
                Decoded::Fail { fault: FaultView::BackReference(index as usize), rest, leaves }
            }
        } else if 0xD0 <= tag <= 0xDE {
            as_array(counted_items(Seq::empty(), rest, leaves, (tag - 0xD0) as nat))
        } else if tag == 0xDF {
            as_array(items_until_end(Seq::empty(), rest, leaves))
        } else if 0xE0 <= tag <= 0xEE {
            as_dict(counted_entries(Seq::empty(), rest, leaves, (tag - 0xE0) as nat))
        } else if tag == 0xEF {
            as_dict(entries_until_end(Seq::empty(), rest, leaves))
        } else {
            match leaf(tag, rest) {
                Ok((value, after)) => Decoded::Item {
                    value,
                    rest: after,
                    leaves: leaves.push(value),
                },
                Err((fault, after)) => Decoded::Fail { fault, rest: after, leaves },
            }
        }
    }
}

pub open spec fn as_array(list: DecodedList<ValueView>) -> Decoded {
    match list {
        DecodedList::Items { values, rest, leaves } => Decoded::Item {
            value: ValueView::Array(values),
            rest,
            leaves,
        },
        DecodedList::Fail { fault, rest, leaves } => Decoded::Fail { fault, rest, leaves },
    }
}

pub open spec fn as_dict(list: DecodedList<(Seq<char>, ValueView)>) -> Decoded {
    match list {
        DecodedList::Items { values, rest, leaves } => Decoded::Item {
            value: ValueView::Dict(values),
            rest,
            leaves,
        },
        DecodedList::Fail { fault, rest, leaves } => Decoded::Fail { fault, rest, leaves },
    }
}

/// `done` and `count` more values. Each value takes at least one byte.
pub open spec fn counted_items(
    done: Seq<ValueView>,
    b: Seq<u8>,
    leaves: Seq<ValueView>,
    count: nat,
) -> DecodedList<ValueView>
    decreases b.len(), count, 1nat,
{
    if count == 0 {
        DecodedList::Items { values: done, rest: b, leaves }
    } else {
        match decoded(b, leaves) {
            Decoded::Item { value, rest, leaves } => if rest.len() < b.len() {
                counted_items(done.push(value), rest, leaves, (count - 1) as nat)
            } else {
                arbitrary()
            },
            Decoded::End { rest } => DecodedList::Fail {
                fault: FaultView::TerminatorInArray,
                rest,
                leaves,
            },
            Decoded::Fail { fault, rest, leaves } => DecodedList::Fail { fault, rest, leaves },
        }
    }
}

/// `done` and the values up to the next terminator.
pub open spec fn items_until_end(
    done: Seq<ValueView>,
    b: Seq<u8>,
    leaves: Seq<ValueView>,
) -> DecodedList<ValueView>
    decreases b.len(), 1nat, 1nat,
{
    match decoded(b, leaves) {
        Decoded::Item { value, rest, leaves } => if rest.len() < b.len() {
            items_until_end(done.push(value), rest, leaves)
        } else {
            arbitrary()
        },
        Decoded::End { rest } => DecodedList::Items { values: done, rest, leaves },
        Decoded::Fail { fault, rest, leaves } => DecodedList::Fail { fault, rest, leaves },
    }
}

/// `done` and `count` more entries.
pub open spec fn counted_entries(
    done: Seq<(Seq<char>, ValueView)>,
    b: Seq<u8>,
    leaves: Seq<ValueView>,
    count: nat,
) -> DecodedList<(Seq<char>, ValueView)>
    decreases b.len(), count, 1nat,
{
    if count == 0 {
        DecodedList::Items { values: done, rest: b, leaves }
    } else {
        match decoded(b, leaves) {
            Decoded::Item { value: ValueView::Text(key), rest, leaves } => if rest.len() < b.len() {
                match decoded(rest, leaves) {
                    Decoded::Item { value, rest, leaves } => if rest.len() < b.len() {
                        counted_entries(done.push((key, value)), rest, leaves, (count - 1) as nat)
                    } else {
                        arbitrary()
                    },
                    Decoded::End { rest } => DecodedList::Fail {
                        fault: FaultView::TerminatorInDict,
                        rest,
                        leaves,
                    },
                    Decoded::Fail { fault, rest, leaves } => DecodedList::Fail { fault, rest, leaves },
                }
            } else {
                arbitrary()
            },
            Decoded::Fail { fault, rest, leaves } => DecodedList::Fail { fault, rest, leaves },
            Decoded::Item { value, rest, leaves } => DecodedList::Fail {
                fault: FaultView::KeyExpected(Some(value)),
                rest,
                leaves,
            },
            Decoded::End { rest } => DecodedList::Fail {
                fault: FaultView::KeyExpected(None),
                rest,
                leaves,
            },
        }
    }
}

/// `done` and the entries up to the next terminator in the place of a key.
pub open spec fn entries_until_end(
    done: Seq<(Seq<char>, ValueView)>,
    b: Seq<u8>,
    leaves: Seq<ValueView>,
) -> DecodedList<(Seq<char>, ValueView)>
    decreases b.len(), 1nat, 1nat,
{
    match decoded(b, leaves) {
        Decoded::End { rest } => DecodedList::Items { values: done, rest, leaves },
        Decoded::Item { value: ValueView::Text(key), rest, leaves } => if rest.len() < b.len() {
            match decoded(rest, leaves) {
                Decoded::Item { value, rest, leaves } => if rest.len() < b.len() {
                    entries_until_end(done.push((key, value)), rest, leaves)
                } else {
                    arbitrary()
                },
                Decoded::End { rest } => DecodedList::Fail {
                        fault: FaultView::TerminatorInDict,
                        rest,
                        leaves,
                    },
                Decoded::Fail { fault, rest, leaves } => DecodedList::Fail { fault, rest, leaves },
            }
        } else {
            arbitrary()
        },
        Decoded::Fail { fault, rest, leaves } => DecodedList::Fail { fault, rest, leaves },
        Decoded::Item { value, rest, leaves } => DecodedList::Fail {
            fault: FaultView::KeyNotString(value),
            rest,
            leaves,
        },
    }
}

impl Clone for Value {
    fn clone(&self) -> (r: Self)
        ensures
            r@ == self@,
        decreases self,
    {
        match self {
            Value::Bool(b) => Value::Bool(*b),
            Value::Null => Value::Null,
            Value::Int(i) => Value::Int(*i),
            Value::Int64(i) => Value::Int64(*i),
            Value::Float(f) => Value::Float(*f),
            Value::String(s) => Value::String(s.clone()),
            Value::Data(d) => Value::Data(d.clone()),
            Value::Array(items) => {
                let mut copies: Vec<Value> = Vec::new();
                let mut i: usize = 0;
                while i < items.len()
                    invariant
                        i <= items@.len(),
                        *self == Value::Array(*items),
                        copies@.len() == i,
                        forall|j: int| 0 <= j < i ==> (#[trigger] copies@[j])@ == items@[j]@,
                    decreases items@.len() - i,
                {
                    assert(decreases_to!(*self => self->Array_0@[i as int]));
                    let copy = items[i].clone();
                    copies.push(copy);
                    i = i + 1;
                }
                let r = Value::Array(copies);
                assert(r@->Array_0 =~= self@->Array_0);
                r
            },
            Value::Dict(entries) => {
                let mut copies: Vec<(String, Value)> = Vec::new();
                let mut i: usize = 0;
                while i < entries.len()
                    invariant
                        i <= entries@.len(),
                        *self == Value::Dict(*entries),
                        copies@.len() == i,
                        forall|j: int|
                            0 <= j < i ==> (#[trigger] copies@[j]).0@ == entries@[j].0@
                                && copies@[j].1@ == entries@[j].1@,
                    decreases entries@.len() - i,
                {
                    assert(decreases_to!(*self => self->Dict_0@[i as int].1));
                    let copy = entries[i].1.clone();
                    copies.push((entries[i].0.clone(), copy));
                    i = i + 1;
                }
                let r = Value::Dict(copies);
                assert(r@->Dict_0 =~= self@->Dict_0);
                r
            },
            Value::Uuid(b) => Value::Uuid(*b),
            Value::Date(d) => Value::Date(*d),
        }
    }
}

/// The value of the first entry with key `key`.
pub open spec fn lookup(entries: Seq<(Seq<char>, ValueView)>, key: Seq<char>) -> Option<ValueView>
    decreases entries.len(),
{
    if entries.len() == 0 {
        None
    } else if entries[0].0 == key {
        Some(entries[0].1)
    } else {
        lookup(entries.skip(1), key)
    }
}

/// The value under `key` where `v` is a dictionary that has it.
pub open spec fn field(v: ValueView, key: Seq<char>) -> Option<ValueView> {
    match v {
        ValueView::Dict(entries) => lookup(entries, key),
        _ => None,
    }
}

/// The integer that a value stands for.
pub open spec fn int_of(v: ValueView) -> Option<i64> {
    match v {
        ValueView::Int(i) => Some(i),
        ValueView::Int64(i) => Some(i),
        ValueView::Float(f) => Some(truncated(f)),
        _ => None,
    }
}

impl Value {
    /// A dictionary with the given entries, in their order.
    pub fn dict(entries: Vec<(&str, Value)>) -> (v: Value)
        ensures
            v@ == ValueView::Dict(
                Seq::new(entries@.len(), |i: int| (entries@[i].0@, entries@[i].1@)),
            ),
    {
        let ghost given = entries@;
        let mut kept: Vec<(String, Value)> = Vec::new();
        for entry in it: entries
            invariant
                it.seq() == given,
                kept@.len() == it.index(),
                forall|j: int|
                    0 <= j < it.index() ==> (#[trigger] kept@[j]).0@ == given[j].0@ && kept@[j].1@
                        == given[j].1@,
        {
            kept.push((entry.0.to_owned(), entry.1));
        }
        let v = Value::Dict(kept);
        assert(v@->Dict_0 =~= Seq::new(given.len(), |i: int| (given[i].0@, given[i].1@)));
        v
    }

    /// The value of the first entry with key `key`, where this is a dictionary.
    pub fn get<'a>(&'a self, key: &str) -> (v: Option<&'a Value>)
        ensures
            match v {
                Some(found) => field(self@, key@) == Some(found@),
                None => field(self@, key@) is None,
            },
    {
        match self {
            Value::Dict(entries) => {
                let mut i: usize = 0;
                let ghost views = entry_views(entries@);
                assert(self@->Dict_0 =~= views);
                assert(views.skip(0) =~= views);
                while i < entries.len()
                    invariant
                        i <= entries@.len(),
                        views == entry_views(entries@),
                        lookup(views, key@) == lookup(views.skip(i as int), key@),
                        field(self@, key@) == lookup(views, key@),
                    decreases entries@.len() - i,
                {
                    if same(entries[i].0.as_str(), key) {
                        return Some(&entries[i].1);
                    }
                    assert(views.skip(i as int).skip(1) =~= views.skip(i + 1));
                    i = i + 1;
                }
                None
            },
            _ => None,
        }
    }

    /// The integer that this value stands for; a float is cut toward zero.
    pub fn as_i64(&self) -> (v: Option<i64>)
        ensures
            v == int_of(self@),
    {
        match self {
            Value::Int(v) => Some(*v),
            Value::Int64(v) => Some(*v),
            Value::Float(f) => Some(truncate(*f)),
            _ => None,
        }
    }

    pub fn as_str(&self) -> (v: Option<&str>)
        ensures
            match v {
                Some(s) => self@ == ValueView::Text(s@),
                None => !(self@ is Text),
            },
    {
        match self {
            Value::String(s) => Some(s.as_str()),
            _ => None,
        }
    }

    pub fn as_bool(&self) -> (v: Option<bool>)
        ensures
            match v {
                Some(b) => self@ == ValueView::Bool(b),
                None => !(self@ is Bool),
            },
    {
        match self {
            Value::Bool(b) => Some(*b),
            _ => None,
        }
    }

    pub fn as_data(&self) -> (v: Option<&[u8]>)
        ensures
            match v {
                Some(d) => self@ == ValueView::Data(d@),
                None => !(self@ is Data),
            },
    {
        match self {
            Value::Data(d) => Some(d.as_slice()),
            _ => None,
        }
    }
}

/// Reads values one after another from a buffer.
pub struct Decoder<'a> {
    buf: &'a [u8],
    pos: usize,
    /// The leaf values decoded so far, for back-references.
    seen: Vec<Value>,
}

impl<'a> Decoder<'a> {
    pub closed spec fn wf(&self) -> bool {
        self.pos <= self.buf@.len()
    }

    /// The bytes not read yet.
    pub closed spec fn rest(&self) -> Seq<u8> {
        self.buf@.skip(self.pos as int)
    }

    /// The leaf values decoded so far.
    pub closed spec fn leaves(&self) -> Seq<ValueView> {
        value_views(self.seen@)
    }

    pub fn new(buf: &'a [u8]) -> (d: Self)
        ensures
            d.wf(),
            d.rest() == buf@,
            d.leaves() == Seq::<ValueView>::empty(),
    {
        let d = Decoder { buf, pos: 0, seen: Vec::new() };
        assert(d.rest() =~= buf@);
        assert(d.leaves() =~= Seq::<ValueView>::empty());
        d
    }

    pub fn remaining(&self) -> (n: usize)
        requires
            self.wf(),
        ensures
            n == self.rest().len(),
    {
        self.buf.len() - self.pos
    }

    fn take(&mut self, n: u64) -> (r: Result<&'a [u8], DecodeFault>)
        requires
            old(self).wf(),
        ensures
            final(self).wf(),
            final(self).leaves() == old(self).leaves(),
            final(self).rest().len() <= old(self).rest().len(),
            match r {
                Ok(part) => split_bytes(old(self).rest(), n as nat) == Ok::<
                    (Seq<u8>, Seq<u8>),
                    FaultAt,
                >((part@, final(self).rest())),
                Err(fault) => split_bytes(old(self).rest(), n as nat) == Err::<
                    (Seq<u8>, Seq<u8>),
                    FaultAt,
                >((fault@, final(self).rest())),
            },
    {
        let have: usize = self.buf.len() - self.pos;
        if (have as u64) < n {
            return Err(DecodeFault::Short { need: n, have });
        }
        let end: usize = self.pos + n as usize;
        let part = &self.buf[self.pos..end];
        self.pos = end;
        assert(old(self).rest().take(n as int) =~= part@);
        assert(old(self).rest().skip(n as int) =~= self.rest());
        Ok(part)
    }

    fn take_counted(&mut self, width: u64) -> (r: Result<&'a [u8], DecodeFault>)
        requires
            old(self).wf(),
            width <= 8,
        ensures
            final(self).wf(),
            final(self).leaves() == old(self).leaves(),
            final(self).rest().len() <= old(self).rest().len(),
            match r {
                Ok(part) => split_counted(old(self).rest(), width as nat) == Ok::<
                    (Seq<u8>, Seq<u8>),
                    FaultAt,
                >((part@, final(self).rest())),
                Err(fault) => split_counted(old(self).rest(), width as nat) == Err::<
                    (Seq<u8>, Seq<u8>),
                    FaultAt,
                >((fault@, final(self).rest())),
            },
    {
        let field = match self.take(width) {
            Ok(field) => field,
            Err(fault) => return Err(fault),
        };
        let len: u64 = read_le(field);
        self.take(len)
    }

    fn take_until(&mut self, mark: u8) -> (r: Result<&'a [u8], DecodeFault>)
        requires
            old(self).wf(),
        ensures
            final(self).wf(),
            final(self).leaves() == old(self).leaves(),
            final(self).rest().len() <= old(self).rest().len(),
            match r {
                Ok(part) => split_until(old(self).rest(), mark) == Ok::<
                    (Seq<u8>, Seq<u8>),
                    FaultAt,
                >((part@, final(self).rest())),
                Err(fault) => split_until(old(self).rest(), mark) == Err::<
                    (Seq<u8>, Seq<u8>),
                    FaultAt,
                >((fault@, final(self).rest())),
            },
    {
        let start: usize = self.pos;
        let mut end: usize = start;
        let ghost rest = self.rest();
        while end < self.buf.len() && self.buf[end] != mark
            invariant
                start == self.pos,
                start <= end <= self.buf@.len(),
                rest == self.buf@.skip(start as int),
                forall|j: int| 0 <= j < end - start ==> rest[j] != mark,
            decreases self.buf@.len() - end,
        {
            end = end + 1;
        }
        if end == self.buf.len() {
            self.pos = end;
            assert(self.rest() =~= Seq::empty());
            return Err(DecodeFault::Short { need: 1, have: 0 });
        }
        let part = &self.buf[start..end];
        self.pos = end + 1;
        proof {
            let i = end - start;
            assert(rest[i] == mark);
            assert(rest.contains(mark));
            rest.index_of_first_ensures(mark);
            let first = rest.index_of_first(mark)->0;
            assert(first == i);
            assert(rest.take(i) =~= part@);
            assert(rest.skip(i + 1) =~= self.rest());
        }
        Ok(part)
    }

    /// Decodes one value. Returns `None` when a terminator is read.
    pub fn decode(&mut self) -> (r: Result<Option<Value>, DecodeError>)
        requires
            old(self).wf(),
        ensures
            final(self).wf(),
            match r {
                Ok(Some(v)) => decoded(old(self).rest(), old(self).leaves()) == (Decoded::Item {
                    value: v@,
                    rest: final(self).rest(),
                    leaves: final(self).leaves(),
                }) && final(self).rest().len() < old(self).rest().len(),
                Ok(None) => decoded(old(self).rest(), old(self).leaves()) == (Decoded::End {
                    rest: final(self).rest(),
                }) && final(self).leaves() == old(self).leaves() && final(self).rest().len() < old(
                    self,
                ).rest().len(),
                Err(e) => decoded(old(self).rest(), old(self).leaves()) == (Decoded::Fail {
                    fault: e.0@,
                    rest: final(self).rest(),
                    leaves: final(self).leaves(),
                }),
            },
        decreases old(self).rest().len(), 0nat,
    {
        let ghost before = self.rest();
        let ghost leaves = self.leaves();
        let tag: u8 = match self.take(1) {
            Ok(part) => part[0],
            Err(fault) => return Err(DecodeError(fault)),
        };
        let ghost rest = self.rest();
        assert(before[0] == tag && before.skip(1) =~= rest);
        if tag == 0x03 {
            return Ok(None);
        }
        if tag >= 0xA0 && tag <= 0xCF {
            let index: usize = (tag - 0xA0) as usize;
            if index < self.seen.len() {
                return Ok(Some(self.seen[index].clone()));
            }
            return Err(DecodeError(DecodeFault::BackReference(index)));
        }
        if tag >= 0xD0 && tag <= 0xDE {
            return match self.decode_items((tag - 0xD0) as usize) {
                Ok(items) => {
                    proof {
                        lemma_array_view(items);
                    }
                    Ok(Some(Value::Array(items)))
                },
                Err(fault) => Err(DecodeError(fault)),
            };
        }
        if tag == 0xDF {
            return match self.decode_items_until_end() {
                Ok(items) => {
                    proof {
                        lemma_array_view(items);
                    }
                    Ok(Some(Value::Array(items)))
                },
                Err(fault) => Err(DecodeError(fault)),
            };
        }
        if tag >= 0xE0 && tag <= 0xEE {
            return match self.decode_entries((tag - 0xE0) as usize) {
                Ok(entries) => {
                    proof {
                        lemma_dict_view(entries);
                    }
                    Ok(Some(Value::Dict(entries)))
                },
                Err(fault) => Err(DecodeError(fault)),
            };
        }
        if tag == 0xEF {
            return match self.decode_entries_until_end() {
                Ok(entries) => {
                    proof {
                        lemma_dict_view(entries);
                    }
                    Ok(Some(Value::Dict(entries)))
                },
                Err(fault) => Err(DecodeError(fault)),
            };
        }
        match self.decode_leaf(tag) {
            Ok(value) => {
                let copy = value.clone();
                self.seen.push(copy);
                assert(self.leaves() =~= leaves.push(value@));
                Ok(Some(value))
            },
            Err(fault) => Err(DecodeError(fault)),
        }
    }

    fn decode_items(&mut self, count: usize) -> (r: Result<Vec<Value>, DecodeFault>)
        requires
            old(self).wf(),
        ensures
            final(self).wf(),
            match r {
                Ok(items) => counted_items(
                    Seq::empty(),
                    old(self).rest(),
                    old(self).leaves(),
                    count as nat,
                ) == (DecodedList::Items {
                    values: value_views(items@),
                    rest: final(self).rest(),
                    leaves: final(self).leaves(),
                }) && final(self).rest().len() <= old(self).rest().len(),
                Err(fault) => counted_items(
                    Seq::empty(),
                    old(self).rest(),
                    old(self).leaves(),
                    count as nat,
                ) == (DecodedList::<ValueView>::Fail {
                    fault: fault@,
                    rest: final(self).rest(),
                    leaves: final(self).leaves(),
                }),
            },
        decreases old(self).rest().len(), 1nat,
    {
        let ghost whole = counted_items(Seq::empty(), self.rest(), self.leaves(), count as nat);
        let mut items: Vec<Value> = Vec::new();
        let mut left: usize = count;
        assert(value_views(items@) =~= Seq::empty());
        while left > 0
            invariant
                self.wf(),
                self.rest().len() <= old(self).rest().len(),
                whole == counted_items(
                    value_views(items@),
                    self.rest(),
                    self.leaves(),
                    left as nat,
                ),
                whole == counted_items(
                    Seq::empty(),
                    old(self).rest(),
                    old(self).leaves(),
                    count as nat,
                ),
            decreases left,
        {
            let ghost done = items@;
            match self.decode() {
                Ok(Some(v)) => {
                    items.push(v);
                    assert(value_views(items@) =~= value_views(done).push(v@));
                },
                Ok(None) => return Err(DecodeFault::TerminatorInArray),
                Err(e) => return Err(e.0),
            }
            left = left - 1;
        }
        Ok(items)
    }

    fn decode_items_until_end(&mut self) -> (r: Result<Vec<Value>, DecodeFault>)
        requires
            old(self).wf(),
        ensures
            final(self).wf(),
            match r {
                Ok(items) => items_until_end(Seq::empty(), old(self).rest(), old(self).leaves())
                    == (DecodedList::Items {
                    values: value_views(items@),
                    rest: final(self).rest(),
                    leaves: final(self).leaves(),
                }) && final(self).rest().len() <= old(self).rest().len(),
                Err(fault) => items_until_end(Seq::empty(), old(self).rest(), old(self).leaves())
                    == (DecodedList::<ValueView>::Fail {
                    fault: fault@,
                    rest: final(self).rest(),
                    leaves: final(self).leaves(),
                }),
            },
        decreases old(self).rest().len(), 1nat,
    {
        let ghost whole = items_until_end(Seq::empty(), self.rest(), self.leaves());
        let mut items: Vec<Value> = Vec::new();
        assert(value_views(items@) =~= Seq::empty());
        loop
            invariant
                self.wf(),
                self.rest().len() <= old(self).rest().len(),
                whole == items_until_end(value_views(items@), self.rest(), self.leaves()),
                whole == items_until_end(Seq::empty(), old(self).rest(), old(self).leaves()),
            decreases self.rest().len(),
        {
            let ghost done = items@;
            match self.decode() {
                Ok(Some(v)) => {
                    items.push(v);
                    assert(value_views(items@) =~= value_views(done).push(v@));
                },
                Ok(None) => return Ok(items),
                Err(e) => return Err(e.0),
            }
        }
    }

    fn decode_entries(&mut self, count: usize) -> (r: Result<Vec<(String, Value)>, DecodeFault>)
        requires
            old(self).wf(),
        ensures
            final(self).wf(),
            match r {
                Ok(entries) => counted_entries(
                    Seq::empty(),
                    old(self).rest(),
                    old(self).leaves(),
                    count as nat,
                ) == (DecodedList::Items {
                    values: entry_views(entries@),
                    rest: final(self).rest(),
                    leaves: final(self).leaves(),
                }) && final(self).rest().len() <= old(self).rest().len(),
                Err(fault) => counted_entries(
                    Seq::empty(),
                    old(self).rest(),
                    old(self).leaves(),
                    count as nat,
                ) == (DecodedList::<(Seq<char>, ValueView)>::Fail {
                    fault: fault@,
                    rest: final(self).rest(),
                    leaves: final(self).leaves(),
                }),
            },
        decreases old(self).rest().len(), 1nat,
    {
        let ghost whole = counted_entries(Seq::empty(), self.rest(), self.leaves(), count as nat);
        let mut entries: Vec<(String, Value)> = Vec::new();
        let mut left: usize = count;
        assert(entry_views(entries@) =~= Seq::empty());
        while left > 0
            invariant
                self.wf(),
                self.rest().len() <= old(self).rest().len(),
                whole == counted_entries(
                    entry_views(entries@),
                    self.rest(),
                    self.leaves(),
                    left as nat,
                ),
                whole == counted_entries(
                    Seq::empty(),
                    old(self).rest(),
                    old(self).leaves(),
                    count as nat,
                ),
            decreases left,
        {
            let ghost done = entries@;
            let key = match self.decode() {
                Ok(Some(Value::String(key))) => key,
                Ok(got) => return Err(DecodeFault::KeyExpected(got)),
                Err(e) => return Err(e.0),
            };
            match self.decode() {
                Ok(Some(v)) => {
                    entries.push((key, v));
                    assert(entry_views(entries@) =~= entry_views(done).push((key@, v@)));
                },
                Ok(None) => return Err(DecodeFault::TerminatorInDict),
                Err(e) => return Err(e.0),
            }
            left = left - 1;
        }
        Ok(entries)
    }

    fn decode_entries_until_end(&mut self) -> (r: Result<Vec<(String, Value)>, DecodeFault>)
        requires
            old(self).wf(),
        ensures
            final(self).wf(),
            match r {
                Ok(entries) => entries_until_end(Seq::empty(), old(self).rest(), old(self).leaves())
                    == (DecodedList::Items {
                    values: entry_views(entries@),
                    rest: final(self).rest(),
                    leaves: final(self).leaves(),
                }) && final(self).rest().len() <= old(self).rest().len(),
                Err(fault) => entries_until_end(Seq::empty(), old(self).rest(), old(self).leaves())
                    == (DecodedList::<(Seq<char>, ValueView)>::Fail {
                    fault: fault@,
                    rest: final(self).rest(),
                    leaves: final(self).leaves(),
                }),
            },
        decreases old(self).rest().len(), 1nat,
    {
        let ghost whole = entries_until_end(Seq::empty(), self.rest(), self.leaves());
        let mut entries: Vec<(String, Value)> = Vec::new();
        assert(entry_views(entries@) =~= Seq::empty());
        loop
            invariant
                self.wf(),
                self.rest().len() <= old(self).rest().len(),
                whole == entries_until_end(entry_views(entries@), self.rest(), self.leaves()),
                whole == entries_until_end(Seq::empty(), old(self).rest(), old(self).leaves()),
            decreases self.rest().len(),
        {
            let ghost done = entries@;
            let key = match self.decode() {
                Ok(None) => return Ok(entries),
                Ok(Some(Value::String(key))) => key,
                Ok(Some(got)) => return Err(DecodeFault::KeyNotString(got)),
                Err(e) => return Err(e.0),
            };
            match self.decode() {
                Ok(Some(v)) => {
                    entries.push((key, v));
                    assert(entry_views(entries@) =~= entry_views(done).push((key@, v@)));
                },
                Ok(None) => return Err(DecodeFault::TerminatorInDict),
                Err(e) => return Err(e.0),
            }
        }
    }

    fn decode_leaf(&mut self, tag: u8) -> (r: Result<Value, DecodeFault>)
        requires
            old(self).wf(),
        ensures
            final(self).wf(),
            final(self).leaves() == old(self).leaves(),
            final(self).rest().len() <= old(self).rest().len(),
            match r {
                Ok(v) => leaf(tag, old(self).rest()) == Ok::<(ValueView, Seq<u8>), FaultAt>(
                    (v@, final(self).rest()),
                ),
                Err(fault) => leaf(tag, old(self).rest()) == Err::<
                    (ValueView, Seq<u8>),
                    FaultAt,
                >((fault@, final(self).rest())),
            },
    {
        proof {
            lemma_pow256_values();
        }
        if tag == 0x01 {
            Ok(Value::Bool(true))
        } else if tag == 0x02 {
            Ok(Value::Bool(false))
        } else if tag == 0x04 {
            Ok(Value::Null)
        } else if tag == 0x05 {
            match self.take(16) {
                Ok(part) => {
                    let b = sixteen(part);
                    Ok(Value::Uuid(b))
                },
                Err(fault) => Err(fault),
            }
        } else if tag == 0x06 {
            match self.take(8) {
                Ok(part) => Ok(Value::Date(read_le(part))),
                Err(fault) => Err(fault),
            }
        } else if tag == 0x07 {
            Ok(Value::Int(-1))
        } else if tag >= 0x08 && tag <= 0x2F {
            Ok(Value::Int((tag - 0x08) as i64))
        } else if tag == 0x30 {
            self.decode_int(1)
        } else if tag == 0x31 {
            self.decode_int(2)
        } else if tag == 0x32 {
            self.decode_int(4)
        } else if tag == 0x33 {
            self.decode_int(8)
        } else if tag == 0x35 {
            match self.take(4) {
                Ok(part) => {
                    proof {
                        lemma_le_value_bound(part@);
                    }
                    Ok(Value::Float(widen(read_le(part) as u32)))
                },
                Err(fault) => Err(fault),
            }
        } else if tag == 0x36 {
            match self.take(8) {
                Ok(part) => Ok(Value::Float(read_le(part))),
                Err(fault) => Err(fault),
            }
        } else if tag >= 0x40 && tag <= 0x60 {
            match self.take((tag - 0x40) as u64) {
                Ok(part) => Ok(Value::String(lossy(part))),
                Err(fault) => Err(fault),
            }
        } else if tag >= 0x61 && tag <= 0x64 {
            match self.take_counted(width_of(tag - 0x61)) {
                Ok(part) => Ok(Value::String(lossy(part))),
                Err(fault) => Err(fault),
            }
        } else if tag == 0x6F {
            match self.take_until(0x00) {
                Ok(part) => Ok(Value::String(lossy(part))),
                Err(fault) => Err(fault),
            }
        } else if tag >= 0x70 && tag <= 0x90 {
            match self.take((tag - 0x70) as u64) {
                Ok(part) => Ok(Value::Data(to_vec(part))),
                Err(fault) => Err(fault),
            }
        } else if tag >= 0x91 && tag <= 0x94 {
            match self.take_counted(width_of(tag - 0x91)) {
                Ok(part) => Ok(Value::Data(to_vec(part))),
                Err(fault) => Err(fault),
            }
        } else if tag == 0x9F {
            match self.take_until(0x03) {
                Ok(part) => Ok(Value::Data(to_vec(part))),
                Err(fault) => Err(fault),
            }
        } else if tag == 0x00 {
            Err(DecodeFault::ZeroTag)
        } else {
            Err(DecodeFault::UnknownTag(tag))
        }
    }

    fn decode_int(&mut self, width: u64) -> (r: Result<Value, DecodeFault>)
        requires
            old(self).wf(),
            width == 1 || width == 2 || width == 4 || width == 8,
        ensures
            final(self).wf(),
            final(self).leaves() == old(self).leaves(),
            final(self).rest().len() <= old(self).rest().len(),
            match r {
                Ok(v) => map_leaf(
                    split_bytes(old(self).rest(), width as nat),
                    |x: Seq<u8>| int_leaf(x),
                ) == Ok::<(ValueView, Seq<u8>), FaultAt>((v@, final(self).rest())),
                Err(fault) => map_leaf(
                    split_bytes(old(self).rest(), width as nat),
                    |x: Seq<u8>| int_leaf(x),
                ) == Err::<(ValueView, Seq<u8>), FaultAt>((fault@, final(self).rest())),
            },
    {
        match self.take(width) {
            Ok(part) => {
                proof {
                    lemma_le_value_bound(part@);
                }
                Ok(Value::Int(signed_of(read_le(part), part.len())))
            },
            Err(fault) => Err(fault),
        }
    }
}

/// The width of the length field behind the tag `step` above the first.
fn width_of(step: u8) -> (w: u64)
    ensures
        w == length_width(step as int),
        w <= 8,
{
    if step == 0 {
        1
    } else if step == 1 {
        2
    } else if step == 2 {
        4
    } else {
        8
    }
}

/// Sixteen bytes as an array.
fn sixteen(part: &[u8]) -> (b: [u8; 16])
    requires
        part@.len() == 16,
    ensures
        b@ == part@,
{
    let mut b: [u8; 16] = [0; 16];
    let mut i: usize = 0;
    while i < 16
        invariant
            i <= 16,
            part@.len() == 16,
            forall|j: int| 0 <= j < i ==> b@[j] == part@[j],
        decreases 16 - i,
    {
        b[i] = part[i];
        i = i + 1;
    }
    assert(b@ =~= part@);
    b
}

/// The value that a whole buffer starts with.
pub open spec fn decoded_one(b: Seq<u8>) -> Result<ValueView, FaultView> {
    match decoded(b, Seq::empty()) {
        Decoded::Item { value, .. } => Ok(value),
        Decoded::End { .. } => Err(FaultView::UnexpectedTerminator),
        Decoded::Fail { fault, .. } => Err(fault),
    }
}

/// Decodes a single top-level value.
pub fn decode_one(buf: &[u8]) -> (r: Result<Value, DecodeError>)
    ensures
        match r {
            Ok(v) => decoded_one(buf@) == Ok::<ValueView, FaultView>(v@),
            Err(e) => decoded_one(buf@) == Err::<ValueView, FaultView>(e.0@),
        },
{
    let mut decoder = Decoder::new(buf);
    match decoder.decode() {
        Ok(Some(v)) => Ok(v),
        Ok(None) => Err(DecodeError(DecodeFault::UnexpectedTerminator)),
        Err(e) => Err(e),
    }
}

// --- What decoding gives back ---

/// The value that a decoder sees: the two integer variants read the same.
pub open spec fn normalized(v: ValueView) -> ValueView
    decreases v,
{
    match v {
        ValueView::Int64(i) => ValueView::Int(i),
        ValueView::Array(items) => ValueView::Array(
            Seq::new(
                items.len(),
                |i: int|
                    if 0 <= i < items.len() {
                        normalized(items[i])
                    } else {
                        arbitrary()
                    },
            ),
        ),
        ValueView::Dict(entries) => ValueView::Dict(
            Seq::new(
                entries.len(),
                |i: int|
                    if 0 <= i < entries.len() {
                        (entries[i].0, normalized(entries[i].1))
                    } else {
                        arbitrary()
                    },
            ),
        ),
        other => other,
    }
}

/// Whether the lengths in a value fit their fields: texts and data below 4 GiB,
/// and sixteen bytes in a UUID.
pub open spec fn encodable(v: ValueView) -> bool
    decreases v,
{
    match v {
        ValueView::Text(s) => encode_utf8(s).len() < 0x1_0000_0000,
        ValueView::Data(d) => d.len() < 0x1_0000_0000,
        ValueView::Uuid(b) => b.len() == 16,
        ValueView::Array(items) => forall|i: int|
            0 <= i < items.len() ==> encodable(#[trigger] items[i]),
        ValueView::Dict(entries) => forall|i: int|
            0 <= i < entries.len() ==> encode_utf8((#[trigger] entries[i]).0).len() < 0x1_0000_0000
                && encodable(entries[i].1),
        _ => true,
    }
}

/// The leaf values in a value, in the order in which they are decoded.
pub open spec fn leaves_of(v: ValueView) -> Seq<ValueView>
    decreases v,
{
    match v {
        ValueView::Array(items) => leaves_of_items(items),
        ValueView::Dict(entries) => leaves_of_entries(entries),
        other => seq![normalized(other)],
    }
}

pub open spec fn leaves_of_items(items: Seq<ValueView>) -> Seq<ValueView>
    decreases items,
{
    if items.len() == 0 {
        Seq::empty()
    } else {
        leaves_of(items[0]) + leaves_of_items(items.skip(1))
    }
}

pub open spec fn leaves_of_entries(entries: Seq<(Seq<char>, ValueView)>) -> Seq<ValueView>
    decreases entries,
{
    if entries.len() == 0 {
        Seq::empty()
    } else {
        seq![ValueView::Text(entries[0].0)] + leaves_of(entries[0].1) + leaves_of_entries(
            entries.skip(1),
        )
    }
}

pub open spec fn normalized_items(items: Seq<ValueView>) -> Seq<ValueView> {
    Seq::new(items.len(), |i: int| normalized(items[i]))
}

pub open spec fn normalized_entries(
    entries: Seq<(Seq<char>, ValueView)>,
) -> Seq<(Seq<char>, ValueView)> {
    Seq::new(entries.len(), |i: int| (entries[i].0, normalized(entries[i].1)))
}

proof fn lemma_split_exact(x: Seq<u8>, rest: Seq<u8>)
    ensures
        split_bytes(x + rest, x.len()) == Ok::<(Seq<u8>, Seq<u8>), FaultAt>((x, rest)),
{
    assert((x + rest).take(x.len() as int) =~= x);
    assert((x + rest).skip(x.len() as int) =~= rest);
}

proof fn lemma_split_counted_exact(width: nat, x: Seq<u8>, rest: Seq<u8>)
    requires
        x.len() < pow256(width),
    ensures
        split_counted(le_bytes(x.len(), width) + x + rest, width) == Ok::<
            (Seq<u8>, Seq<u8>),
            FaultAt,
        >((x, rest)),
{
    let field = le_bytes(x.len(), width);
    lemma_le_bytes_len(x.len(), width);
    lemma_le_roundtrip(x.len(), width);
    assert(field + x + rest =~= field + (x + rest));
    lemma_split_exact(field, x + rest);
    lemma_split_exact(x, rest);
}

/// A written text reads back as itself.
proof fn lemma_text_leaf(s: Seq<char>, rest: Seq<u8>)
    requires
        encode_utf8(s).len() < 0x1_0000_0000,
    ensures
        ({
            let b = encoded_text(s) + rest;
            &&& encoded_text(s).len() > 0
            &&& 0x40 <= b[0] <= 0x64
            &&& leaf(b[0], b.skip(1)) == Ok::<(ValueView, Seq<u8>), FaultAt>(
                (ValueView::Text(s), rest),
            )
        }),
{
    let x = encode_utf8(s);
    let n = x.len();
    let b = encoded_text(s) + rest;
    lemma_pow256_values();
    lemma_text_roundtrip(s);
    if n <= 32 {
        assert(b.skip(1) =~= x + rest);
        lemma_split_exact(x, rest);
    } else {
        let width: nat = if n <= 0xff {
            1
        } else if n <= 0xffff {
            2
        } else {
            4
        };
        assert(b.skip(1) =~= le_bytes(n, width) + x + rest);
        lemma_split_counted_exact(width, x, rest);
    }
}

/// A written integer reads back as itself.
proof fn lemma_int_leaf(v: i64, width: nat, rest: Seq<u8>)
    requires
        width == 1 || width == 2 || width == 4 || width == 8,
        -pow256(width) <= 2 * v < pow256(width),
    ensures
        map_leaf(
            split_bytes(le_bytes(twos_complement(v as int, width), width) + rest, width),
            |x: Seq<u8>| int_leaf(x),
        ) == Ok::<(ValueView, Seq<u8>), FaultAt>((ValueView::Int(v), rest)),
{
    lemma_pow256_values();
    let n = twos_complement(v as int, width);
    let field = le_bytes(n, width);
    lemma_le_bytes_len(n, width);
    lemma_le_roundtrip(n, width);
    lemma_split_exact(field, rest);
}

/// A written leaf value reads back as itself.
proof fn lemma_leaf_roundtrip(v: ValueView, rest: Seq<u8>)
    requires
        encodable(v),
        !(v is Array) && !(v is Dict),
    ensures
        ({
            let b = encoded(v) + rest;
            &&& encoded(v).len() > 0
            &&& b[0] != 0x03
            &&& b[0] < 0xA0
            &&& leaf(b[0], b.skip(1)) == Ok::<(ValueView, Seq<u8>), FaultAt>(
                (normalized(v), rest),
            )
        }),
{
    let b = encoded(v) + rest;
    lemma_pow256_values();
    match v {
        ValueView::Text(s) => {
            lemma_text_leaf(s, rest);
        },
        ValueView::Data(d) => {
            let n = d.len();
            let width: nat = if n <= 0xff {
                1
            } else if n <= 0xffff {
                2
            } else {
                4
            };
            assert(b.skip(1) =~= le_bytes(n, width) + d + rest);
            lemma_split_counted_exact(width, d, rest);
        },
        ValueView::Uuid(u) => {
            assert(b.skip(1) =~= u + rest);
            lemma_split_exact(u, rest);
        },
        ValueView::Date(d) => {
            assert(b.skip(1) =~= le_bytes(d as nat, 8) + rest);
            lemma_le_bytes_len(d as nat, 8);
            lemma_le_roundtrip(d as nat, 8);
            lemma_split_exact(le_bytes(d as nat, 8), rest);
        },
        ValueView::Float(d) => {
            assert(b.skip(1) =~= le_bytes(d as nat, 8) + rest);
            lemma_le_bytes_len(d as nat, 8);
            lemma_le_roundtrip(d as nat, 8);
            lemma_split_exact(le_bytes(d as nat, 8), rest);
        },
        ValueView::Int64(i) => {
            assert(b.skip(1) =~= le_bytes(twos_complement(i as int, 8), 8) + rest);
            lemma_int_leaf(i, 8, rest);
        },
        ValueView::Int(i) => {
            if i == -1 || 0 <= i <= 38 {
                assert(b.skip(1) =~= rest);
            } else {
                let width: nat = if -0x80 <= i < 0x80 {
                    1
                } else if -0x8000 <= i < 0x8000 {
                    2
                } else if -0x8000_0000 <= i < 0x8000_0000 {
                    4
                } else {
                    8
                };
                assert(b.skip(1) =~= le_bytes(twos_complement(i as int, width), width) + rest);
                lemma_int_leaf(i, width, rest);
            }
        },
        _ => {
            assert(b.skip(1) =~= rest);
        },
    }
}

proof fn lemma_encoded_items_front(items: Seq<ValueView>)
    requires
        items.len() > 0,
    ensures
        encoded_items(items) == encoded(items[0]) + encoded_items(items.skip(1)),
    decreases items.len(),
{
    if items.len() == 1 {
        assert(items.drop_last() =~= items.skip(1));
        assert(encoded_items(items) =~= encoded(items[0]) + encoded_items(items.skip(1)));
    } else {
        let front = items.drop_last();
        lemma_encoded_items_front(front);
        assert(front.skip(1) =~= items.skip(1).drop_last());
        assert(encoded_items(items) =~= encoded(items[0]) + encoded_items(items.skip(1)));
    }
}

proof fn lemma_encoded_entries_front(entries: Seq<(Seq<char>, ValueView)>)
    requires
        entries.len() > 0,
    ensures
        encoded_entries(entries) == encoded_text(entries[0].0) + encoded(entries[0].1)
            + encoded_entries(entries.skip(1)),
    decreases entries.len(),
{
    let whole = encoded_text(entries[0].0) + encoded(entries[0].1) + encoded_entries(
        entries.skip(1),
    );
    if entries.len() == 1 {
        assert(entries.drop_last() =~= entries.skip(1));
        assert(encoded_entries(entries) =~= whole);
    } else {
        let front = entries.drop_last();
        lemma_encoded_entries_front(front);
        assert(front.skip(1) =~= entries.skip(1).drop_last());
        assert(encoded_entries(entries) =~= whole);
    }
}

/// What decoding gives for the encoding of `v` with anything behind it.
pub open spec fn reads_back(v: ValueView, rest: Seq<u8>, leaves: Seq<ValueView>) -> bool {
    &&& encoded(v).len() > 0
    &&& decoded(encoded(v) + rest, leaves) == (Decoded::Item {
        value: normalized(v),
        rest,
        leaves: leaves + leaves_of(v),
    })
}

/// Decoding an encoded value gives back the value and leaves the bytes behind it
/// for the next read. Whatever was decoded before does not matter.
pub proof fn law_decode_inverts_encode(v: ValueView, rest: Seq<u8>, leaves: Seq<ValueView>)
    requires
        encodable(v),
    ensures
        reads_back(v, rest, leaves),
    decreases v,
{
    let b = encoded(v) + rest;
    match v {
        ValueView::Array(items) => {
            assert(normalized(v)->Array_0 =~= normalized_items(items));
            if items.len() <= 12 {
                assert(b.skip(1) =~= encoded_items(items) + rest);
                lemma_counted_items(Seq::empty(), items, rest, leaves);
            } else {
                assert(b.skip(1) =~= encoded_items(items) + (seq![0x03u8] + rest));
                lemma_items_until_end(Seq::empty(), items, rest, leaves);
            }
            assert(Seq::<ValueView>::empty() + normalized_items(items) =~= normalized_items(items));
        },
        ValueView::Dict(entries) => {
            assert(normalized(v)->Dict_0 =~= normalized_entries(entries));
            if entries.len() <= 14 {
                assert(b.skip(1) =~= encoded_entries(entries) + rest);
                lemma_counted_entries(Seq::empty(), entries, rest, leaves);
            } else {
                assert(b.skip(1) =~= encoded_entries(entries) + (seq![0x03u8] + rest));
                lemma_entries_until_end(Seq::empty(), entries, rest, leaves);
            }
            assert(Seq::<(Seq<char>, ValueView)>::empty() + normalized_entries(entries)
                =~= normalized_entries(entries));
        },
        _ => {
            lemma_leaf_roundtrip(v, rest);
            assert(leaves.push(normalized(v)) =~= leaves + leaves_of(v));
        },
    }
}

proof fn lemma_counted_items(
    done: Seq<ValueView>,
    items: Seq<ValueView>,
    rest: Seq<u8>,
    leaves: Seq<ValueView>,
)
    requires
        forall|i: int| 0 <= i < items.len() ==> encodable(#[trigger] items[i]),
    ensures
        counted_items(done, encoded_items(items) + rest, leaves, items.len()) == (
        DecodedList::Items {
            values: done + normalized_items(items),
            rest,
            leaves: leaves + leaves_of_items(items),
        }),
    decreases items,
{
    if items.len() == 0 {
        assert(encoded_items(items) + rest =~= rest);
        assert(done + normalized_items(items) =~= done);
        assert(leaves + leaves_of_items(items) =~= leaves);
    } else {
        let more = items.skip(1);
        let after = encoded_items(more) + rest;
        lemma_encoded_items_front(items);
        assert(encoded_items(items) + rest =~= encoded(items[0]) + after);
        law_decode_inverts_encode(items[0], after, leaves);
        lemma_counted_items(
            done.push(normalized(items[0])),
            more,
            rest,
            leaves + leaves_of(items[0]),
        );
        assert(done.push(normalized(items[0])) + normalized_items(more) =~= done
            + normalized_items(items));
        assert(leaves + leaves_of(items[0]) + leaves_of_items(more) =~= leaves + leaves_of_items(
            items,
        ));
    }
}

proof fn lemma_items_until_end(
    done: Seq<ValueView>,
    items: Seq<ValueView>,
    rest: Seq<u8>,
    leaves: Seq<ValueView>,
)
    requires
        forall|i: int| 0 <= i < items.len() ==> encodable(#[trigger] items[i]),
    ensures
        items_until_end(done, encoded_items(items) + (seq![0x03u8] + rest), leaves) == (
        DecodedList::Items {
            values: done + normalized_items(items),
            rest,
            leaves: leaves + leaves_of_items(items),
        }),
    decreases items,
{
    let close = seq![0x03u8] + rest;
    if items.len() == 0 {
        assert(encoded_items(items) + close =~= close);
        assert(close.skip(1) =~= rest);
        assert(decoded(close, leaves) == (Decoded::End { rest }));
        assert(done + normalized_items(items) =~= done);
        assert(leaves + leaves_of_items(items) =~= leaves);
    } else {
        let more = items.skip(1);
        let after = encoded_items(more) + close;
        lemma_encoded_items_front(items);
        assert(encoded_items(items) + close =~= encoded(items[0]) + after);
        law_decode_inverts_encode(items[0], after, leaves);
        lemma_items_until_end(
            done.push(normalized(items[0])),
            more,
            rest,
            leaves + leaves_of(items[0]),
        );
        assert(done.push(normalized(items[0])) + normalized_items(more) =~= done
            + normalized_items(items));
        assert(leaves + leaves_of(items[0]) + leaves_of_items(more) =~= leaves + leaves_of_items(
            items,
        ));
    }
}

/// What reading one written entry comes to.
proof fn lemma_entry(entry: (Seq<char>, ValueView), after: Seq<u8>, leaves: Seq<ValueView>)
    requires
        encode_utf8(entry.0).len() < 0x1_0000_0000,
        reads_back(entry.1, after, leaves.push(ValueView::Text(entry.0))),
    ensures
        ({
            let b = encoded_text(entry.0) + encoded(entry.1) + after;
            let value = encoded(entry.1) + after;
            &&& decoded(b, leaves) == (Decoded::Item {
                value: ValueView::Text(entry.0),
                rest: value,
                leaves: leaves.push(ValueView::Text(entry.0)),
            })
            &&& decoded(value, leaves.push(ValueView::Text(entry.0))) == (Decoded::Item {
                value: normalized(entry.1),
                rest: after,
                leaves: leaves + (seq![ValueView::Text(entry.0)] + leaves_of(entry.1)),
            })
            &&& after.len() < value.len() < b.len()
        }),
{
    let b = encoded_text(entry.0) + encoded(entry.1) + after;
    let value = encoded(entry.1) + after;
    assert(b =~= encoded_text(entry.0) + value);
    lemma_text_leaf(entry.0, value);
    assert(leaves.push(ValueView::Text(entry.0)) + leaves_of(entry.1) =~= leaves + (seq![
        ValueView::Text(entry.0),
    ] + leaves_of(entry.1)));
}

#[verifier::spinoff_prover]
#[verifier::rlimit(60)]
proof fn lemma_counted_entries(
    done: Seq<(Seq<char>, ValueView)>,
    entries: Seq<(Seq<char>, ValueView)>,
    rest: Seq<u8>,
    leaves: Seq<ValueView>,
)
    requires
        forall|i: int|
            0 <= i < entries.len() ==> encode_utf8((#[trigger] entries[i]).0).len() < 0x1_0000_0000
                && encodable(entries[i].1),
    ensures
        counted_entries(done, encoded_entries(entries) + rest, leaves, entries.len()) == (
        DecodedList::Items {
            values: done + normalized_entries(entries),
            rest,
            leaves: leaves + leaves_of_entries(entries),
        }),
    decreases entries,
{
    if entries.len() == 0 {
        assert(encoded_entries(entries) + rest =~= rest);
        assert(done + normalized_entries(entries) =~= done);
        assert(leaves + leaves_of_entries(entries) =~= leaves);
    } else {
        let first = entries[0];
        let more = entries.skip(1);
        let after = encoded_entries(more) + rest;
        lemma_encoded_entries_front(entries);
        assert(encoded_entries(entries) + rest =~= encoded_text(first.0) + encoded(first.1)
            + after);
        law_decode_inverts_encode(first.1, after, leaves.push(ValueView::Text(first.0)));
        lemma_entry(first, after, leaves);
        let mine = seq![ValueView::Text(first.0)] + leaves_of(first.1);
        let kept = (first.0, normalized(first.1));
        lemma_counted_entries(done.push(kept), more, rest, leaves + mine);
        assert(done.push(kept) + normalized_entries(more) =~= done + normalized_entries(entries));
        assert(leaves + mine + leaves_of_entries(more) =~= leaves + leaves_of_entries(entries));
    }
}

#[verifier::rlimit(40)]
#[verifier::spinoff_prover]
proof fn lemma_entries_until_end(
    done: Seq<(Seq<char>, ValueView)>,
    entries: Seq<(Seq<char>, ValueView)>,
    rest: Seq<u8>,
    leaves: Seq<ValueView>,
)
    requires
        forall|i: int|
            0 <= i < entries.len() ==> encode_utf8((#[trigger] entries[i]).0).len() < 0x1_0000_0000
                && encodable(entries[i].1),
    ensures
        entries_until_end(done, encoded_entries(entries) + (seq![0x03u8] + rest), leaves) == (
        DecodedList::Items {
            values: done + normalized_entries(entries),
            rest,
            leaves: leaves + leaves_of_entries(entries),
        }),
    decreases entries,
{
    let close = seq![0x03u8] + rest;
    if entries.len() == 0 {
        assert(encoded_entries(entries) + close =~= close);
        assert(close.skip(1) =~= rest);
        assert(decoded(close, leaves) == (Decoded::End { rest }));
        assert(done + normalized_entries(entries) =~= done);
        assert(leaves + leaves_of_entries(entries) =~= leaves);
    } else {
        let first = entries[0];
        let more = entries.skip(1);
        let after = encoded_entries(more) + close;
        lemma_encoded_entries_front(entries);
        assert(encoded_entries(entries) + close =~= encoded_text(first.0) + encoded(first.1)
            + after);
        law_decode_inverts_encode(first.1, after, leaves.push(ValueView::Text(first.0)));
        lemma_entry(first, after, leaves);
        let mine = seq![ValueView::Text(first.0)] + leaves_of(first.1);
        let kept = (first.0, normalized(first.1));
        assert(entries_until_end(done, encoded_entries(entries) + close, leaves)
            == entries_until_end(done.push(kept), after, leaves + mine));
        lemma_entries_until_end(done.push(kept), more, rest, leaves + mine);
        assert(done.push(kept) + normalized_entries(more) =~= done + normalized_entries(entries));
        assert(leaves + mine + leaves_of_entries(more) =~= leaves + leaves_of_entries(entries));
    }
}

/// A value written to a buffer of its own is what `decode_one` reads there.
pub proof fn law_decode_one_inverts_encode(v: ValueView)
    requires
        encodable(v),
    ensures
        decoded_one(encoded(v)) == Ok::<ValueView, FaultView>(normalized(v)),
{
    law_decode_inverts_encode(v, Seq::empty(), Seq::empty());
    assert(encoded(v) + Seq::<u8>::empty() =~= encoded(v));
}

proof fn lemma_lookup_at(entries: Seq<(Seq<char>, ValueView)>, key: Seq<char>, i: int)
    requires
        0 <= i < entries.len(),
        entries[i].0 == key,
        forall|j: int| 0 <= j < i ==> (#[trigger] entries[j]).0 != key,
    ensures
        lookup(entries, key) == Some(entries[i].1),
    decreases entries.len(),
{
    if i > 0 {
        let rest = entries.skip(1);
        assert(entries[0].0 != key);
        assert forall|j: int| 0 <= j < i - 1 implies (#[trigger] rest[j]).0 != key by {
            assert(rest[j] == entries[j + 1]);
        }
        lemma_lookup_at(rest, key, i - 1);
    }
}

proof fn lemma_lookup_none(entries: Seq<(Seq<char>, ValueView)>, key: Seq<char>)
    requires
        forall|j: int| 0 <= j < entries.len() ==> (#[trigger] entries[j]).0 != key,
    ensures
        lookup(entries, key) is None,
    decreases entries.len(),
{
    if entries.len() > 0 {
        let rest = entries.skip(1);
        assert(entries[0].0 != key);
        assert forall|j: int| 0 <= j < rest.len() implies (#[trigger] rest[j]).0 != key by {
            assert(rest[j] == entries[j + 1]);
        }
        lemma_lookup_none(rest, key);
    }
}

/// A dictionary gives the value of the first entry with a key, and nothing where no
/// entry has it.
pub proof fn law_a_dictionary_gives_the_first_entry(entries: Seq<(Seq<char>, ValueView)>)
    ensures
        forall|key: Seq<char>, i: int|
            #![trigger lookup(entries, key), entries[i]]
            0 <= i < entries.len() && entries[i].0 == key && (forall|j: int|
                0 <= j < i ==> (#[trigger] entries[j]).0 != key) ==> lookup(entries, key) == Some(
                entries[i].1,
            ),
        forall|key: Seq<char>|
            (forall|j: int| 0 <= j < entries.len() ==> (#[trigger] entries[j]).0 != key) ==> (
            #[trigger] lookup(entries, key)) is None,
{
    assert forall|key: Seq<char>, i: int|
        #![trigger lookup(entries, key), entries[i]]
        0 <= i < entries.len() && entries[i].0 == key && (forall|j: int|
            0 <= j < i ==> (#[trigger] entries[j]).0 != key) implies lookup(entries, key) == Some(
        entries[i].1,
    ) by {
        lemma_lookup_at(entries, key, i);
    }
    assert forall|key: Seq<char>|
        (forall|j: int| 0 <= j < entries.len() ==> (#[trigger] entries[j]).0 != key) implies (
    #[trigger] lookup(entries, key)) is None by {
        lemma_lookup_none(entries, key);
    }
}

// --- The bytes of each kind of value ---

/// Every kind of value is written under its own tag: switches, nothing, identifiers,
/// dates and floating-point numbers with their bytes behind it, the lower ones first.
pub proof fn law_plain_values_have_their_tags(v: ValueView)
    ensures
        v == ValueView::Bool(true) ==> encoded(v) == seq![0x01u8],
        v == ValueView::Bool(false) ==> encoded(v) == seq![0x02u8],
        v is Null ==> encoded(v) == seq![0x04u8],
        v matches ValueView::Uuid(b) ==> encoded(v) == seq![0x05u8] + b,
        v matches ValueView::Date(d) ==> encoded(v).len() == 9 && encoded(v)[0] == 0x06 && le_value(
            encoded(v).skip(1),
        ) == d,
        v matches ValueView::Float(f) ==> encoded(v).len() == 9 && encoded(v)[0] == 0x36
            && le_value(encoded(v).skip(1)) == f,
        v matches ValueView::Int64(i) ==> encoded(v).len() == 9 && encoded(v)[0] == 0x33
            && signed_value(le_value(encoded(v).skip(1)), 8) == i,
{
    lemma_pow256_values();
    match v {
        ValueView::Date(d) => {
            lemma_number_bytes(0x06, d as nat);
        },
        ValueView::Float(f) => {
            lemma_number_bytes(0x36, f as nat);
        },
        ValueView::Int64(i) => {
            law_negative_numbers_are_the_upper_half(i as int);
            lemma_number_bytes(0x33, twos_complement(i as int, 8));
        },
        _ => {},
    }
}

proof fn lemma_number_bytes(tag: u8, n: nat)
    requires
        n <= u64::MAX,
    ensures
        ({
            let b = seq![tag] + le_bytes(n, 8);
            b.len() == 9 && b[0] == tag && le_value(b.skip(1)) == n
        }),
{
    lemma_pow256_values();
    lemma_le_bytes_len(n, 8);
    lemma_le_roundtrip(n, 8);
    assert((seq![tag] + le_bytes(n, 8)).skip(1) =~= le_bytes(n, 8));
}

/// An integer takes as few bytes as it can: one byte from -1 to 38, and else a tag and
/// one, two, four or eight bytes of two's complement.
pub proof fn law_integers_are_short(v: i64)
    ensures
        ({
            let b = encoded(ValueView::Int(v));
            &&& v == -1 ==> b == seq![0x07u8]
            &&& 0 <= v <= 38 ==> b == seq![(8 + v) as u8]
            &&& v < -1 || v > 38 ==> {
                let width = if -0x80 <= v < 0x80 {
                    1int
                } else if -0x8000 <= v < 0x8000 {
                    2
                } else if -0x8000_0000 <= v < 0x8000_0000 {
                    4
                } else {
                    8
                };
                let tag = if width == 1 {
                    0x30u8
                } else if width == 2 {
                    0x31
                } else if width == 4 {
                    0x32
                } else {
                    0x33
                };
                &&& b.len() == 1 + width
                &&& b[0] == tag
                &&& signed_value(le_value(b.skip(1)), width as nat) == v
            }
        }),
{
    lemma_pow256_values();
    law_negative_numbers_are_the_upper_half(v as int);
    if v < -1 || v > 38 {
        let width: nat = if -0x80 <= v < 0x80 {
            1
        } else if -0x8000 <= v < 0x8000 {
            2
        } else if -0x8000_0000 <= v < 0x8000_0000 {
            4
        } else {
            8
        };
        let n = twos_complement(v as int, width);
        lemma_le_bytes_len(n, width);
        lemma_le_roundtrip(n, width);
        let b = encoded(ValueView::Int(v));
        assert(b.skip(1) =~= le_bytes(n, width));
    }
}

/// A text is its length and its UTF-8 bytes: up to 32 bytes the length is in the tag, and
/// else in the one, two or four bytes behind it. Data is written alike, but never with
/// its length in the tag.
pub proof fn law_texts_and_data_have_their_length(s: Seq<char>, d: Seq<u8>)
    ensures
        ({
            let bytes = encode_utf8(s);
            let n = bytes.len();
            let text = encoded(ValueView::Text(s));
            &&& n <= 32 ==> text == seq![(0x40 + n) as u8] + bytes
            &&& 32 < n <= 0xff ==> text == seq![0x61u8, n as u8] + bytes
            &&& 0xff < n <= 0xffff ==> text == seq![0x62u8, (n % 256) as u8, (n / 256) as u8] + bytes
            &&& 0xffff < n < 0x1_0000_0000 ==> text[0] == 0x63 && le_value(text.subrange(1, 5)) == n
                && text.skip(5) == bytes
        }),
        ({
            let n = d.len();
            let data = encoded(ValueView::Data(d));
            &&& n <= 0xff ==> data == seq![0x91u8, n as u8] + d
            &&& 0xff < n <= 0xffff ==> data == seq![0x92u8, (n % 256) as u8, (n / 256) as u8] + d
            &&& 0xffff < n < 0x1_0000_0000 ==> data[0] == 0x93 && le_value(data.subrange(1, 5)) == n
                && data.skip(5) == d
        }),
{
    lemma_counted(0x61, encode_utf8(s));
    lemma_counted(0x91, d);
}

/// The three forms of a length.
proof fn lemma_counted(tag: u8, bytes: Seq<u8>)
    requires
        tag < 0xf0,
    ensures
        ({
            let n = bytes.len();
            let one = seq![tag] + le_bytes(n, 1) + bytes;
            let two = seq![(tag + 1) as u8] + le_bytes(n, 2) + bytes;
            let four = seq![(tag + 2) as u8] + le_bytes(n, 4) + bytes;
            &&& n <= 0xff ==> one == seq![tag, n as u8] + bytes
            &&& 0xff < n <= 0xffff ==> two == seq![(tag + 1) as u8, (n % 256) as u8, (n / 256) as u8]
                + bytes
            &&& n < 0x1_0000_0000 ==> four[0] == tag + 2 && le_value(four.subrange(1, 5)) == n
                && four.skip(5) == bytes
        }),
{
    let n = bytes.len();
    law_bytes_are_digits(n, 0, 0, 0, 0);
    let four = seq![(tag + 2) as u8] + le_bytes(n, 4) + bytes;
    lemma_pow256_values();
    lemma_le_bytes_len(n, 4);
    if n < 0x1_0000_0000 {
        lemma_le_roundtrip(n, 4);
    }
    assert(four.subrange(1, 5) =~= le_bytes(n, 4));
    assert(four.skip(5) =~= bytes);
    if n <= 0xff {
        assert(seq![tag] + le_bytes(n, 1) + bytes =~= seq![tag, n as u8] + bytes);
    } else if n <= 0xffff {
        assert(n / 256 % 256 == n / 256);
        assert(seq![(tag + 1) as u8] + le_bytes(n, 2) + bytes =~= seq![
            (tag + 1) as u8,
            (n % 256) as u8,
            (n / 256) as u8,
        ] + bytes);
    }
}

/// A list has its number of values in its tag, up to twelve, and a dictionary its number
/// of entries, up to fourteen; a longer one ends with a terminator. The values follow each
/// other, in a dictionary each behind its key.
pub proof fn law_lists_and_dictionaries_are_counted(
    items: Seq<ValueView>,
    v: ValueView,
    entries: Seq<(Seq<char>, ValueView)>,
    key: Seq<char>,
)
    ensures
        items.len() <= 12 ==> encoded(ValueView::Array(items)) == seq![(0xd0 + items.len()) as u8]
            + encoded_items(items),
        items.len() > 12 ==> encoded(ValueView::Array(items)) == seq![0xdfu8] + encoded_items(items)
            + seq![0x03u8],
        entries.len() <= 14 ==> encoded(ValueView::Dict(entries)) == seq![
            (0xe0 + entries.len()) as u8,
        ] + encoded_entries(entries),
        entries.len() > 14 ==> encoded(ValueView::Dict(entries)) == seq![0xefu8] + encoded_entries(
            entries,
        ) + seq![0x03u8],
        encoded_items(items.push(v)) == encoded_items(items) + encoded(v),
        encoded_entries(entries.push((key, v))) == encoded_entries(entries) + encoded(
            ValueView::Text(key),
        ) + encoded(v),
        encoded_items(Seq::empty()) == Seq::<u8>::empty(),
        encoded_entries(Seq::empty()) == Seq::<u8>::empty(),
{
    assert(items.push(v).drop_last() =~= items);
    assert(entries.push((key, v)).drop_last() =~= entries);
}

/// Values without a length are read by their tag: switches, nothing, small integers up to
/// 39, identifiers of sixteen bytes, and numbers of one to eight bytes.
pub proof fn law_plain_values_are_read_by_their_tags(tag: u8, x: Seq<u8>, rest: Seq<u8>)
    ensures
        leaf(0x01, rest) == Ok::<(ValueView, Seq<u8>), FaultAt>((ValueView::Bool(true), rest)),
        leaf(0x02, rest) == Ok::<(ValueView, Seq<u8>), FaultAt>((ValueView::Bool(false), rest)),
        leaf(0x04, rest) == Ok::<(ValueView, Seq<u8>), FaultAt>((ValueView::Null, rest)),
        leaf(0x07, rest) == Ok::<(ValueView, Seq<u8>), FaultAt>((ValueView::Int(-1i64), rest)),
        8 <= tag <= 47 ==> leaf(tag, rest) == Ok::<(ValueView, Seq<u8>), FaultAt>(
            (ValueView::Int((tag - 8) as i64), rest),
        ),
        x.len() == 16 ==> leaf(0x05, x + rest) == Ok::<(ValueView, Seq<u8>), FaultAt>(
            (ValueView::Uuid(x), rest),
        ),
        x.len() == 8 ==> leaf(0x06, x + rest) == Ok::<(ValueView, Seq<u8>), FaultAt>(
            (ValueView::Date(le_value(x) as u64), rest),
        ),
        x.len() == 1 ==> leaf(0x30, x + rest) == Ok::<(ValueView, Seq<u8>), FaultAt>(
            (ValueView::Int(signed_value(le_value(x), 1) as i64), rest),
        ),
        x.len() == 2 ==> leaf(0x31, x + rest) == Ok::<(ValueView, Seq<u8>), FaultAt>(
            (ValueView::Int(signed_value(le_value(x), 2) as i64), rest),
        ),
        x.len() == 4 ==> leaf(0x32, x + rest) == Ok::<(ValueView, Seq<u8>), FaultAt>(
            (ValueView::Int(signed_value(le_value(x), 4) as i64), rest),
        ),
        x.len() == 8 ==> leaf(0x33, x + rest) == Ok::<(ValueView, Seq<u8>), FaultAt>(
            (ValueView::Int(signed_value(le_value(x), 8) as i64), rest),
        ),
        x.len() == 4 ==> leaf(0x35, x + rest) == Ok::<(ValueView, Seq<u8>), FaultAt>(
            (ValueView::Float(widened(le_value(x) as u32)), rest),
        ),
        x.len() == 8 ==> leaf(0x36, x + rest) == Ok::<(ValueView, Seq<u8>), FaultAt>(
            (ValueView::Float(le_value(x) as u64), rest),
        ),
{
    lemma_split_exact(x, rest);
}

/// Texts and data are read by their length, which is in the tag, up to 32 bytes, or in
/// the one, two, four or eight bytes behind it; or up to their end mark, a zero byte for
/// a text and a terminator for data.
pub proof fn law_texts_and_data_are_read_by_their_length(
    x: Seq<u8>,
    rest: Seq<u8>,
    width: nat,
    step: u8,
)
    requires
        width == 1 && step == 0 || width == 2 && step == 1 || width == 4 && step == 2 || width == 8
            && step == 3,
    ensures
        ({
            let text = Ok::<(ValueView, Seq<u8>), FaultAt>((ValueView::Text(text_of(x)), rest));
            let data = Ok::<(ValueView, Seq<u8>), FaultAt>((ValueView::Data(x), rest));
            &&& x.len() <= 32 ==> leaf((0x40 + x.len()) as u8, x + rest) == text
            &&& x.len() <= 32 ==> leaf((0x70 + x.len()) as u8, x + rest) == data
            &&& x.len() < pow256(width) ==> leaf(
                (0x61 + step) as u8,
                le_bytes(x.len(), width) + (x + rest),
            ) == text
            &&& x.len() < pow256(width) ==> leaf(
                (0x91 + step) as u8,
                le_bytes(x.len(), width) + (x + rest),
            ) == data
            &&& !x.contains(0) ==> leaf(0x6f, x.push(0) + rest) == text
            &&& !x.contains(3) ==> leaf(0x9f, x.push(3) + rest) == data
        }),
{
    lemma_split_exact(x, rest);
    let length = le_bytes(x.len(), width);
    lemma_le_bytes_len(x.len(), width);
    if x.len() < pow256(width) {
        lemma_le_roundtrip(x.len(), width);
    }
    lemma_split_exact(length, x + rest);
    lemma_split_at_mark(x, rest, 0);
    lemma_split_at_mark(x, rest, 3);
}

proof fn lemma_split_at_mark(x: Seq<u8>, rest: Seq<u8>, mark: u8)
    ensures
        !x.contains(mark) ==> split_until(x.push(mark) + rest, mark) == Ok::<
            (Seq<u8>, Seq<u8>),
            FaultAt,
        >((x, rest)),
{
    let s = x.push(mark) + rest;
    assert(s[x.len() as int] == mark);
    assert(s.contains(mark));
    s.index_of_first_ensures(mark);
    let i = s.index_of_first(mark)->0;
    if i < x.len() {
        assert(x[i] == s[i]);
        assert(x.contains(mark));
    } else {
        assert(i == x.len());
        assert(s.take(i) =~= x);
        assert(s.skip(i + 1) =~= rest);
    }
}

/// A tag that stands for nothing is a fault, and zero one of its own; so is a payload
/// that is shorter than its tag says.
pub proof fn law_other_tags_are_faults(tag: u8, b: Seq<u8>)
    ensures
        leaf(0x00, b) == Err::<(ValueView, Seq<u8>), FaultAt>((FaultView::ZeroTag, b)),
        tag == 0x34 || 0x37 <= tag <= 0x3f || 0x65 <= tag <= 0x6e || 0x95 <= tag <= 0x9e || tag
            >= 0xf0 ==> leaf(tag, b) == Err::<(ValueView, Seq<u8>), FaultAt>(
            (FaultView::UnknownTag(tag), b),
        ),
        tag == 0x36 && b.len() < 8 && b.len() <= usize::MAX ==> leaf(tag, b) == Err::<
            (ValueView, Seq<u8>),
            FaultAt,
        >((FaultView::Short { need: 8, have: b.len() as usize }, b)),
{
}

/// A value of the list of leaves is read again by its number, and a number that no leaf
/// has is a fault; values that are no lists are added to that list.
pub proof fn law_leaves_are_read_again(i: u8, rest: Seq<u8>, leaves: Seq<ValueView>)
    requires
        i < 48,
    ensures
        ({
            let b = seq![(0xa0 + i) as u8] + rest;
            &&& i < leaves.len() ==> decoded(b, leaves) == (Decoded::Item {
                value: leaves[i as int],
                rest,
                leaves,
            })
            &&& i >= leaves.len() ==> decoded(b, leaves) == (Decoded::Fail {
                fault: FaultView::BackReference(i as usize),
                rest,
                leaves,
            })
        }),
        decoded(seq![0x01u8] + rest, leaves) == (Decoded::Item {
            value: ValueView::Bool(true),
            rest,
            leaves: leaves.push(ValueView::Bool(true)),
        }),
        decoded(seq![0x03u8] + rest, leaves) == (Decoded::End { rest }),
{
    assert((seq![(0xa0 + i) as u8] + rest).skip(1) =~= rest);
    assert((seq![0x01u8] + rest).skip(1) =~= rest);
    assert((seq![0x03u8] + rest).skip(1) =~= rest);
}

/// Lists and dictionaries are read by the number in their tag, up to fourteen, or up to a
/// terminator.
pub proof fn law_lists_and_dictionaries_are_read_by_their_tags(
    n: u8,
    rest: Seq<u8>,
    leaves: Seq<ValueView>,
)
    requires
        n <= 14,
    ensures
        decoded(seq![(0xd0 + n) as u8] + rest, leaves) == as_array(
            counted_items(Seq::empty(), rest, leaves, n as nat),
        ),
        decoded(seq![(0xe0 + n) as u8] + rest, leaves) == as_dict(
            counted_entries(Seq::empty(), rest, leaves, n as nat),
        ),
        decoded(seq![0xdfu8] + rest, leaves) == as_array(
            items_until_end(Seq::empty(), rest, leaves),
        ),
        decoded(seq![0xefu8] + rest, leaves) == as_dict(
            entries_until_end(Seq::empty(), rest, leaves),
        ),
        decoded(seq![0xd0u8] + rest, leaves) == (Decoded::Item {
            value: ValueView::Array(Seq::empty()),
            rest,
            leaves,
        }),
        decoded(seq![0xe0u8] + rest, leaves) == (Decoded::Item {
            value: ValueView::Dict(Seq::empty()),
            rest,
            leaves,
        }),
        decoded(seq![0xefu8, 0x03u8] + rest, leaves) == (Decoded::Item {
            value: ValueView::Dict(Seq::empty()),
            rest,
            leaves,
        }),
{
    assert((seq![(0xd0 + n) as u8] + rest).skip(1) =~= rest);
    assert((seq![(0xe0 + n) as u8] + rest).skip(1) =~= rest);
    assert((seq![0xdfu8] + rest).skip(1) =~= rest);
    assert((seq![0xefu8] + rest).skip(1) =~= rest);
    assert((seq![0xd0u8] + rest).skip(1) =~= rest);
    assert((seq![0xe0u8] + rest).skip(1) =~= rest);
    let end = seq![0x03u8] + rest;
    assert(end.skip(1) =~= rest);
    assert((seq![0xefu8, 0x03u8] + rest).skip(1) =~= end);
    assert(decoded(end, leaves) == (Decoded::End { rest }));
    assert(entries_until_end(Seq::empty(), end, leaves) == (DecodedList::Items {
        values: Seq::<(Seq<char>, ValueView)>::empty(),
        rest,
        leaves,
    }));
    assert(counted_items(Seq::empty(), rest, leaves, 0) == (DecodedList::Items {
        values: Seq::<ValueView>::empty(),
        rest,
        leaves,
    }));
    assert(counted_entries(Seq::empty(), rest, leaves, 0) == (DecodedList::Items {
        values: Seq::<(Seq<char>, ValueView)>::empty(),
        rest,
        leaves,
    }));
}

/// Whole numbers are read as they are, and floating-point numbers without their
/// fraction; nothing else is a number.
pub proof fn law_what_counts_as_an_integer(v: ValueView, i: i64, bits: u64)
    ensures
        int_of(ValueView::Int(i)) == Some(i),
        int_of(ValueView::Int64(i)) == Some(i),
        int_of(ValueView::Float(bits)) == Some(truncated(bits)),
        !(v is Int) && !(v is Int64) && !(v is Float) ==> int_of(v) is None,
{
}

/// A fault is told in words, with the numbers that belong to it.
pub proof fn law_faults_are_told(fault: FaultView)
    ensures
        fault matches FaultView::Short { need, have } ==> fault_text(fault) == "need "@ + decimal(
            need as nat,
        ) + " bytes, have "@ + decimal(have as nat),
        fault is ZeroTag ==> fault_text(fault) == "zero tag"@,
        fault matches FaultView::UnknownTag(tag) ==> fault_text(fault) == "unknown tag 0x"@ + seq![
            hex_char((tag / 16) as nat),
            hex_char((tag % 16) as nat),
        ],
        fault matches FaultView::BackReference(index) ==> fault_text(fault) == "back-reference "@
            + decimal(index as nat) + " out of range"@,
        fault is TerminatorInArray ==> fault_text(fault) == "terminator in array"@,
        fault is TerminatorInDict ==> fault_text(fault) == "terminator in dict"@,
        fault is UnexpectedTerminator ==> fault_text(fault) == "unexpected terminator"@,
        fault matches FaultView::KeyNotString(value) ==> fault_text(fault)
            == "non-string dict key: "@ + shown(value),
        fault == FaultView::KeyExpected(None) ==> fault_text(fault)
            == "expected string dict key, got "@ + "None"@,
{
}

} // verus!
