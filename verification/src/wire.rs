//! Fixed-width integers as byte sequences, in either byte order.

use vstd::prelude::*;

verus! {

/// The `width` low-order base-256 digits of `v`, least significant first.
pub open spec fn le_bytes(v: nat, width: nat) -> Seq<u8>
    decreases width,
{
    if width == 0 {
        Seq::empty()
    } else {
        seq![(v % 256) as u8] + le_bytes(v / 256, (width - 1) as nat)
    }
}

/// The `width` low-order base-256 digits of `v`, most significant first.
pub open spec fn be_bytes(v: nat, width: nat) -> Seq<u8>
    decreases width,
{
    if width == 0 {
        Seq::empty()
    } else {
        be_bytes(v / 256, (width - 1) as nat) + seq![(v % 256) as u8]
    }
}

/// The number whose base-256 digits are `b`, least significant first.
pub open spec fn le_value(b: Seq<u8>) -> nat
    decreases b.len(),
{
    if b.len() == 0 {
        0
    } else {
        b[0] as nat + 256 * le_value(b.skip(1))
    }
}

/// The number whose base-256 digits are `b`, most significant first.
pub open spec fn be_value(b: Seq<u8>) -> nat
    decreases b.len(),
{
    if b.len() == 0 {
        0
    } else {
        256 * be_value(b.drop_last()) + b.last() as nat
    }
}

/// 256 to the power `width`.
pub open spec fn pow256(width: nat) -> nat
    decreases width,
{
    if width == 0 {
        1
    } else {
        256 * pow256((width - 1) as nat)
    }
}

/// The two's complement pattern of `v` on `width` bytes.
pub open spec fn twos_complement(v: int, width: nat) -> nat {
    if v < 0 {
        (v + pow256(width)) as nat
    } else {
        v as nat
    }
}

/// The signed number whose two's complement pattern on `width` bytes is `n`.
pub open spec fn signed_value(n: nat, width: nat) -> int {
    if 2 * n < pow256(width) {
        n as int
    } else {
        n - pow256(width)
    }
}

pub proof fn lemma_pow256_values()
    ensures
        pow256(0) == 1,
        pow256(1) == 0x100,
        pow256(2) == 0x1_0000,
        pow256(3) == 0x100_0000,
        pow256(4) == 0x1_0000_0000,
        pow256(8) == 0x1_0000_0000_0000_0000,
{
    reveal_with_fuel(pow256, 9);
}

pub proof fn lemma_le_bytes_len(v: nat, width: nat)
    ensures
        le_bytes(v, width).len() == width,
    decreases width,
{
    if width > 0 {
        lemma_le_bytes_len(v / 256, (width - 1) as nat);
    }
}

pub proof fn lemma_be_bytes_len(v: nat, width: nat)
    ensures
        be_bytes(v, width).len() == width,
    decreases width,
{
    if width > 0 {
        lemma_be_bytes_len(v / 256, (width - 1) as nat);
    }
}

pub proof fn lemma_le_value_bound(b: Seq<u8>)
    ensures
        le_value(b) < pow256(b.len()),
    decreases b.len(),
{
    if b.len() > 0 {
        lemma_le_value_bound(b.skip(1));
    }
}

pub proof fn lemma_be_value_bound(b: Seq<u8>)
    ensures
        be_value(b) < pow256(b.len()),
    decreases b.len(),
{
    if b.len() > 0 {
        lemma_be_value_bound(b.drop_last());
    }
}

/// Reading little-endian digits gives back the number they were written from.
pub proof fn lemma_le_roundtrip(v: nat, width: nat)
    requires
        v < pow256(width),
    ensures
        le_value(le_bytes(v, width)) == v,
    decreases width,
{
    if width > 0 {
        lemma_le_bytes_len(v, width);
        lemma_le_roundtrip(v / 256, (width - 1) as nat);
        assert(le_bytes(v, width).skip(1) =~= le_bytes(v / 256, (width - 1) as nat));
    }
}

/// Reading big-endian digits gives back the number they were written from.
pub proof fn lemma_be_roundtrip(v: nat, width: nat)
    requires
        v < pow256(width),
    ensures
        be_value(be_bytes(v, width)) == v,
    decreases width,
{
    if width > 0 {
        lemma_be_bytes_len(v, width);
        lemma_be_roundtrip(v / 256, (width - 1) as nat);
        assert(be_bytes(v, width).drop_last() =~= be_bytes(v / 256, (width - 1) as nat));
    }
}

/// The value of big-endian digits, one more digit at a time.
proof fn lemma_be_value_push(b: Seq<u8>, d: u8)
    ensures
        be_value(b.push(d)) == 256 * be_value(b) + d as nat,
{
    assert(b.push(d).drop_last() =~= b);
}

/// Appends the `width` low-order bytes of `v`, least significant first.
pub fn push_le(out: &mut Vec<u8>, v: u64, width: usize)
    ensures
        final(out)@ == old(out)@ + le_bytes(v as nat, width as nat),
{
    let mut rest: u64 = v;
    let mut left: usize = width;
    while left > 0
        invariant
            left <= width,
            out@ + le_bytes(rest as nat, left as nat) == old(out)@ + le_bytes(
                v as nat,
                width as nat,
            ),
        decreases left,
    {
        let ghost before = out@;
        out.push((rest % 256) as u8);
        assert(before + le_bytes(rest as nat, left as nat) =~= out@ + le_bytes(
            (rest / 256) as nat,
            (left - 1) as nat,
        ));
        rest = rest / 256;
        left = left - 1;
    }
    assert(out@ + Seq::<u8>::empty() =~= out@);
}

/// Appends the `width` low-order bytes of `v`, most significant first.
pub fn push_be(out: &mut Vec<u8>, v: u64, width: usize)
    ensures
        final(out)@ == old(out)@ + be_bytes(v as nat, width as nat),
    decreases width,
{
    if width > 0 {
        push_be(out, v / 256, width - 1);
        out.push((v % 256) as u8);
    }
    assert(out@ =~= old(out)@ + be_bytes(v as nat, width as nat));
}

/// The little-endian number in `b`.
pub fn read_le(b: &[u8]) -> (v: u64)
    requires
        b@.len() <= 8,
    ensures
        v == le_value(b@),
{
    let mut v: u64 = 0;
    let mut i: usize = b.len();
    assert(b@.skip(i as int).len() == 0);
    while i > 0
        invariant
            i <= b@.len() <= 8,
            v == le_value(b@.skip(i as int)),
        decreases i,
    {
        i = i - 1;
        proof {
            let rest = b@.skip(i as int);
            assert(rest.skip(1) =~= b@.skip(i + 1));
            lemma_le_value_bound(rest);
            lemma_pow256_le(rest.len(), 8);
            lemma_pow256_values();
        }
        v = b[i] as u64 + 256 * v;
    }
    assert(b@.skip(0) =~= b@);
    v
}

/// The big-endian number in `b`.
pub fn read_be(b: &[u8]) -> (v: u64)
    requires
        b@.len() <= 8,
    ensures
        v == be_value(b@),
{
    let mut v: u64 = 0;
    let mut i: usize = 0;
    while i < b.len()
        invariant
            i <= b@.len() <= 8,
            v == be_value(b@.take(i as int)),
        decreases b@.len() - i,
    {
        proof {
            let seen = b@.take(i + 1);
            assert(seen =~= b@.take(i as int).push(b@[i as int]));
            lemma_be_value_push(b@.take(i as int), b@[i as int]);
            lemma_be_value_bound(seen);
            lemma_pow256_le(seen.len(), 8);
            lemma_pow256_values();
        }
        v = 256 * v + b[i] as u64;
        i = i + 1;
    }
    assert(b@.take(i as int) =~= b@);
    v
}

pub proof fn lemma_pow256_le(a: nat, b: nat)
    requires
        a <= b,
    ensures
        pow256(a) <= pow256(b),
    decreases b,
{
    if a < b {
        lemma_pow256_le(a, (b - 1) as nat);
    }
}

/// The two's complement pattern of a 64-bit integer.
pub fn unsigned_of(v: i64) -> (n: u64)
    ensures
        n == twos_complement(v as int, 8),
{
    proof {
        lemma_pow256_values();
    }
    if v >= 0 {
        v as u64
    } else {
        u64::MAX - ((-(v + 1)) as u64)
    }
}

/// The signed integer whose two's complement pattern on `width` bytes is `n`.
pub fn signed_of(n: u64, width: usize) -> (v: i64)
    requires
        width == 1 || width == 2 || width == 4 || width == 8,
        n < pow256(width as nat),
    ensures
        v == signed_value(n as nat, width as nat),
{
    proof {
        lemma_pow256_values();
    }
    let top: u64 = if width == 1 {
        0xff
    } else if width == 2 {
        0xffff
    } else if width == 4 {
        0xffff_ffff
    } else {
        0xffff_ffff_ffff_ffff
    };
    if n <= top / 2 {
        n as i64
    } else {
        -((top - n) as i64) - 1
    }
}

/// A copy of `b`.
pub fn to_vec(b: &[u8]) -> (v: Vec<u8>)
    ensures
        v@ == b@,
{
    let mut v: Vec<u8> = Vec::new();
    v.extend_from_slice(b);
    assert(v@ =~= b@);
    v
}

/// The bytes of a number are its digits to the base 256: the last of the big-endian
/// ones and the first of the little-endian ones is the remainder, and the others are
/// those of the quotient. Either order is the other one turned round, and the number
/// is read back as the sum of its digits.
pub proof fn law_bytes_are_digits(v: nat, a: u8, b: u8, c: u8, d: u8)
    ensures
        le_bytes(v, 1) == seq![(v % 256) as u8],
        le_bytes(v, 2) == seq![(v % 256) as u8, (v / 256 % 256) as u8],
        be_bytes(v, 2) == seq![(v / 256 % 256) as u8, (v % 256) as u8],
        be_bytes(v, 3) == seq![
            (v / 256 / 256 % 256) as u8,
            (v / 256 % 256) as u8,
            (v % 256) as u8,
        ],
        le_bytes(v, 4) == seq![
            (v % 256) as u8,
            (v / 256 % 256) as u8,
            (v / 256 / 256 % 256) as u8,
            (v / 256 / 256 / 256 % 256) as u8,
        ],
        le_value(seq![a, b]) == a + 256 * b,
        be_value(seq![a, b]) == 256 * a + b,
        be_value(seq![a, b, c]) == 0x1_0000 * a + 256 * b + c,
        be_value(seq![a, b, c, d]) == 0x100_0000 * a + 0x1_0000 * b + 256 * c + d,
        le_value(seq![a, b, c, d]) == a + 256 * b + 0x1_0000 * c + 0x100_0000 * d,
{
    reveal_with_fuel(le_bytes, 5);
    reveal_with_fuel(be_bytes, 5);
    reveal_with_fuel(le_value, 5);
    reveal_with_fuel(be_value, 5);
    assert(le_bytes(v, 1) =~= seq![(v % 256) as u8]);
    assert(le_bytes(v, 2) =~= seq![(v % 256) as u8, (v / 256 % 256) as u8]);
    assert(be_bytes(v, 2) =~= seq![(v / 256 % 256) as u8, (v % 256) as u8]);
    assert(be_bytes(v, 3) =~= seq![
        (v / 256 / 256 % 256) as u8,
        (v / 256 % 256) as u8,
        (v % 256) as u8,
    ]);
    assert(le_bytes(v, 4) =~= seq![
        (v % 256) as u8,
        (v / 256 % 256) as u8,
        (v / 256 / 256 % 256) as u8,
        (v / 256 / 256 / 256 % 256) as u8,
    ]);
    let two = seq![a, b];
    assert(two.skip(1) =~= seq![b]);
    assert(seq![b].skip(1) =~= Seq::empty());
    assert(two.drop_last() =~= seq![a]);
    assert(seq![a].drop_last() =~= Seq::empty());
    let three = seq![a, b, c];
    assert(three.drop_last() =~= two);
    let four = seq![a, b, c, d];
    assert(four.drop_last() =~= three);
    assert(four.skip(1) =~= seq![b, c, d]);
    assert(seq![b, c, d].skip(1) =~= seq![c, d]);
    assert(seq![c, d].skip(1) =~= seq![d]);
    assert(seq![d].skip(1) =~= Seq::empty());
}

/// A signed number of one, two, four or eight bytes is told by its pattern: the upper
/// half of the patterns stands for the negative numbers.
pub proof fn law_negative_numbers_are_the_upper_half(v: int)
    ensures
        -0x80 <= v < 0x80 ==> signed_value(twos_complement(v, 1), 1) == v && (v < 0
            <==> twos_complement(v, 1) >= 0x80) && twos_complement(v, 1) < 0x100,
        -0x8000 <= v < 0x8000 ==> signed_value(twos_complement(v, 2), 2) == v && (v < 0
            <==> twos_complement(v, 2) >= 0x8000) && twos_complement(v, 2) < 0x1_0000,
        -0x8000_0000 <= v < 0x8000_0000 ==> signed_value(twos_complement(v, 4), 4) == v && (v < 0
            <==> twos_complement(v, 4) >= 0x8000_0000) && twos_complement(v, 4) < 0x1_0000_0000,
        -0x8000_0000_0000_0000 <= v < 0x8000_0000_0000_0000 ==> signed_value(
            twos_complement(v, 8),
            8,
        ) == v && (v < 0 <==> twos_complement(v, 8) >= 0x8000_0000_0000_0000),
{
    lemma_pow256_values();
}

} // verus!
