//! Where a key frame is in RTP packets of H.264.

use vstd::prelude::*;
use crate::wire::{be_bytes, be_value, law_bytes_are_digits, read_be};

verus! {

/// Where the payload of an RTP packet starts, if its header is there as far as it
/// tells: twelve bytes, four for each contributing source, and the extension.
pub open spec fn payload_offset(packet: Seq<u8>) -> Option<int> {
    let sources = 12 + (packet[0] & 0x0f) * 4;
    if packet[0] & 0x10 == 0 {
        Some(sources)
    } else if sources + 4 > packet.len() {
        None
    } else {
        Some(
            sources + 4 + be_value(packet.subrange(sources + 2, sources + 4)) * 4,
        )
    }
}

/// Whether one of the units in an aggregation packet, from an offset on, is a key
/// frame. Each unit has its length in two bytes before it; the walk ends at a
/// length of zero or one that runs past the end.
pub open spec fn aggregates_idr(payload: Seq<u8>, at: int) -> bool
    decreases payload.len() - at,
{
    if at < 0 || at + 2 > payload.len() {
        false
    } else {
        let length = be_value(payload.subrange(at, at + 2));
        if length == 0 || at + 2 + length > payload.len() {
            false
        } else {
            payload[at + 2] & 0x1f == 5 || aggregates_idr(payload, at + 2 + length)
        }
    }
}

/// Whether a payload starts or holds a key frame: a single unit of type 5, the
/// first fragment of one, or an aggregation packet with one.
pub open spec fn payload_has_idr(payload: Seq<u8>) -> bool {
    let kind = payload[0] & 0x1f;
    if kind == 5 {
        true
    } else if kind == 28 {
        payload.len() >= 2 && payload[1] & 0x80 != 0 && payload[1] & 0x1f == 5
    } else if kind == 24 {
        aggregates_idr(payload, 1)
    } else {
        false
    }
}

/// Whether an RTP packet starts or holds a key frame.
pub open spec fn has_idr(packet: Seq<u8>) -> bool {
    &&& packet.len() >= 13
    &&& packet[0] >> 6 == 2
    &&& payload_offset(packet) matches Some(at) && at < packet.len() && payload_has_idr(
        packet.skip(at),
    )
}

fn finds_idr(payload: &[u8]) -> (r: bool)
    requires
        payload@.len() > 0,
    ensures
        r == payload_has_idr(payload@),
{
    let len: usize = payload.len();
    let kind: u8 = payload[0] & 0x1f;
    if kind == 5 {
        return true;
    }
    if kind == 28 {
        return len >= 2 && payload[1] & 0x80 != 0 && payload[1] & 0x1f == 5;
    }
    if kind != 24 {
        return false;
    }
    let mut index: usize = 1;
    while len - index >= 2
        invariant
            1 <= index <= len,
            len == payload@.len(),
            aggregates_idr(payload@, index as int) == aggregates_idr(payload@, 1),
            payload_has_idr(payload@) == aggregates_idr(payload@, 1),
        decreases len - index,
    {
        let field = &payload[index..index + 2];
        assert(field@ =~= payload@.subrange(index as int, index + 2));
        let length: u64 = read_be(field);
        if length == 0 || length > (len - index - 2) as u64 {
            return false;
        }
        if payload[index + 2] & 0x1f == 5 {
            return true;
        }
        index = index + 2 + length as usize;
    }
    false
}

/// Whether an RTP packet starts or holds a key frame.
pub fn h264_contains_idr(packet: &[u8]) -> (r: bool)
    ensures
        r == has_idr(packet@),
{
    let len: usize = packet.len();
    if len < 13 || packet[0] >> 6 != 2 {
        return false;
    }
    let first: u8 = packet[0];
    assert(first & 0x0f <= 15) by (bit_vector);
    let mut offset: usize = 12 + (first & 0x0f) as usize * 4;
    if first & 0x10 != 0 {
        if offset + 4 > len {
            return false;
        }
        let field = &packet[offset + 2..offset + 4];
        assert(field@ =~= packet@.subrange(offset + 2, offset + 4));
        proof {
            crate::wire::lemma_be_value_bound(field@);
            crate::wire::lemma_pow256_values();
        }
        let words: u64 = read_be(field);
        offset = offset + 4 + words as usize * 4;
    }
    if offset >= len {
        return false;
    }
    let payload = &packet[offset..len];
    assert(payload@ =~= packet@.skip(offset as int));
    finds_idr(payload)
}

proof fn lemma_bits(b: u8)
    ensures
        b & 0x0f == b % 16,
        b & 0x1f == b % 32,
        b & 0x10 == 0 <==> b / 16 % 2 == 0,
        b & 0x80 != 0 <==> b >= 128,
        b >> 6 == b / 64,
{
    assert(b & 0x0f == b % 16 && b & 0x1f == b % 32 && (b & 0x10 == 0 <==> b / 16 % 2 == 0) && (b
        & 0x80 != 0 <==> b >= 128) && b >> 6 == b / 64) by (bit_vector);
}

/// A packet is looked at from its thirteenth byte on, and behind the four bytes of each
/// contributing source and behind the extension with its number of words, where the
/// header has them. Only version 2 counts.
pub proof fn law_the_header_is_skipped(packet: Seq<u8>)
    requires
        packet.len() >= 13,
    ensures
        ({
            let sources = 12 + 4 * (packet[0] % 16) as int;
            let extended = packet[0] / 16 % 2 == 1;
            let words = 256 * packet[sources + 2] + packet[sources + 3];
            let start = if extended {
                sources + 4 + 4 * words
            } else {
                sources
            };
            &&& has_idr(packet) ==> 128 <= packet[0] < 192
            &&& has_idr(packet) && extended ==> sources + 4 <= packet.len()
            &&& has_idr(packet) ==> start < packet.len() && payload_has_idr(packet.skip(start))
            &&& 128 <= packet[0] < 192 && start < packet.len() && payload_has_idr(
                packet.skip(start),
            ) ==> has_idr(packet)
        }),
{
    let sources = 12 + 4 * (packet[0] % 16) as int;
    lemma_bits(packet[0]);
    if sources + 4 <= packet.len() {
        law_bytes_are_digits(0, packet[sources + 2], packet[sources + 3], 0, 0);
        assert(packet.subrange(sources + 2, sources + 4) =~= seq![
            packet[sources + 2],
            packet[sources + 3],
        ]);
    }
}

/// A payload has a key frame where it is one unit of type 5, or the first fragment
/// (type 28) of such a unit. Later fragments do not count, and neither does any other
/// unit but an aggregation packet (type 24).
pub proof fn law_key_frames_have_type_five(payload: Seq<u8>)
    requires
        payload.len() > 0,
    ensures
        payload[0] % 32 == 5 ==> payload_has_idr(payload),
        payload[0] % 32 == 28 ==> (payload_has_idr(payload) <==> payload.len() >= 2 && payload[1]
            >= 128 && payload[1] % 32 == 5),
        payload_has_idr(payload) ==> payload[0] % 32 == 5 || payload[0] % 32 == 28 || payload[0]
            % 32 == 24,
{
    lemma_bits(payload[0]);
    if payload.len() >= 2 {
        lemma_bits(payload[1]);
    }
}

/// The units of an aggregation packet, each behind its length in two bytes.
pub open spec fn aggregated(units: Seq<Seq<u8>>) -> Seq<u8>
    decreases units.len(),
{
    if units.len() == 0 {
        Seq::empty()
    } else {
        be_bytes(units[0].len(), 2) + units[0] + aggregated(units.skip(1))
    }
}

/// An aggregation packet has a key frame where one of its units is one.
pub proof fn law_any_unit_can_be_the_key_frame(first: u8, units: Seq<Seq<u8>>)
    requires
        first % 32 == 24,
        forall|i: int| 0 <= i < units.len() ==> 0 < (#[trigger] units[i]).len() < 0x1_0000,
    ensures
        payload_has_idr(seq![first] + aggregated(units)) <==> exists|i: int|
            0 <= i < units.len() && (#[trigger] units[i])[0] % 32 == 5,
{
    lemma_bits(first);
    lemma_units(seq![first], units);
}

proof fn lemma_units(head: Seq<u8>, units: Seq<Seq<u8>>)
    requires
        forall|i: int| 0 <= i < units.len() ==> 0 < (#[trigger] units[i]).len() < 0x1_0000,
    ensures
        aggregates_idr(head + aggregated(units), head.len() as int) <==> exists|i: int|
            0 <= i < units.len() && (#[trigger] units[i])[0] % 32 == 5,
    decreases units.len(),
{
    let payload = head + aggregated(units);
    let at = head.len() as int;
    if units.len() == 0 {
        assert(payload.len() == at);
    } else {
        let unit = units[0];
        let rest = units.skip(1);
        assert forall|i: int| 0 <= i < rest.len() implies 0 < (#[trigger] rest[i]).len()
            < 0x1_0000 by {
            assert(units[i + 1] == rest[i]);
        }
        let length = be_bytes(unit.len(), 2);
        law_bytes_are_digits(unit.len(), length[0], length[1], 0, 0);
        law_bytes_are_digits(unit.len(), (unit.len() / 256 % 256) as u8, (unit.len() % 256) as u8, 0, 0);
        assert(length.len() == 2);
        assert(payload.subrange(at, at + 2) =~= length);
        assert(be_value(length) == unit.len());
        assert(payload[at + 2] == unit[0]);
        lemma_bits(unit[0]);
        let before = head + length + unit;
        assert(before + aggregated(rest) =~= payload);
        lemma_units(before, rest);
        assert(before.len() == at + 2 + unit.len());
        if exists|i: int| 0 <= i < rest.len() && (#[trigger] rest[i])[0] % 32 == 5 {
            let i = choose|i: int| 0 <= i < rest.len() && (#[trigger] rest[i])[0] % 32 == 5;
            assert(units[i + 1] == rest[i]);
        }
        if exists|i: int| 0 <= i < units.len() && (#[trigger] units[i])[0] % 32 == 5 {
            let i = choose|i: int| 0 <= i < units.len() && (#[trigger] units[i])[0] % 32 == 5;
            if i > 0 {
                assert(rest[i - 1] == units[i]);
            }
        }
    }
}

} // verus!
