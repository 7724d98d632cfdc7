//! SRTP and SRTCP protection, and the clock of the Opus stream that HomeKit
//! negotiates.

use vstd::prelude::*;
use webrtc_srtp::protection_profile::ProtectionProfile;
use crate::wire::{be_bytes, be_value, law_bytes_are_digits, lemma_be_bytes_len, lemma_be_roundtrip, lemma_be_value_bound, lemma_pow256_values, push_be, read_be, to_vec};

verus! {

/// A cryptographic context of `webrtc_srtp`, for one direction.
#[verifier::external_type_specification]
#[verifier::external_body]
pub struct ExContext(webrtc_srtp::context::Context);

/// The key material that a context was made with.
pub uninterp spec fn context_master(context: webrtc_srtp::context::Context) -> Seq<u8>;

/// The RTP packets that a context has been given to protect.
pub uninterp spec fn rtp_history(context: webrtc_srtp::context::Context) -> Seq<Seq<u8>>;

/// The RTCP packets that a context has been given to protect.
pub uninterp spec fn rtcp_history(context: webrtc_srtp::context::Context) -> Seq<Seq<u8>>;

/// The protected form of an RTP packet, after the packets that came before it.
pub uninterp spec fn protected_rtp(
    master: Seq<u8>,
    history: Seq<Seq<u8>>,
    packet: Seq<u8>,
) -> Option<Seq<u8>>;

/// The protected form of an RTCP packet, after the packets that came before it.
pub uninterp spec fn protected_rtcp(
    master: Seq<u8>,
    history: Seq<Seq<u8>>,
    packet: Seq<u8>,
) -> Option<Seq<u8>>;

/// The RTCP packet in a protected one.
pub uninterp spec fn unprotected_rtcp(master: Seq<u8>, packet: Seq<u8>) -> Option<Seq<u8>>;

/// Where the fixed header of an RTP packet and its contributing sources end.
pub open spec fn sources_end(packet: Seq<u8>) -> int {
    12 + 4 * (packet[0] % 16)
}

/// Where the header of an RTP packet ends by its length fields, where the packet
/// holds all of it.
pub open spec fn announced_header(packet: Seq<u8>) -> Option<int> {
    let at = sources_end(packet);
    if packet.len() < 12 || packet.len() < at {
        None
    } else if (packet[0] / 16) % 2 == 0 {
        Some(at)
    } else if packet.len() < at + 4 {
        None
    } else {
        let end = at + 4 + 4 * be_value(packet.subrange(at + 2, at + 4));
        if packet.len() < end {
            None
        } else {
            Some(end)
        }
    }
}

/// The form of the elements that a header extension is made of.
#[derive(Clone, Copy, Debug, PartialEq, Eq, Structural)]
pub enum ElementForm {
    /// The id and the length share a byte.
    OneByte,
    /// The id and the length have a byte each.
    TwoByte,
}

/// The form of the elements in a packet's header extension, where it has one that
/// is made of elements.
pub open spec fn element_form(packet: Seq<u8>) -> Option<ElementForm> {
    let at = sources_end(packet);
    if (packet[0] / 16) % 2 == 0 {
        None
    } else if packet[at] == 0xbe && packet[at + 1] == 0xde {
        Some(ElementForm::OneByte)
    } else if packet[at] == 0x10 && packet[at + 1] == 0x00 {
        Some(ElementForm::TwoByte)
    } else {
        None
    }
}

/// How many bytes the elements and the padding between them take that start within
/// `at..end`; the id 15 ends elements of the one-byte form. `None` where an element
/// runs past the packet.
pub open spec fn elements_len(packet: Seq<u8>, at: int, end: int, form: ElementForm) -> Option<int>
    decreases packet.len() - at,
{
    if at >= end {
        Some(0)
    } else {
        let b = packet[at];
        let size = if b == 0 {
            1
        } else if form is OneByte {
            2 + b % 16
        } else {
            2 + packet[at + 1]
        };
        if b / 16 == 15 && form is OneByte {
            Some(0)
        } else if b != 0 && form is TwoByte && at + 1 >= packet.len() {
            None
        } else if at + size > packet.len() {
            None
        } else {
            match elements_len(packet, at + size, end, form) {
                Some(more) => Some(size + more),
                None => None,
            }
        }
    }
}

/// The length of an RTP packet's header, where the packet holds all of it. Elements
/// count as long as they are, rounded up to whole words.
pub open spec fn rtp_header_len(packet: Seq<u8>) -> Option<int> {
    match announced_header(packet) {
        None => None,
        Some(end) => match element_form(packet) {
            None => Some(end),
            Some(form) => {
                let start = sources_end(packet) + 4;
                match elements_len(packet, start, end, form) {
                    Some(n) => Some(start + 4 * ((n + 3) / 4)),
                    None => None,
                }
            },
        },
    }
}

/// Whether a packet holds its announced header, and the elements in it run past the
/// end of the packet.
pub open spec fn overlong_elements(packet: Seq<u8>) -> bool {
    announced_header(packet) is Some && (rtp_header_len(packet) is None || rtp_header_len(
        packet,
    )->0 > packet.len())
}

/// Calls `webrtc_srtp::context::Context::new` for AES-128 in counter mode with an
/// 80-bit tag, which takes a key of 16 and a salt of 14 bytes and cannot fail on
/// them.
#[verifier::external_body]
fn new_context(master: &[u8]) -> (c: Option<webrtc_srtp::context::Context>)
    requires
        master@.len() == 30,
    ensures
        c is Some,
        context_master(c->0) == master@,
        rtp_history(c->0) == Seq::<Seq<u8>>::empty(),
        rtcp_history(c->0) == Seq::<Seq<u8>>::empty(),
{
    let profile = ProtectionProfile::Aes128CmHmacSha1_80;
    webrtc_srtp::context::Context::new(&master[..16], &master[16..], profile, None, None).ok()
}

/// Calls `webrtc_srtp::context::Context::encrypt_rtp`. The result is a function of
/// the key material, the packets before and the packet, named [`protected_rtp`]:
/// the header stays as it is, the payload is encrypted and a tag of ten bytes
/// follows. It fails on a packet that ends within its header, and once the packet
/// index is used up, which takes more than 2^32 packets. It panics where
/// elements of the header extension run past the packet; such packets are left out.
#[verifier::external_body]
fn encrypt_rtp(context: &mut webrtc_srtp::context::Context, packet: &[u8]) -> (r: Option<Vec<u8>>)
    requires
        !overlong_elements(packet@),
    ensures
        context_master(*final(context)) == context_master(*old(context)),
        rtp_history(*final(context)) == rtp_history(*old(context)).push(packet@),
        rtcp_history(*final(context)) == rtcp_history(*old(context)),
        match r {
            Some(out) => protected_rtp(
                context_master(*old(context)),
                rtp_history(*old(context)),
                packet@,
            ) == Some(out@) && rtp_header_len(packet@) is Some && out@.len() == packet@.len() + 10
                && out@.take(rtp_header_len(packet@)->0) == packet@.take(
                rtp_header_len(packet@)->0,
            ),
            None => protected_rtp(
                context_master(*old(context)),
                rtp_history(*old(context)),
                packet@,
            ) is None && (rtp_history(*old(context)).len() < 0x1_0000_0000 ==> rtp_header_len(
                packet@,
            ) is None),
        },
{
    context.encrypt_rtp(packet).ok().map(|v| v.to_vec())
}

/// Calls `webrtc_srtp::context::Context::encrypt_rtcp`. The result is a function of
/// the key material, the packets before and the packet, named [`protected_rtcp`]:
/// the first eight bytes stay, the rest is encrypted, and an index and a tag
/// follow, fourteen bytes in all. It fails on a packet of fewer than eight bytes or
/// of another version than 2. A context with the same key material gives the packet
/// back.
#[verifier::external_body]
fn encrypt_rtcp(context: &mut webrtc_srtp::context::Context, packet: &[u8]) -> (r: Option<Vec<u8>>)
    ensures
        context_master(*final(context)) == context_master(*old(context)),
        rtp_history(*final(context)) == rtp_history(*old(context)),
        rtcp_history(*final(context)) == rtcp_history(*old(context)).push(packet@),
        (r is Some) == (packet@.len() >= 8 && packet@[0] / 64 == 2),
        match r {
            Some(out) => protected_rtcp(
                context_master(*old(context)),
                rtcp_history(*old(context)),
                packet@,
            ) == Some(out@) && out@.len() == packet@.len() + 14 && out@.take(8) == packet@.take(8)
                && unprotected_rtcp(context_master(*old(context)), out@) == Some(packet@),
            None => protected_rtcp(
                context_master(*old(context)),
                rtcp_history(*old(context)),
                packet@,
            ) is None,
        },
{
    context.encrypt_rtcp(packet).ok().map(|v| v.to_vec())
}

/// Calls `webrtc_srtp::context::Context::decrypt_rtcp`. No packet is refused for
/// having been seen before, so the result is a function of the key material and the
/// packet, named [`unprotected_rtcp`]: the packet without the fourteen bytes behind
/// it. It panics on packets shorter than those.
#[verifier::external_body]
fn decrypt_rtcp(context: &mut webrtc_srtp::context::Context, packet: &[u8]) -> (r: Option<Vec<u8>>)
    requires
        packet@.len() >= 14,
    ensures
        context_master(*final(context)) == context_master(*old(context)),
        rtp_history(*final(context)) == rtp_history(*old(context)),
        rtcp_history(*final(context)) == rtcp_history(*old(context)),
        match r {
            Some(out) => unprotected_rtcp(context_master(*old(context)), packet@) == Some(out@)
                && out@.len() + 14 == packet@.len() && out@.take(8) == packet@.take(8),
            None => unprotected_rtcp(context_master(*old(context)), packet@) is None,
        },
{
    context.decrypt_rtcp(packet).ok().map(|v| v.to_vec())
}

/// The contexts of one HomeKit audio session, one for each direction: the two
/// directions have distinct state.
pub struct SrtpSession {
    outbound: webrtc_srtp::context::Context,
    inbound: webrtc_srtp::context::Context,
}

impl SrtpSession {
    /// The key material: a 16-byte key and a 14-byte salt.
    pub closed spec fn master(&self) -> Seq<u8> {
        context_master(self.outbound)
    }

    /// The RTP packets protected so far.
    pub closed spec fn sent_rtp(&self) -> Seq<Seq<u8>> {
        rtp_history(self.outbound)
    }

    /// The RTCP packets protected so far.
    pub closed spec fn sent_rtcp(&self) -> Seq<Seq<u8>> {
        rtcp_history(self.outbound)
    }

    pub closed spec fn wf(&self) -> bool {
        context_master(self.inbound) == context_master(self.outbound)
    }

    /// A session with key material of 30 bytes: a 16-byte key and a 14-byte salt.
    pub fn new(master: &[u8]) -> (s: Option<Self>)
        ensures
            s is Some <==> master@.len() == 30,
            s matches Some(s) ==> s.wf() && s.master() == master@ && s.sent_rtp() == Seq::<
                Seq<u8>,
            >::empty() && s.sent_rtcp() == Seq::<Seq<u8>>::empty(),
    {
        if master.len() != 30 {
            return None;
        }
        match (new_context(master), new_context(master)) {
            (Some(outbound), Some(inbound)) => Some(SrtpSession { outbound, inbound }),
            _ => None,
        }
    }

    /// Protects an RTP packet on its way out.
    pub fn protect_rtp(&mut self, packet: &[u8]) -> (r: Option<Vec<u8>>)
        requires
            old(self).wf(),
            !overlong_elements(packet@),
        ensures
            final(self).wf(),
            final(self).master() == old(self).master(),
            final(self).sent_rtp() == old(self).sent_rtp().push(packet@),
            final(self).sent_rtcp() == old(self).sent_rtcp(),
            match r {
                Some(out) => protected_rtp(old(self).master(), old(self).sent_rtp(), packet@)
                    == Some(out@) && rtp_header_len(packet@) is Some && out@.len() == packet@.len()
                    + 10 && out@.take(rtp_header_len(packet@)->0) == packet@.take(
                    rtp_header_len(packet@)->0,
                ),
                None => protected_rtp(old(self).master(), old(self).sent_rtp(), packet@) is None
                    && (old(self).sent_rtp().len() < 0x1_0000_0000 ==> rtp_header_len(
                    packet@,
                ) is None),
            },
    {
        encrypt_rtp(&mut self.outbound, packet)
    }

    /// Protects an RTCP packet on its way out. The other side's `unprotect_rtcp`
    /// gives it back.
    pub fn protect_rtcp(&mut self, packet: &[u8]) -> (r: Option<Vec<u8>>)
        requires
            old(self).wf(),
        ensures
            final(self).wf(),
            final(self).master() == old(self).master(),
            final(self).sent_rtp() == old(self).sent_rtp(),
            final(self).sent_rtcp() == old(self).sent_rtcp().push(packet@),
            (r is Some) == (packet@.len() >= 8 && packet@[0] / 64 == 2),
            match r {
                Some(out) => protected_rtcp(old(self).master(), old(self).sent_rtcp(), packet@)
                    == Some(out@) && out@.len() == packet@.len() + 14 && out@.take(8)
                    == packet@.take(8) && unprotected_rtcp(old(self).master(), out@) == Some(
                    packet@,
                ),
                None => protected_rtcp(
                    old(self).master(),
                    old(self).sent_rtcp(),
                    packet@,
                ) is None,
            },
    {
        encrypt_rtcp(&mut self.outbound, packet)
    }

    /// Takes the protection off an RTCP packet that came in.
    pub fn unprotect_rtcp(&mut self, packet: &[u8]) -> (r: Option<Vec<u8>>)
        requires
            old(self).wf(),
            packet@.len() >= 14,
        ensures
            final(self).wf(),
            final(self).master() == old(self).master(),
            final(self).sent_rtp() == old(self).sent_rtp(),
            final(self).sent_rtcp() == old(self).sent_rtcp(),
            match r {
                Some(out) => unprotected_rtcp(old(self).master(), packet@) == Some(out@)
                    && out@.len() + 14 == packet@.len() && out@.take(8) == packet@.take(8),
                None => unprotected_rtcp(old(self).master(), packet@) is None,
            },
    {
        decrypt_rtcp(&mut self.inbound, packet)
    }
}

/// Whether the header of an RTP packet cannot be read because the elements of its
/// extension run past the end of the packet.
pub fn has_overlong_elements(packet: &[u8]) -> (r: bool)
    ensures
        r == overlong_elements(packet@),
{
    let len: usize = packet.len();
    if len < 12 || (packet[0] / 16) % 2 == 0 {
        return false;
    }
    let start: usize = 16 + 4 * (packet[0] % 16) as usize;
    if len < start {
        return false;
    }
    let field = &packet[start - 2..start];
    proof {
        lemma_be_value_bound(field@);
        lemma_pow256_values();
        assert(field@ =~= packet@.subrange(start - 2, start as int));
    }
    let end: usize = start + 4 * read_be(field) as usize;
    if len < end {
        return false;
    }
    let form: ElementForm = if packet[start - 4] == 0xbe && packet[start - 3] == 0xde {
        ElementForm::OneByte
    } else if packet[start - 4] == 0x10 && packet[start - 3] == 0x00 {
        ElementForm::TwoByte
    } else {
        return false;
    };
    let mut at: usize = start;
    while at < end
        invariant_except_break
            start <= at <= len,
            end <= len,
            len == packet@.len(),
            start == sources_end(packet@) + 4,
            announced_header(packet@) == Some(end as int),
            element_form(packet@) == Some(form),
            elements_len(packet@, start as int, end as int, form) == (match elements_len(
                packet@,
                at as int,
                end as int,
                form,
            ) {
                Some(more) => Some(at - start + more),
                None => None,
            }),
        ensures
            start <= at <= len,
            elements_len(packet@, start as int, end as int, form) == Some(at - start),
        decreases len - at,
    {
        let b: u8 = packet[at];
        if b / 16 == 15 && form == ElementForm::OneByte {
            break;
        }
        let size: usize = if b == 0 {
            1
        } else if form == ElementForm::OneByte {
            2 + (b % 16) as usize
        } else if at + 1 >= len {
            return true;
        } else {
            2 + packet[at + 1] as usize
        };
        if size > len - at {
            return true;
        }
        at = at + size;
    }
    let partial: usize = if (at - start) % 4 == 0 {
        0
    } else {
        4 - (at - start) % 4
    };
    partial > len - at
}

// --- The audio clock ---

/// Calls `rand::random`. Nothing is promised of the number.
#[verifier::external_body]
fn random_number() -> (n: u16) {
    rand::random()
}

/// Rewrites 48 kHz Opus timestamps to the clock selected by HomeKit. The output
/// starts at a base of its own, which hides discontinuities in the source.
#[derive(Clone, Copy, Debug, PartialEq, Eq, Structural)]
pub struct TimestampRescaler {
    ratio: u32,
    base_in: Option<u32>,
    base_out: u32,
}

/// The mathematical value of a [`TimestampRescaler`].
pub ghost struct RescalerView {
    pub ratio: int,
    pub base_in: Option<u32>,
    pub base_out: u32,
}

/// The sum of two numbers modulo 2^32.
pub open spec fn sum32(a: int, b: int) -> u32 {
    ((a + b) % 0x1_0000_0000) as u32
}

/// The timestamp that the clock starts from, once `timestamp` has been seen.
pub open spec fn base_of(r: RescalerView, timestamp: u32) -> u32 {
    match r.base_in {
        Some(base) => base,
        None => timestamp,
    }
}

/// The rescaler once a timestamp has been seen.
pub open spec fn started(r: RescalerView, timestamp: u32) -> RescalerView {
    RescalerView { base_in: Some(base_of(r, timestamp)), ..r }
}

/// A timestamp on the output clock.
pub open spec fn rescaled(r: RescalerView, timestamp: u32) -> u32 {
    sum32(r.base_out as int, sum32(timestamp as int, -(base_of(r, timestamp) as int)) as int / r.ratio)
}

/// The timestamp at an offset of a packet.
pub open spec fn timestamp_at(packet: Seq<u8>, at: int) -> u32 {
    be_value(packet.subrange(at, at + 4)) as u32
}

/// A packet with another timestamp at an offset.
pub open spec fn with_timestamp(packet: Seq<u8>, at: int, timestamp: u32) -> Seq<u8> {
    packet.take(at) + be_bytes(timestamp as nat, 4) + packet.skip(at + 4)
}

/// An RTP packet on the output clock, and the rescaler after it.
pub open spec fn rescaled_rtp(r: RescalerView, packet: Seq<u8>) -> (RescalerView, Seq<u8>) {
    if packet.len() < 12 {
        (r, packet)
    } else {
        let t = timestamp_at(packet, 4);
        (started(r, t), with_timestamp(packet, 4, rescaled(r, t)))
    }
}

/// The length of the RTCP packet at an offset of a compound one.
pub open spec fn report_len(packet: Seq<u8>, at: int) -> int {
    4 * (be_value(packet.subrange(at + 2, at + 4)) as int + 1)
}

/// A compound RTCP packet on the output clock from an offset on, and the rescaler
/// after it: the timestamp of each sender report is rewritten. What follows a
/// packet that runs past the end stays.
pub open spec fn rescaled_rtcp(r: RescalerView, packet: Seq<u8>, at: int) -> (
    RescalerView,
    Seq<u8>,
)
    decreases packet.len() - at,
    via rescaled_rtcp_decreases
{
    if at < 0 || at + 4 > packet.len() || at + report_len(packet, at) > packet.len() {
        (r, packet)
    } else if packet[at + 1] == 200 && report_len(packet, at) >= 20 {
        let t = timestamp_at(packet, at + 16);
        rescaled_rtcp(
            started(r, t),
            with_timestamp(packet, at + 16, rescaled(r, t)),
            at + report_len(packet, at),
        )
    } else {
        rescaled_rtcp(r, packet, at + report_len(packet, at))
    }
}

#[via_fn]
proof fn rescaled_rtcp_decreases(r: RescalerView, packet: Seq<u8>, at: int) {
    if !(at < 0 || at + 4 > packet.len() || at + report_len(packet, at) > packet.len()) {
        if packet[at + 1] == 200 && report_len(packet, at) >= 20 {
            lemma_be_bytes_len(rescaled(r, timestamp_at(packet, at + 16)) as nat, 4);
        }
    }
}

impl View for TimestampRescaler {
    type V = RescalerView;

    closed spec fn view(&self) -> RescalerView {
        RescalerView {
            ratio: self.ratio as int,
            base_in: self.base_in,
            base_out: self.base_out,
        }
    }
}

impl TimestampRescaler {
    pub closed spec fn wf(&self) -> bool {
        self.ratio > 0
    }

    /// A rescaler that divides by `ratio`, with a random output base.
    pub fn new(ratio: u32) -> (r: Self)
        ensures
            r.wf(),
            r@.ratio == (if ratio == 0 {
                1
            } else {
                ratio as int
            }),
            r@.base_in is None,
            r@.base_out <= 0xffff,
    {
        TimestampRescaler::with_base(ratio, random_number())
    }

    /// A rescaler that divides by `ratio`, with an output base.
    pub fn with_base(ratio: u32, base: u16) -> (r: Self)
        ensures
            r.wf(),
            r@ == (RescalerView {
                ratio: if ratio == 0 {
                    1
                } else {
                    ratio as int
                },
                base_in: None,
                base_out: base as u32,
            }),
    {
        TimestampRescaler {
            ratio: if ratio == 0 {
                1
            } else {
                ratio
            },
            base_in: None,
            base_out: base as u32,
        }
    }

    /// A timestamp on the output clock.
    pub fn rescale_timestamp(&mut self, timestamp: u32) -> (t: u32)
        requires
            old(self).wf(),
        ensures
            final(self).wf(),
            final(self)@ == started(old(self)@, timestamp),
            t == rescaled(old(self)@, timestamp),
    {
        let base: u32 = match self.base_in {
            Some(base) => base,
            None => timestamp,
        };
        self.base_in = Some(base);
        let since: u64 = (timestamp as u64 + 0x1_0000_0000 - base as u64) % 0x1_0000_0000;
        let steps: u64 = since / (self.ratio as u64);
        proof {
            assert(since == sum32(timestamp as int, -(base as int)));
            assert(steps <= since) by (nonlinear_arith)
                requires
                    steps == since / (self.ratio as u64),
                    self.ratio > 0,
            ;
        }
        ((self.base_out as u64 + steps) % 0x1_0000_0000) as u32
    }

    /// Rewrites the timestamp of an RTP packet.
    pub fn rescale_rtp(&mut self, packet: &mut [u8])
        requires
            old(self).wf(),
        ensures
            final(self).wf(),
            (final(self)@, final(packet)@) == rescaled_rtp(old(self)@, old(packet)@),
    {
        if packet.len() < 12 {
            return;
        }
        self.rescale_at(packet, 4);
    }

    /// Rewrites the timestamp in each sender report of a compound RTCP packet, so
    /// that its clock agrees with the rewritten RTP packets.
    pub fn rescale_rtcp(&mut self, packet: &mut [u8])
        requires
            old(self).wf(),
        ensures
            final(self).wf(),
            (final(self)@, final(packet)@) == rescaled_rtcp(old(self)@, old(packet)@, 0),
    {
        let mut at: usize = 0;
        let len: usize = packet.len();
        while len - at >= 4
            invariant
                self.wf(),
                at <= len,
                packet@.len() == len,
                rescaled_rtcp(self@, packet@, at as int) == rescaled_rtcp(
                    old(self)@,
                    old(packet)@,
                    0,
                ),
            decreases len - at,
        {
            let field = &packet[at + 2..at + 4];
            assert(field@ =~= packet@.subrange(at + 2, at + 4));
            proof {
                lemma_be_value_bound(field@);
                lemma_pow256_values();
            }
            let length: usize = 4 * (read_be(field) as usize + 1);
            if length > len - at {
                return;
            }
            let ghost before = packet@;
            if packet[at + 1] == 200 && length >= 20 {
                self.rescale_at(packet, at + 16);
            }
            at = at + length;
        }
    }

    fn rescale_at(&mut self, packet: &mut [u8], at: usize)
        requires
            old(self).wf(),
            at + 4 <= old(packet)@.len(),
        ensures
            final(self).wf(),
            final(self)@ == started(old(self)@, timestamp_at(old(packet)@, at as int)),
            final(packet)@ == with_timestamp(
                old(packet)@,
                at as int,
                rescaled(old(self)@, timestamp_at(old(packet)@, at as int)),
            ),
            final(packet)@.len() == old(packet)@.len(),
    {
        let ghost before = packet@;
        let len: usize = packet.len();
        let field = &packet[at..at + 4];
        assert(field@ =~= before.subrange(at as int, at + 4));
        proof {
            lemma_be_value_bound(field@);
            lemma_pow256_values();
        }
        let timestamp: u32 = read_be(field) as u32;
        let scaled: u32 = self.rescale_timestamp(timestamp);
        let mut b: Vec<u8> = Vec::new();
        push_be(&mut b, scaled as u64, 4);
        proof {
            lemma_be_bytes_len(scaled as nat, 4);
            assert(b@ =~= be_bytes(scaled as nat, 4));
        }
        packet[at] = b[0];
        packet[at + 1] = b[1];
        packet[at + 2] = b[2];
        packet[at + 3] = b[3];
        assert(packet@ =~= with_timestamp(before, at as int, scaled));
    }
}

/// Rewriting an RTP packet changes its timestamp and nothing else.
pub proof fn law_only_the_timestamp_changes(r: RescalerView, packet: Seq<u8>, i: int)
    requires
        0 <= i < packet.len(),
        !(4 <= i < 8),
    ensures
        rescaled_rtp(r, packet).1.len() == packet.len(),
        rescaled_rtp(r, packet).1[i] == packet[i],
{
    if packet.len() >= 12 {
        lemma_be_bytes_len(rescaled(r, timestamp_at(packet, 4)) as nat, 4);
    }
}

/// The clocks of RTP packets and sender reports agree: once an RTP packet has been
/// rewritten, a sender report with a timestamp gets the one that an RTP packet with
/// that timestamp gets.
pub proof fn law_report_and_packet_clocks_agree(
    r: RescalerView,
    first: Seq<u8>,
    packet: Seq<u8>,
    report: Seq<u8>,
)
    requires
        first.len() >= 12,
        packet.len() >= 12,
        report.len() >= 20,
        report.len() == report_len(report, 0),
        report[1] == 200,
        timestamp_at(packet, 4) == timestamp_at(report, 16),
    ensures
        ({
            let running = rescaled_rtp(r, first).0;
            timestamp_at(rescaled_rtcp(running, report, 0).1, 16) == timestamp_at(
                rescaled_rtp(running, packet).1,
                4,
            )
        }),
{
    let running = rescaled_rtp(r, first).0;
    let t = timestamp_at(packet, 4);
    let scaled = rescaled(running, t);
    lemma_be_bytes_len(scaled as nat, 4);
    let rtp = with_timestamp(packet, 4, scaled);
    let rtcp = with_timestamp(report, 16, scaled);
    assert(rtp.subrange(4, 8) =~= be_bytes(scaled as nat, 4));
    assert(rtcp.subrange(16, 20) =~= be_bytes(scaled as nat, 4));
    assert(rescaled_rtcp(started(running, t), rtcp, report.len() as int) == (
        started(running, t),
        rtcp,
    ));
    assert(rescaled_rtcp(running, report, 0).1 == rtcp);
}

/// What stands in the timestamp is no matter for whether a packet's header can be
/// read.
pub proof fn lemma_timestamp_keeps_header(a: Seq<u8>, b: Seq<u8>)
    requires
        a.len() == b.len(),
        a.len() >= 12,
        forall|i: int| 0 <= i < a.len() && !(4 <= i < 8) ==> a[i] == b[i],
    ensures
        rtp_header_len(a) == rtp_header_len(b),
        overlong_elements(a) == overlong_elements(b),
{
    assert(a[0] == b[0]);
    let at = sources_end(a);
    if a.len() >= at + 4 {
        assert(a.subrange(at + 2, at + 4) =~= b.subrange(at + 2, at + 4));
        if let (Some(end), Some(form)) = (announced_header(a), element_form(a)) {
            lemma_same_elements(a, b, at + 4, end, form);
        }
    }
}

proof fn lemma_same_elements(a: Seq<u8>, b: Seq<u8>, at: int, end: int, form: ElementForm)
    requires
        a.len() == b.len(),
        12 <= at,
        end <= a.len(),
        forall|i: int| 12 <= i < a.len() ==> a[i] == b[i],
    ensures
        elements_len(a, at, end, form) == elements_len(b, at, end, form),
    decreases a.len() - at,
{
    if at < end {
        let size = if a[at] == 0 {
            1
        } else if form is OneByte {
            2 + a[at] % 16
        } else {
            2 + a[at + 1]
        };
        if at + size <= a.len() {
            lemma_same_elements(a, b, at + size, end, form);
        }
        if at + 1 < a.len() {
            assert(a[at + 1] == b[at + 1]);
        }
    }
}

/// The first timestamp becomes the base of the output clock, and from then on that clock
/// counts one step for every `ratio` steps of the source, across the end of the numbers
/// too; what is short of a step does not count.
pub proof fn law_the_clock_runs_slower(r: RescalerView, first: u32, steps: nat, part: nat)
    requires
        r.ratio > 0,
        part < r.ratio,
        steps * r.ratio + part < 0x1_0000_0000,
    ensures
        ({
            let start = match r.base_in {
                Some(base) => base,
                None => first,
            };
            let running = started(r, first);
            let later = ((start + steps * r.ratio + part) % 0x1_0000_0000) as u32;
            &&& r.base_in is None ==> rescaled(r, first) == r.base_out
            &&& running.base_in == Some(start) && running.ratio == r.ratio && running.base_out
                == r.base_out
            &&& rescaled(running, later) == (r.base_out + steps) % 0x1_0000_0000
        }),
{
    let start = match r.base_in {
        Some(base) => base,
        None => first,
    };
    let since = steps * r.ratio + part;
    let later = ((start + since) % 0x1_0000_0000) as u32;
    assert(0 <= steps * r.ratio) by (nonlinear_arith)
        requires
            r.ratio > 0,
            steps >= 0,
    ;
    assert(start + since == start + steps * r.ratio + part);
    assert(sum32(later as int, -(start as int)) == since);
    assert(since / r.ratio == steps) by (nonlinear_arith)
        requires
            since == steps * r.ratio + part,
            0 <= part < r.ratio,
    ;
    assert(0int / r.ratio == 0) by (nonlinear_arith)
        requires
            r.ratio > 0,
    ;
    assert(sum32(first as int, -(first as int)) == 0);
}

/// An RTP packet of twelve bytes or more has its timestamp in the bytes from the fifth to
/// the eighth, the highest first, before and after; a shorter packet stays as it is.
pub proof fn law_the_timestamp_has_its_place(r: RescalerView, packet: Seq<u8>)
    ensures
        packet.len() < 12 ==> rescaled_rtp(r, packet) == (r, packet),
        packet.len() >= 12 ==> ({
            let before = (0x100_0000 * packet[4] + 0x1_0000 * packet[5] + 0x100 * packet[6]
                + packet[7]) as u32;
            let (after, out) = rescaled_rtp(r, packet);
            &&& after == started(r, before)
            &&& out.len() == packet.len()
            &&& 0x100_0000 * out[4] + 0x1_0000 * out[5] + 0x100 * out[6] + out[7] == rescaled(
                r,
                before,
            )
        }),
{
    if packet.len() >= 12 {
        let before = (0x100_0000 * packet[4] + 0x1_0000 * packet[5] + 0x100 * packet[6] + packet[7])
            as u32;
        law_bytes_are_digits(0, packet[4], packet[5], packet[6], packet[7]);
        assert(packet.subrange(4, 8) =~= seq![packet[4], packet[5], packet[6], packet[7]]);
        assert(timestamp_at(packet, 4) == before);
        lemma_bytes_of(rescaled(r, before), packet, 4);
    }
}

proof fn lemma_bytes_of(timestamp: u32, packet: Seq<u8>, at: int)
    requires
        0 <= at,
        at + 4 <= packet.len(),
    ensures
        ({
            let out = with_timestamp(packet, at, timestamp);
            &&& out.len() == packet.len()
            &&& 0x100_0000 * out[at] + 0x1_0000 * out[at + 1] + 0x100 * out[at + 2] + out[at + 3]
                == timestamp
            &&& forall|i: int| 0 <= i < packet.len() && !(at <= i < at + 4) ==> #[trigger] out[i]
                == packet[i]
        }),
{
    let out = with_timestamp(packet, at, timestamp);
    let bytes = be_bytes(timestamp as nat, 4);
    lemma_be_bytes_len(timestamp as nat, 4);
    assert(out[at] == bytes[0] && out[at + 1] == bytes[1] && out[at + 2] == bytes[2] && out[at + 3]
        == bytes[3]);
    assert(bytes =~= seq![bytes[0], bytes[1], bytes[2], bytes[3]]);
    law_bytes_are_digits(0, bytes[0], bytes[1], bytes[2], bytes[3]);
    lemma_pow256_values();
    lemma_be_roundtrip(timestamp as nat, 4);
}

/// A sender report (type 200, with at least five words) has its timestamp in the bytes
/// from the seventeenth to the twentieth, and only those change. Any other report stays
/// as it is. A report has as many words behind its first as its third and fourth byte
/// say.
pub proof fn law_only_sender_reports_change(r: RescalerView, report: Seq<u8>)
    requires
        report.len() >= 4,
        report.len() == 4 * (256 * report[2] + report[3] + 1),
    ensures
        report[1] != 200 || report.len() < 20 ==> rescaled_rtcp(r, report, 0) == (r, report),
        report[1] == 200 && report.len() >= 20 ==> ({
            let before = (0x100_0000 * report[16] + 0x1_0000 * report[17] + 0x100 * report[18]
                + report[19]) as u32;
            let (after, out) = rescaled_rtcp(r, report, 0);
            &&& after == started(r, before)
            &&& out.len() == report.len()
            &&& 0x100_0000 * out[16] + 0x1_0000 * out[17] + 0x100 * out[18] + out[19] == rescaled(
                r,
                before,
            )
            &&& forall|i: int| 0 <= i < report.len() && !(16 <= i < 20) ==> #[trigger] out[i]
                == report[i]
        }),
{
    law_bytes_are_digits(0, report[2], report[3], 0, 0);
    assert(report.subrange(2, 4) =~= seq![report[2], report[3]]);
    assert(report_len(report, 0) == report.len());
    let end = report.len() as int;
    if report[1] == 200 && report.len() >= 20 {
        let before = (0x100_0000 * report[16] + 0x1_0000 * report[17] + 0x100 * report[18]
            + report[19]) as u32;
        law_bytes_are_digits(0, report[16], report[17], report[18], report[19]);
        assert(report.subrange(16, 20) =~= seq![report[16], report[17], report[18], report[19]]);
        assert(timestamp_at(report, 16) == before);
        lemma_bytes_of(rescaled(r, before), report, 16);
        let out = with_timestamp(report, 16, rescaled(r, before));
        assert(rescaled_rtcp(started(r, before), out, end) == (started(r, before), out));
    } else {
        assert(rescaled_rtcp(r, report, end) == (r, report));
    }
}

/// Elements of a header extension have the one-byte form where it is marked BE DE, and the
/// two-byte form where it is marked 10 00. The extension starts behind the fixed header of
/// twelve bytes and the contributing sources of four bytes each, if the header has one.
pub proof fn law_extensions_are_marked(packet: Seq<u8>)
    ensures
        ({
            let at = 12 + 4 * (packet[0] % 16);
            let extended = packet[0] / 16 % 2 == 1;
            &&& !extended ==> element_form(packet) is None
            &&& extended && packet[at] == 0xbe && packet[at + 1] == 0xde ==> element_form(packet)
                == Some(ElementForm::OneByte)
            &&& extended && packet[at] == 0x10 && packet[at + 1] == 0x00 ==> element_form(packet)
                == Some(ElementForm::TwoByte)
            &&& extended && !(packet[at] == 0xbe && packet[at + 1] == 0xde) && !(packet[at] == 0x10
                && packet[at + 1] == 0x00) ==> element_form(packet) is None
        }),
{
}

/// An element takes its own bytes: one for padding, two more than its length otherwise.
/// The elements of the one-byte form end at the id 15.
pub proof fn law_elements_take_their_bytes(packet: Seq<u8>, at: int, end: int, form: ElementForm)
    requires
        0 <= at < end <= packet.len(),
    ensures
        ({
            let size = if packet[at] == 0 {
                1int
            } else if form is OneByte {
                2 + packet[at] % 16
            } else {
                2 + packet[at + 1]
            };
            let here = elements_len(packet, at, end, form);
            let last = form is OneByte && packet[at] >= 0xf0;
            &&& last ==> here == Some(0int)
            &&& !last && at + size <= packet.len() && (packet[at] == 0 || form is OneByte || at + 1
                < packet.len()) ==> here == match elements_len(packet, at + size, end, form) {
                Some(more) => Some(size + more),
                None => None,
            }
            &&& !last && at + size > packet.len() && (form is OneByte || at + 1 < packet.len())
                ==> here is None
        }),
        elements_len(packet, end, end, form) == Some(0int),
{
}

/// The header of a packet is announced by its length fields: twelve bytes, four for each
/// contributing source, and the extension with its number of words. A packet that ends
/// before does not hold it.
pub proof fn law_the_header_is_announced(packet: Seq<u8>)
    ensures
        ({
            let at = 12 + 4 * (packet[0] % 16) as int;
            let extended = packet[0] / 16 % 2 == 1;
            let end = at + 4 + 4 * (256 * packet[at + 2] + packet[at + 3]);
            &&& !extended ==> announced_header(packet) == (if packet.len() >= at {
                Some(at)
            } else {
                None
            })
            &&& extended ==> announced_header(packet) == (if packet.len() >= at + 4 && packet.len()
                >= end {
                Some(end)
            } else {
                None
            })
        }),
{
    let at = 12 + 4 * (packet[0] % 16) as int;
    if packet.len() >= at + 4 {
        law_bytes_are_digits(0, packet[at + 2], packet[at + 3], 0, 0);
        assert(packet.subrange(at + 2, at + 4) =~= seq![packet[at + 2], packet[at + 3]]);
    }
}

/// Elements are overlong where a packet holds the header that it announces, and what its
/// elements make of that runs past the packet; without an extension nothing is.
pub proof fn law_which_elements_are_overlong(packet: Seq<u8>)
    ensures
        announced_header(packet) is None ==> !overlong_elements(packet),
        packet[0] / 16 % 2 == 0 ==> !overlong_elements(packet),
        announced_header(packet) is Some ==> match rtp_header_len(packet) {
            Some(n) => overlong_elements(packet) <==> n > packet.len(),
            None => overlong_elements(packet),
        },
{
}

} // verus!
