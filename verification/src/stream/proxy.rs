//! The way of packets between FFmpeg and a controller: plain RTP and RTCP become
//! SRTP and SRTCP on one port, and the controller's feedback goes back.

use vstd::prelude::*;
use crate::srtp::{has_overlong_elements, law_only_the_timestamp_changes, lemma_timestamp_keeps_header, overlong_elements, protected_rtcp, protected_rtp, rescaled_rtcp, rescaled_rtp, rtp_header_len, unprotected_rtcp, RescalerView, SrtpSession, TimestampRescaler};

verus! {

/// Whether FFmpeg's packet is an RTP packet that is passed on.
pub open spec fn passed_on(packet: Seq<u8>) -> bool {
    packet.len() >= 12 && packet[0] / 64 == 2
}

/// The packets of one stream, video or audio, on their way.
pub struct MediaProxy {
    srtp: SrtpSession,
    rescaler: TimestampRescaler,
}

impl MediaProxy {
    pub closed spec fn wf(&self) -> bool {
        self.srtp.wf() && self.rescaler.wf()
    }

    /// The key material: a 16-byte key and a 14-byte salt.
    pub closed spec fn master(&self) -> Seq<u8> {
        self.srtp.master()
    }

    /// The clock that the packets are sent on.
    pub closed spec fn clock(&self) -> RescalerView {
        self.rescaler@
    }

    /// The RTP packets protected so far.
    pub closed spec fn sent_rtp(&self) -> Seq<Seq<u8>> {
        self.srtp.sent_rtp()
    }

    /// The RTCP packets protected so far.
    pub closed spec fn sent_rtcp(&self) -> Seq<Seq<u8>> {
        self.srtp.sent_rtcp()
    }

    /// A proxy with the given key material, for a clock that runs slower by
    /// `ratio`; `None` where the key material has not 30 bytes.
    pub fn new(key: &[u8], ratio: u32) -> (p: Option<Self>)
        ensures
            p is Some <==> key@.len() == 30,
            p matches Some(p) ==> {
                &&& p.wf()
                &&& p.master() == key@
                &&& p.clock().ratio == (if ratio == 0 {
                    1
                } else {
                    ratio as int
                })
                &&& p.clock().base_in is None
                &&& p.clock().base_out <= 0xffff
                &&& p.sent_rtp() == Seq::<Seq<u8>>::empty()
                &&& p.sent_rtcp() == Seq::<Seq<u8>>::empty()
            },
    {
        match SrtpSession::new(key) {
            Some(srtp) => Some(MediaProxy { srtp, rescaler: TimestampRescaler::new(ratio) }),
            None => None,
        }
    }

    /// Whether a packet of FFmpeg's can be taken: it is dropped, or its header can be
    /// read.
    pub fn takes(packet: &[u8]) -> (r: bool)
        ensures
            r == (passed_on(packet@) ==> !overlong_elements(packet@)),
    {
        packet.len() < 12 || packet[0] / 64 != 2 || !has_overlong_elements(packet)
    }

    /// Takes FFmpeg's RTP packet; the result is what goes to the controller. The
    /// packet is left as it was protected, on the controller's clock.
    pub fn rtp(&mut self, packet: &mut [u8]) -> (r: Option<Vec<u8>>)
        requires
            old(self).wf(),
            passed_on(old(packet)@) ==> !overlong_elements(old(packet)@),
        ensures
            final(self).wf(),
            final(self).master() == old(self).master(),
            final(self).sent_rtcp() == old(self).sent_rtcp(),
            !passed_on(old(packet)@) ==> r is None && final(packet)@ == old(packet)@
                && final(self).clock() == old(self).clock() && final(self).sent_rtp() == old(
                self,
            ).sent_rtp(),
            passed_on(old(packet)@) ==> {
                &&& (final(self).clock(), final(packet)@) == rescaled_rtp(
                    old(self).clock(),
                    old(packet)@,
                )
                &&& final(self).sent_rtp() == old(self).sent_rtp().push(final(packet)@)
                &&& match r {
                    Some(out) => protected_rtp(
                        old(self).master(),
                        old(self).sent_rtp(),
                        final(packet)@,
                    ) == Some(out@),
                    None => protected_rtp(
                        old(self).master(),
                        old(self).sent_rtp(),
                        final(packet)@,
                    ) is None && (old(self).sent_rtp().len() < 0x1_0000_0000 ==> rtp_header_len(
                        final(packet)@,
                    ) is None),
                }
            },
    {
        if packet.len() < 12 || packet[0] / 64 != 2 {
            return None;
        }
        let ghost before = packet@;
        let ghost clock = self.rescaler@;
        self.rescaler.rescale_rtp(packet);
        proof {
            assert forall|i: int| 0 <= i < before.len() && !(4 <= i < 8) implies packet@.len()
                == before.len() && packet@[i] == before[i] by {
                law_only_the_timestamp_changes(clock, before, i);
            }
            assert(packet@.len() == before.len() && packet@[0] == before[0]);
            lemma_timestamp_keeps_header(before, packet@);
        }
        self.srtp.protect_rtp(packet)
    }

    /// Takes FFmpeg's RTCP packet; the result is what goes to the controller.
    pub fn rtcp(&mut self, packet: &mut [u8]) -> (r: Option<Vec<u8>>)
        requires
            old(self).wf(),
        ensures
            final(self).wf(),
            final(self).master() == old(self).master(),
            final(self).sent_rtp() == old(self).sent_rtp(),
            (final(self).clock(), final(packet)@) == rescaled_rtcp(
                old(self).clock(),
                old(packet)@,
                0,
            ),
            final(self).sent_rtcp() == old(self).sent_rtcp().push(final(packet)@),
            (r is Some) == (final(packet)@.len() >= 8 && final(packet)@[0] / 64 == 2),
            r matches Some(out) ==> protected_rtcp(
                old(self).master(),
                old(self).sent_rtcp(),
                final(packet)@,
            ) == Some(out@) && unprotected_rtcp(old(self).master(), out@) == Some(final(packet)@),
    {
        self.rescaler.rescale_rtcp(packet);
        self.srtp.protect_rtcp(packet)
    }

    /// Takes the controller's feedback; the result is what goes to FFmpeg.
    pub fn feedback(&mut self, packet: &[u8]) -> (r: Option<Vec<u8>>)
        requires
            old(self).wf(),
            packet@.len() >= 14,
        ensures
            final(self).wf(),
            final(self).master() == old(self).master(),
            final(self).clock() == old(self).clock(),
            final(self).sent_rtp() == old(self).sent_rtp(),
            final(self).sent_rtcp() == old(self).sent_rtcp(),
            unprotected_rtcp(old(self).master(), packet@) == match r {
                Some(out) => Some(out@),
                None => None,
            },
    {
        self.srtp.unprotect_rtcp(packet)
    }
}

/// A packet is passed on where it holds at least the fixed header of twelve bytes, of
/// version 2.
pub proof fn law_only_rtp_is_passed_on(packet: Seq<u8>)
    ensures
        passed_on(packet) <==> packet.len() >= 12 && 0x80 <= packet[0] <= 0xbf,
{
}

} // verus!
