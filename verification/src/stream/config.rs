//! What live streams are offered.

use vstd::prelude::*;
use crate::hsv::recording::{inside, lemma_delimited_at, mode_bytes, mode_items, mode_values};
use crate::stream::selection::live_sample_rate;
use crate::tlv8::{delimited, encoded, first_value, law_parse_inverts_write, lemma_ascending_reads_back, lemma_different_neighbours, lemma_encoded_push, parsed, ItemView, Writer};

verus! {

/// The resolutions of live video, each with 30 frames per second, up to 720p.
pub const LIVE_MODES: [(u16, u16, u8); 4] = [
    (1280, 720, 30),
    (640, 360, 30),
    (480, 270, 30),
    (320, 240, 30),
];

/// The H.264 profiles (constrained baseline, main, high), levels (3.1, 3.2, 4.0)
/// and the packetization (non-interleaved) of live video.
pub open spec fn live_h264() -> Seq<ItemView> {
    seq![(0x01u8, seq![0u8])].push((0u8, Seq::empty())).push((0x01u8, seq![1u8])).push(
        (0u8, Seq::empty()),
    ).push((0x01u8, seq![2u8])).push((0x02u8, seq![0u8])).push((0u8, Seq::empty())).push(
        (0x02u8, seq![1u8]),
    ).push((0u8, Seq::empty())).push((0x02u8, seq![2u8])).push((0x03u8, seq![0u8]))
}

/// The codec of live video, H.264, and its resolutions.
pub open spec fn live_video_codec() -> Seq<ItemView> {
    seq![(0x01u8, seq![0u8])].push((0x02u8, encoded(live_h264()))) + delimited(
        0x03,
        mode_values(LIVE_MODES@),
    )
}

/// SupportedVideoStreamConfiguration.
pub fn supported_video_config() -> (out: Vec<u8>)
    ensures
        out@ == encoded(seq![(0x01u8, encoded(live_video_codec()))]),
{
    broadcast use lemma_encoded_push;

    let mut params = Writer::new();
    params.u8(0x01, 0x00);
    params.delimiter();
    params.u8(0x01, 0x01);
    params.delimiter();
    params.u8(0x01, 0x02);
    params.u8(0x02, 0x00);
    params.delimiter();
    params.u8(0x02, 0x01);
    params.delimiter();
    params.u8(0x02, 0x02);
    params.u8(0x03, 0x00);
    let params = params.build();
    let mut codec = Writer::new();
    codec.u8(0x01, 0x00);
    codec.bytes(0x02, &params);
    let ghost base: Seq<ItemView> = seq![(0x01u8, seq![0u8])].push((0x02u8, encoded(live_h264())));
    let modes = LIVE_MODES;
    let ghost values = mode_values(modes@);
    let mut i: usize = 0;
    assert(base + delimited(0x03, values.take(0)) =~= base);
    while i < 4
        invariant
            i <= 4,
            modes@.len() == 4,
            values == mode_values(modes@),
            codec@ == encoded(base + delimited(0x03, values.take(i as int))),
        decreases 4 - i,
    {
        let ghost so_far = base + delimited(0x03, values.take(i as int));
        if i > 0 {
            codec.delimiter();
        }
        let attr = mode_bytes(&modes[i]);
        codec.bytes(0x03, &attr);
        proof {
            let next = values.take(i + 1);
            assert(next.drop_last() =~= values.take(i as int));
            assert(next.last() == attr@);
            if i == 0 {
                assert(next[0] == attr@);
                assert(base + delimited(0x03, next) =~= so_far.push((0x03u8, attr@)));
                lemma_encoded_push(so_far, (0x03u8, attr@));
            } else {
                assert(base + delimited(0x03, next) =~= so_far.push((0u8, Seq::empty())).push(
                    (0x03u8, attr@),
                ));
                lemma_encoded_push(so_far, (0u8, Seq::empty()));
                lemma_encoded_push(so_far.push((0u8, Seq::empty())), (0x03u8, attr@));
            }
        }
        i = i + 1;
    }
    assert(values.take(4) =~= values);
    let codec = codec.build();
    let mut w = Writer::new();
    w.bytes(0x01, &codec);
    w.build()
}

/// The codec of live audio: Opus, mono, variable bitrate, 16 kHz.
pub open spec fn live_audio_codec() -> Seq<ItemView> {
    seq![(0x01u8, seq![3u8])].push(
        (
            0x02u8,
            encoded(
                seq![(0x01u8, seq![1u8])].push((0x02u8, seq![0u8])).push((0x03u8, seq![1u8])),
            ),
        ),
    )
}

/// SupportedAudioStreamConfiguration; comfort noise is not supported.
pub fn supported_audio_config() -> (out: Vec<u8>)
    ensures
        out@ == encoded(
            seq![(0x01u8, encoded(live_audio_codec()))].push((0x02u8, seq![0u8])),
        ),
{
    broadcast use lemma_encoded_push;

    let mut params = Writer::new();
    params.u8(0x01, 1);
    params.u8(0x02, 0x00);
    params.u8(0x03, 0x01);
    let params = params.build();
    let mut codec = Writer::new();
    codec.u8(0x01, 0x03);
    codec.bytes(0x02, &params);
    let codec = codec.build();
    let mut w = Writer::new();
    w.bytes(0x01, &codec);
    w.u8(0x02, 0x00);
    w.build()
}

/// SupportedRTPConfiguration: SRTP with AES_CM_128_HMAC_SHA1_80.
pub fn supported_rtp_config() -> (out: Vec<u8>)
    ensures
        out@ == encoded(seq![(0x02u8, seq![0u8])]),
{
    broadcast use lemma_encoded_push;

    let mut w = Writer::new();
    w.u8(0x02, 0x00);
    w.build()
}

/// Live video is offered up to 720p, in four sizes and always at 30 frames per second.
pub proof fn law_live_video_has_four_sizes(i: int)
    requires
        0 <= i < LIVE_MODES@.len(),
    ensures
        LIVE_MODES@.len() == 4,
        LIVE_MODES@[i].2 == 30,
        i == 0 ==> LIVE_MODES@[i].0 == 1280 && LIVE_MODES@[i].1 == 720,
        i == 1 ==> LIVE_MODES@[i].0 == 640 && LIVE_MODES@[i].1 == 360,
        i == 2 ==> LIVE_MODES@[i].0 == 480 && LIVE_MODES@[i].1 == 270,
        i == 3 ==> LIVE_MODES@[i].0 == 320 && LIVE_MODES@[i].1 == 240,
{
    assert(i == 0 || i == 1 || i == 2 || i == 3);
}

/// The offer of live video is H.264 with its parameters and every size, in their order
/// and with a delimiter between them.
pub proof fn law_every_live_size_is_offered(i: int)
    requires
        0 <= i < 4,
    ensures
        ({
            let codec = live_video_codec();
            &&& codec.len() == 9
            &&& codec[0] == (1u8, seq![0u8])
            &&& codec[1] == (2u8, encoded(live_h264()))
            &&& codec[2 + 2 * i] == (3u8, encoded(mode_items(LIVE_MODES@[i])))
            &&& i > 0 ==> codec[1 + 2 * i] == (0u8, Seq::<u8>::empty())
        }),
{
    lemma_delimited_at(0x03, mode_values(LIVE_MODES@), i);
}

/// Of H.264 the profiles and the levels from 0 to 2 are offered, and no others, with
/// packetization mode 0.
pub proof fn law_live_profiles_and_levels(n: u8)
    ensures
        ({
            let items = live_h264();
            &&& n <= 2 <==> exists|i: int| 0 <= i < items.len() && #[trigger] items[i] == (
                1u8,
                seq![n],
            )
            &&& n <= 2 <==> exists|i: int| 0 <= i < items.len() && #[trigger] items[i] == (
                2u8,
                seq![n],
            )
            &&& n == 0 <==> exists|i: int| 0 <= i < items.len() && #[trigger] items[i] == (
                3u8,
                seq![n],
            )
            &&& parsed(encoded(items)) == items
        }),
{
    let items = live_h264();
    assert(items.len() == 11);
    assert(items[0] == (1u8, seq![0u8]) && items[2] == (1u8, seq![1u8]) && items[4] == (
        1u8,
        seq![2u8],
    ));
    assert(items[5] == (2u8, seq![0u8]) && items[7] == (2u8, seq![1u8]) && items[9] == (
        2u8,
        seq![2u8],
    ));
    assert(items[10] == (3u8, seq![0u8]));
    assert(items[1].0 == 0 && items[3].0 == 0 && items[6].0 == 0 && items[8].0 == 0);
    lemma_different_neighbours(items);
    law_parse_inverts_write(items);
    assert(seq![n][0] == n);
    assert(seq![0u8][0] == 0 && seq![1u8][0] == 1 && seq![2u8][0] == 2);
    if n == 0 {
        assert(items[0] == (1u8, seq![n]) && items[5] == (2u8, seq![n]) && items[10] == (
            3u8,
            seq![n],
        ));
    } else if n == 1 {
        assert(items[2] == (1u8, seq![n]) && items[7] == (2u8, seq![n]));
    } else if n == 2 {
        assert(items[4] == (1u8, seq![n]) && items[9] == (2u8, seq![n]));
    }
    assert forall|i: int| 0 <= i < items.len() implies ((#[trigger] items[i]).0 >= 1
        ==> items[i].1[0] <= 2) && (items[i].0 == 3 ==> items[i].1[0] == 0) by {
        assert(i == 0 || i == 1 || i == 2 || i == 3 || i == 4 || i == 5 || i == 6 || i == 7 || i
            == 8 || i == 9 || i == 10);
    }
}

/// Live audio is offered as Opus, mono, with a variable bitrate, and at 16 kHz alone.
pub proof fn law_live_audio_is_opus(code: u8)
    ensures
        ({
            let codec = parsed(encoded(live_audio_codec()));
            let params = inside(codec, 2);
            &&& first_value(codec, 1) == Some(seq![3u8])
            &&& first_value(params, 1) == Some(seq![1u8])
            &&& first_value(params, 2) == Some(seq![0u8])
            &&& live_sample_rate(Some(code)) == 16000 && code == 1 <==> first_value(params, 3)
                == Some(seq![code])
        }),
{
    let codec = live_audio_codec();
    let params: Seq<ItemView> = seq![(0x01u8, seq![1u8])].push((0x02u8, seq![0u8])).push(
        (0x03u8, seq![1u8]),
    );
    lemma_ascending_reads_back(codec);
    lemma_ascending_reads_back(params);
    assert(codec[0].0 == 1 && codec[1].0 == 2);
    assert(params[0].0 == 1 && params[1].0 == 2 && params[2].0 == 3);
    assert(seq![code][0] == code && seq![1u8][0] == 1);
}

} // verus!
