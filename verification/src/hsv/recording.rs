//! The recording state of HomeKit Secure Video: which recordings are offered,
//! which was selected, what is kept of it, and how the camera's main stream has
//! to be set so that recordings are copied without being encoded again.

use base64::Engine;
use vstd::prelude::*;
use vstd::string::*;
use crate::hsv::fmp4::{RecorderConfig, RecorderConfigView};
use crate::setup::{fnv1a, md5_like_hash};
use crate::text::{decimal, push_decimal};
use crate::tlv8::{delimited, encoded, find, find_u16, find_u8, first_value, item_views, law_parse_inverts_write, lemma_ascending_reads_back, lemma_different_neighbours, lemma_encoded_push, parse, parsed, Item, ItemView, Writer};
use crate::wire::{law_bytes_are_digits, le_bytes, le_value, lemma_le_bytes_len, lemma_le_roundtrip, lemma_le_value_bound, lemma_pow256_le, lemma_pow256_values, push_le, read_le, to_vec};

verus! {

pub const PREBUFFER_MS: u32 = 4000;

pub const FRAGMENT_MS: u32 = 4000;

/// The container that is offered: fragmented MP4.
pub open spec fn supported_container() -> Seq<ItemView> {
    seq![(0x01u8, seq![0u8])].push(
        (0x02u8, encoded(seq![(0x01u8, le_bytes(FRAGMENT_MS as nat, 4))])),
    )
}

/// What SupportedCameraRecordingConfiguration holds: the prebuffer, the event
/// triggers (motion) and the container.
pub open spec fn supported_camera_recording() -> Seq<ItemView> {
    seq![(0x01u8, le_bytes(PREBUFFER_MS as nat, 4))].push((0x02u8, le_bytes(1, 8))).push(
        (0x03u8, encoded(supported_container())),
    )
}

pub fn supported_camera_recording_config() -> (out: Vec<u8>)
    ensures
        out@ == encoded(supported_camera_recording()),
{
    broadcast use lemma_encoded_push;

    let mut container_params = Writer::new();
    container_params.u32(0x01, FRAGMENT_MS);
    let container_params = container_params.build();
    let mut container = Writer::new();
    container.u8(0x01, 0);
    container.bytes(0x02, &container_params);
    let container = container.build();
    let mut triggers: Vec<u8> = Vec::new();
    push_le(&mut triggers, 1, 8);
    assert(triggers@ =~= le_bytes(1, 8));
    let mut w = Writer::new();
    w.u32(0x01, PREBUFFER_MS);
    w.bytes(0x02, &triggers);
    w.bytes(0x03, &container);
    w.build()
}

/// The recording modes that the camera's main stream can be set to: width, height
/// and frames per second.
pub const RECORDING_ATTRIBUTES: [(u16, u16, u8); 4] = [
    (1280, 720, 15),
    (1920, 1080, 15),
    (2688, 1520, 15),
    (3840, 2160, 15),
];

/// The H.264 profiles and levels that are offered.
pub open spec fn supported_h264() -> Seq<ItemView> {
    seq![(0x01u8, seq![0u8])].push((0u8, Seq::empty())).push((0x01u8, seq![1u8])).push(
        (0u8, Seq::empty()),
    ).push((0x01u8, seq![2u8])).push((0x02u8, seq![0u8])).push((0u8, Seq::empty())).push(
        (0x02u8, seq![1u8]),
    ).push((0u8, Seq::empty())).push((0x02u8, seq![2u8]))
}

/// One recording mode.
pub open spec fn mode_items(mode: (u16, u16, u8)) -> Seq<ItemView> {
    seq![(0x01u8, le_bytes(mode.0 as nat, 2))].push((0x02u8, le_bytes(mode.1 as nat, 2))).push(
        (0x03u8, seq![mode.2]),
    )
}

pub open spec fn mode_values(modes: Seq<(u16, u16, u8)>) -> Seq<Seq<u8>> {
    modes.map_values(|mode: (u16, u16, u8)| encoded(mode_items(mode)))
}

/// The video codec that is offered, with its recording modes.
pub open spec fn supported_video_codec(modes: Seq<(u16, u16, u8)>) -> Seq<ItemView> {
    seq![(0x01u8, seq![0u8])].push((0x02u8, encoded(supported_h264()))) + delimited(
        0x03,
        mode_values(modes),
    )
}

/// What SupportedVideoRecordingConfiguration holds.
pub open spec fn supported_video_recording(modes: Seq<(u16, u16, u8)>) -> Seq<ItemView> {
    seq![(0x01u8, encoded(supported_video_codec(modes)))]
}

/// The bytes of one recording mode.
pub fn mode_bytes(mode: &(u16, u16, u8)) -> (out: Vec<u8>)
    ensures
        out@ == encoded(mode_items(*mode)),
{
    broadcast use lemma_encoded_push;

    let mut w = Writer::new();
    w.u16(0x01, mode.0);
    w.u16(0x02, mode.1);
    w.u8(0x03, mode.2);
    w.build()
}

/// The video recording configuration that offers the given modes.
pub fn video_recording_config(modes: &[(u16, u16, u8)]) -> (out: Vec<u8>)
    ensures
        out@ == encoded(supported_video_recording(modes@)),
{
    broadcast use lemma_encoded_push;

    let mut params = Writer::new();
    params.u8(0x01, 0x00);
    params.delimiter();
    params.u8(0x01, 0x01);
    params.delimiter();
    params.u8(0x01, 0x02);
    params.u8(0x02, 0x00);
    params.delimiter();
    params.u8(0x02, 0x01);
    params.delimiter();
    params.u8(0x02, 0x02);
    let params = params.build();
    let mut codec = Writer::new();
    codec.u8(0x01, 0x00);
    codec.bytes(0x02, &params);
    let ghost base: Seq<ItemView> = seq![(0x01u8, seq![0u8])].push((0x02u8, encoded(supported_h264())));
    let ghost values = mode_values(modes@);
    let mut i: usize = 0;
    assert(base + delimited(0x03, values.take(0)) =~= base);
    while i < modes.len()
        invariant
            i <= modes@.len(),
            values == mode_values(modes@),
            codec@ == encoded(base + delimited(0x03, values.take(i as int))),
        decreases modes@.len() - i,
    {
        let ghost so_far = base + delimited(0x03, values.take(i as int));
        if i > 0 {
            codec.delimiter();
        }
        let attr = mode_bytes(&modes[i]);
        codec.bytes(0x03, &attr);
        proof {
            let next = values.take(i + 1);
            assert(next.drop_last() =~= values.take(i as int));
            assert(next.last() == attr@);
            if i == 0 {
                assert(next[0] == attr@);
                assert(base + delimited(0x03, next) =~= so_far.push((0x03u8, attr@)));
                lemma_encoded_push(so_far, (0x03u8, attr@));
            } else {
                assert(base + delimited(0x03, next) =~= so_far.push((0u8, Seq::empty())).push(
                    (0x03u8, attr@),
                ));
                lemma_encoded_push(so_far, (0u8, Seq::empty()));
                lemma_encoded_push(so_far.push((0u8, Seq::empty())), (0x03u8, attr@));
            }
        }
        i = i + 1;
    }
    assert(values.take(i as int) =~= values);
    let codec = codec.build();
    let mut w = Writer::new();
    w.bytes(0x01, &codec);
    w.build()
}

/// The video recording configuration that offers every mode.
pub fn supported_video_recording_config() -> (out: Vec<u8>)
    ensures
        out@ == encoded(supported_video_recording(RECORDING_ATTRIBUTES@)),
{
    video_recording_config(RECORDING_ATTRIBUTES.as_slice())
}

/// The audio parameters that are offered: mono, variable bitrate, 32 or 48 kHz.
pub open spec fn supported_aac() -> Seq<ItemView> {
    seq![(0x01u8, seq![1u8])].push((0x02u8, seq![0u8])).push((0x03u8, seq![3u8])).push(
        (0u8, Seq::empty()),
    ).push((0x03u8, seq![5u8]))
}

/// What SupportedAudioRecordingConfiguration holds: AAC-LC.
pub open spec fn supported_audio_recording() -> Seq<ItemView> {
    seq![
        (
            0x01u8,
            encoded(seq![(0x01u8, seq![0u8])].push((0x02u8, encoded(supported_aac())))),
        ),
    ]
}

pub fn supported_audio_recording_config() -> (out: Vec<u8>)
    ensures
        out@ == encoded(supported_audio_recording()),
{
    broadcast use lemma_encoded_push;

    let mut params = Writer::new();
    params.u8(0x01, 1);
    params.u8(0x02, 0);
    params.u8(0x03, 3);
    params.delimiter();
    params.u8(0x03, 5);
    let params = params.build();
    let mut codec = Writer::new();
    codec.u8(0x01, 0);
    codec.bytes(0x02, &params);
    let codec = codec.build();
    let mut w = Writer::new();
    w.bytes(0x01, &codec);
    w.build()
}

/// The hash of everything that is offered. A selection holds only as long as it
/// stays the same.
pub fn supported_hash(modes: &[(u16, u16, u8)]) -> (hash: u64)
    ensures
        hash == fnv1a(
            encoded(supported_camera_recording()) + encoded(supported_video_recording(modes@))
                + encoded(supported_audio_recording()),
        ),
{
    let mut all = supported_camera_recording_config();
    let mut video = video_recording_config(modes);
    let mut audio = supported_audio_recording_config();
    all.append(&mut video);
    all.append(&mut audio);
    md5_like_hash(all.as_slice())
}

// --- Selected configuration ---

/// The parsed SelectedCameraRecordingConfiguration.
#[derive(Debug)]
pub struct SelectedConfig {
    pub raw: Vec<u8>,
    pub prebuffer_ms: u32,
    pub fragment_ms: u32,
    pub width: u16,
    pub height: u16,
    pub fps: u8,
    pub video_bitrate_kbps: u32,
    pub iframe_interval_ms: u32,
    pub audio_channels: u8,
    pub audio_sample_rate: u8,
    pub audio_bitrate_kbps: u32,
}

/// The mathematical value of a selected configuration.
pub ghost struct SelectedView {
    pub raw: Seq<u8>,
    pub prebuffer_ms: nat,
    pub fragment_ms: nat,
    pub width: nat,
    pub height: nat,
    pub fps: nat,
    pub video_bitrate_kbps: nat,
    pub iframe_interval_ms: nat,
    pub audio_channels: nat,
    pub audio_sample_rate: nat,
    pub audio_bitrate_kbps: nat,
}

impl View for SelectedConfig {
    type V = SelectedView;

    open spec fn view(&self) -> SelectedView {
        SelectedView {
            raw: self.raw@,
            prebuffer_ms: self.prebuffer_ms as nat,
            fragment_ms: self.fragment_ms as nat,
            width: self.width as nat,
            height: self.height as nat,
            fps: self.fps as nat,
            video_bitrate_kbps: self.video_bitrate_kbps as nat,
            iframe_interval_ms: self.iframe_interval_ms as nat,
            audio_channels: self.audio_channels as nat,
            audio_sample_rate: self.audio_sample_rate as nat,
            audio_bitrate_kbps: self.audio_bitrate_kbps as nat,
        }
    }
}

impl Clone for SelectedConfig {
    fn clone(&self) -> (r: Self)
        ensures
            r@ == self@,
    {
        SelectedConfig {
            raw: to_vec(self.raw.as_slice()),
            prebuffer_ms: self.prebuffer_ms,
            fragment_ms: self.fragment_ms,
            width: self.width,
            height: self.height,
            fps: self.fps,
            video_bitrate_kbps: self.video_bitrate_kbps,
            iframe_interval_ms: self.iframe_interval_ms,
            audio_channels: self.audio_channels,
            audio_sample_rate: self.audio_sample_rate,
            audio_bitrate_kbps: self.audio_bitrate_kbps,
        }
    }
}

/// The items inside the first item with tag `tag`; none where there is no such
/// item.
pub open spec fn inside(items: Seq<ItemView>, tag: u8) -> Seq<ItemView> {
    match first_value(items, tag) {
        Some(v) => parsed(v),
        None => Seq::empty(),
    }
}

/// The first four bytes of a value, fewer where it is shorter.
pub open spec fn first_four(v: Seq<u8>) -> Seq<u8> {
    if v.len() <= 4 {
        v
    } else {
        v.take(4)
    }
}

/// The little-endian number in the first item with tag `tag`.
pub open spec fn number(items: Seq<ItemView>, tag: u8, default: nat) -> nat {
    match first_value(items, tag) {
        Some(v) => le_value(first_four(v)),
        None => default,
    }
}

/// The two-byte number in the first item with tag `tag`.
pub open spec fn short_number(items: Seq<ItemView>, tag: u8, default: nat) -> nat {
    match first_value(items, tag) {
        Some(v) if v.len() == 2 => le_value(v),
        _ => default,
    }
}

/// The first byte of the first item with tag `tag`.
pub open spec fn byte(items: Seq<ItemView>, tag: u8, default: nat) -> nat {
    match first_value(items, tag) {
        Some(v) if v.len() > 0 => v[0] as nat,
        _ => default,
    }
}

/// What a selected configuration says. The general part and the video part have to
/// be there; everything else has a default.
pub open spec fn parsed_selected(raw: Seq<u8>) -> Option<SelectedView> {
    let items = parsed(raw);
    if first_value(items, 0x01) is None || first_value(items, 0x02) is None {
        None
    } else {
        let general = inside(items, 0x01);
        let container_params = inside(inside(general, 0x03), 0x02);
        let fragment_ms = number(container_params, 0x01, FRAGMENT_MS as nat);
        let video = inside(items, 0x02);
        let video_params = inside(video, 0x02);
        let attributes = inside(video, 0x03);
        let audio_params = inside(inside(inside(items, 0x03), 0x01), 0x02);
        Some(
            SelectedView {
                raw,
                prebuffer_ms: number(general, 0x01, PREBUFFER_MS as nat),
                fragment_ms,
                width: short_number(attributes, 0x01, 1920),
                height: short_number(attributes, 0x02, 1080),
                fps: byte(attributes, 0x03, 15),
                video_bitrate_kbps: number(video_params, 0x03, 2000),
                iframe_interval_ms: number(video_params, 0x04, fragment_ms),
                audio_channels: byte(audio_params, 0x01, 1),
                audio_sample_rate: byte(audio_params, 0x03, 5),
                audio_bitrate_kbps: number(audio_params, 0x04, 64),
            },
        )
    }
}

/// The items inside the first item with tag `tag`.
pub fn items_inside(items: &[Item], tag: u8) -> (r: Vec<Item>)
    ensures
        item_views(r@) == inside(item_views(items@), tag),
{
    match find(items, tag) {
        Some(v) => parse(v),
        None => {
            let r: Vec<Item> = Vec::new();
            assert(item_views(r@) =~= Seq::empty());
            r
        },
    }
}

fn read_u32(items: &[Item], tag: u8) -> (r: Option<u32>)
    ensures
        match first_value(item_views(items@), tag) {
            Some(v) => r is Some && r->0 == le_value(first_four(v)),
            None => r is None,
        },
{
    match find(items, tag) {
        Some(v) => {
            let n: usize = if v.len() <= 4 {
                v.len()
            } else {
                4
            };
            proof {
                assert(v@.subrange(0, n as int) =~= first_four(v@));
                lemma_le_value_bound(first_four(v@));
                lemma_pow256_le(n as nat, 4);
                lemma_pow256_values();
            }
            Some(read_le(&v[0..n]) as u32)
        },
        None => None,
    }
}

/// Parses a SelectedCameraRecordingConfiguration.
pub fn parse_selected(raw: &[u8]) -> (r: Option<SelectedConfig>)
    ensures
        match r {
            Some(config) => parsed_selected(raw@) == Some(config@),
            None => parsed_selected(raw@) is None,
        },
{
    let items = parse(raw);
    if find(&items, 0x01).is_none() || find(&items, 0x02).is_none() {
        return None;
    }
    let general = items_inside(&items, 0x01);
    let prebuffer_ms: u32 = match read_u32(&general, 0x01) {
        Some(n) => n,
        None => PREBUFFER_MS,
    };
    let container = items_inside(&general, 0x03);
    let container_params = items_inside(&container, 0x02);
    let fragment_ms: u32 = match read_u32(&container_params, 0x01) {
        Some(n) => n,
        None => FRAGMENT_MS,
    };
    let video = items_inside(&items, 0x02);
    let video_params = items_inside(&video, 0x02);
    let video_bitrate_kbps: u32 = match read_u32(&video_params, 0x03) {
        Some(n) => n,
        None => 2000,
    };
    let iframe_interval_ms: u32 = match read_u32(&video_params, 0x04) {
        Some(n) => n,
        None => fragment_ms,
    };
    let attributes = items_inside(&video, 0x03);
    let width: u16 = match find_u16(&attributes, 0x01) {
        Some(n) => n,
        None => 1920,
    };
    let height: u16 = match find_u16(&attributes, 0x02) {
        Some(n) => n,
        None => 1080,
    };
    let fps: u8 = match find_u8(&attributes, 0x03) {
        Some(n) => n,
        None => 15,
    };
    let audio = items_inside(&items, 0x03);
    let audio_config = items_inside(&audio, 0x01);
    let audio_params = items_inside(&audio_config, 0x02);
    let audio_channels: u8 = match find_u8(&audio_params, 0x01) {
        Some(n) => n,
        None => 1,
    };
    let audio_sample_rate: u8 = match find_u8(&audio_params, 0x03) {
        Some(n) => n,
        None => 5,
    };
    let audio_bitrate_kbps: u32 = match read_u32(&audio_params, 0x04) {
        Some(n) => n,
        None => 64,
    };
    Some(
        SelectedConfig {
            raw: to_vec(raw),
            prebuffer_ms,
            fragment_ms,
            width,
            height,
            fps,
            video_bitrate_kbps,
            iframe_interval_ms,
            audio_channels,
            audio_sample_rate,
            audio_bitrate_kbps,
        },
    )
}

proof fn lemma_four_bytes_read_back(n: nat)
    requires
        n <= u32::MAX,
    ensures
        le_value(first_four(le_bytes(n, 4))) == n,
{
    lemma_pow256_values();
    lemma_le_bytes_len(n, 4);
    lemma_le_roundtrip(n, 4);
}

/// The general part of a selected configuration, as a controller writes it.
pub open spec fn selected_general(v: SelectedView) -> Seq<ItemView> {
    seq![(0x01u8, le_bytes(v.prebuffer_ms, 4))].push((0x02u8, le_bytes(1, 8))).push(
        (0x03u8, encoded(selected_container(v))),
    )
}

pub open spec fn selected_container(v: SelectedView) -> Seq<ItemView> {
    seq![(0x01u8, seq![0u8])].push((0x02u8, encoded(seq![(0x01u8, le_bytes(v.fragment_ms, 4))])))
}

/// The video part of a selected configuration.
pub open spec fn selected_video(v: SelectedView, profile: u8, level: u8) -> Seq<ItemView> {
    seq![(0x01u8, seq![0u8])].push((0x02u8, encoded(selected_h264(v, profile, level)))).push(
        (0x03u8, encoded(mode_items((v.width as u16, v.height as u16, v.fps as u8)))),
    )
}

pub open spec fn selected_h264(v: SelectedView, profile: u8, level: u8) -> Seq<ItemView> {
    seq![(0x01u8, seq![profile])].push((0x02u8, seq![level])).push(
        (0x03u8, le_bytes(v.video_bitrate_kbps, 4)),
    ).push((0x04u8, le_bytes(v.iframe_interval_ms, 4)))
}

/// The audio part of a selected configuration.
pub open spec fn selected_audio(v: SelectedView, bitrate_mode: u8) -> Seq<ItemView> {
    seq![
        (
            0x01u8,
            encoded(
                seq![(0x01u8, seq![0u8])].push((0x02u8, encoded(selected_aac(v, bitrate_mode)))),
            ),
        ),
    ]
}

pub open spec fn selected_aac(v: SelectedView, bitrate_mode: u8) -> Seq<ItemView> {
    seq![(0x01u8, seq![v.audio_channels as u8])].push((0x02u8, seq![bitrate_mode])).push(
        (0x03u8, seq![v.audio_sample_rate as u8]),
    ).push((0x04u8, le_bytes(v.audio_bitrate_kbps, 4)))
}

/// Whether every number fits the field that it is written to.
pub open spec fn fits_fields(v: SelectedView) -> bool {
    &&& v.prebuffer_ms <= u32::MAX
    &&& v.fragment_ms <= u32::MAX
    &&& v.width <= u16::MAX
    &&& v.height <= u16::MAX
    &&& v.fps <= u8::MAX
    &&& v.video_bitrate_kbps <= u32::MAX
    &&& v.iframe_interval_ms <= u32::MAX
    &&& v.audio_channels <= u8::MAX
    &&& v.audio_sample_rate <= u8::MAX
    &&& v.audio_bitrate_kbps <= u32::MAX
}

/// A configuration that a controller writes is parsed to the values it selected.
pub proof fn law_a_selection_is_read_back(
    v: SelectedView,
    profile: u8,
    level: u8,
    bitrate_mode: u8,
)
    requires
        fits_fields(v),
        v.raw == encoded(
            seq![(0x01u8, encoded(selected_general(v)))].push(
                (0x02u8, encoded(selected_video(v, profile, level))),
            ).push((0x03u8, encoded(selected_audio(v, bitrate_mode)))),
        ),
    ensures
        parsed_selected(v.raw) == Some(v),
{
    let items = seq![(0x01u8, encoded(selected_general(v)))].push(
        (0x02u8, encoded(selected_video(v, profile, level))),
    ).push((0x03u8, encoded(selected_audio(v, bitrate_mode))));
    lemma_ascending_reads_back(items);
    assert(items[0].0 == 0x01 && items[1].0 == 0x02 && items[2].0 == 0x03);
    let general = selected_general(v);
    lemma_ascending_reads_back(general);
    assert(general[0].0 == 0x01 && general[2].0 == 0x03);
    let container = selected_container(v);
    lemma_ascending_reads_back(container);
    assert(container[1].0 == 0x02);
    let container_params: Seq<ItemView> = seq![(0x01u8, le_bytes(v.fragment_ms, 4))];
    lemma_ascending_reads_back(container_params);
    assert(container_params[0].0 == 0x01);
    let video = selected_video(v, profile, level);
    lemma_ascending_reads_back(video);
    assert(video[1].0 == 0x02 && video[2].0 == 0x03);
    let h264 = selected_h264(v, profile, level);
    lemma_ascending_reads_back(h264);
    assert(h264[2].0 == 0x03 && h264[3].0 == 0x04);
    let mode = mode_items((v.width as u16, v.height as u16, v.fps as u8));
    lemma_ascending_reads_back(mode);
    assert(mode[0].0 == 0x01 && mode[1].0 == 0x02 && mode[2].0 == 0x03);
    let audio = selected_audio(v, bitrate_mode);
    lemma_ascending_reads_back(audio);
    assert(audio[0].0 == 0x01);
    let codec: Seq<ItemView> = seq![(0x01u8, seq![0u8])].push(
        (0x02u8, encoded(selected_aac(v, bitrate_mode))),
    );
    lemma_ascending_reads_back(codec);
    assert(codec[1].0 == 0x02);
    let aac = selected_aac(v, bitrate_mode);
    lemma_ascending_reads_back(aac);
    assert(aac[0].0 == 0x01 && aac[2].0 == 0x03 && aac[3].0 == 0x04);
    lemma_four_bytes_read_back(v.prebuffer_ms);
    lemma_four_bytes_read_back(v.fragment_ms);
    lemma_four_bytes_read_back(v.video_bitrate_kbps);
    lemma_four_bytes_read_back(v.iframe_interval_ms);
    lemma_four_bytes_read_back(v.audio_bitrate_kbps);
    lemma_pow256_values();
    lemma_le_bytes_len(v.width, 2);
    lemma_le_bytes_len(v.height, 2);
    lemma_le_roundtrip(v.width, 2);
    lemma_le_roundtrip(v.height, 2);
}

/// What is offered reads back: the codec with each of its modes, in their order.
pub proof fn law_the_offered_modes_are_read_back(modes: Seq<(u16, u16, u8)>)
    ensures
        parsed(encoded(supported_video_recording(modes))) == supported_video_recording(modes),
        parsed(encoded(supported_video_codec(modes))) == supported_video_codec(modes),
{
    lemma_different_neighbours(supported_video_recording(modes));
    law_parse_inverts_write(supported_video_recording(modes));
    let values = mode_values(modes);
    lemma_delimited_tags(values);
    let d = delimited(0x03, values);
    let items = supported_video_codec(modes);
    assert forall|i: int| 0 < i < items.len() implies #[trigger] items[i].0 != items[i - 1].0 by {
        if i == 1 {
            assert(items[1].0 == 0x02 && items[0].0 == 0x01);
        } else if i == 2 {
            assert(items[2] == d[0] && items[1].0 == 0x02);
        } else {
            assert(items[i] == d[i - 2] && items[i - 1] == d[i - 3]);
        }
    }
    lemma_different_neighbours(items);
    law_parse_inverts_write(items);
}

proof fn lemma_delimited_tags(values: Seq<Seq<u8>>)
    ensures
        delimited(0x03, values).len() == if values.len() == 0 {
            0
        } else {
            2 * values.len() - 1
        },
        forall|i: int|
            0 <= i < delimited(0x03, values).len() ==> (#[trigger] delimited(0x03, values)[i]).0
                == if i % 2 == 0 {
                0x03u8
            } else {
                0u8
            },
    decreases values.len(),
{
    if values.len() > 1 {
        lemma_delimited_tags(values.drop_last());
    }
}

// --- State ---

/// The Base64 text of some bytes.
pub uninterp spec fn base64_text(bytes: Seq<u8>) -> Seq<char>;

/// The bytes that a Base64 text stands for, where it is one.
pub uninterp spec fn base64_bytes(text: Seq<char>) -> Option<Seq<u8>>;

/// Calls `Engine::encode` of `base64::engine::general_purpose::STANDARD`. The text
/// is a function of the bytes, named [`base64_text`], and decodes to them.
#[verifier::external_body]
fn encode_base64(bytes: &[u8]) -> (text: String)
    ensures
        text@ == base64_text(bytes@),
        base64_bytes(text@) == Some(bytes@),
{
    base64::engine::general_purpose::STANDARD.encode(bytes)
}

/// Calls `Engine::decode` of `base64::engine::general_purpose::STANDARD`. What comes
/// of it is a function of the text, named [`base64_bytes`].
#[verifier::external_body]
fn decode_base64(text: &str) -> (r: Option<Vec<u8>>)
    ensures
        base64_bytes(text@) == match r {
            Some(bytes) => Some(bytes@),
            None => None,
        },
{
    base64::engine::general_purpose::STANDARD.decode(text).ok()
}

/// What is kept of the state between runs.
#[derive(Debug)]
pub struct PersistedState {
    pub selected_b64: Option<String>,
    /// The hash of what was offered when the configuration was selected.
    pub supported_hash: Option<u64>,
    pub recording_active: bool,
    pub audio_active: bool,
    pub event_snapshots: bool,
    pub periodic_snapshots: bool,
    pub homekit_active: bool,
}

/// The recording switches and the selected configuration.
#[derive(Debug)]
pub struct HsvState {
    pub recording_active: bool,
    pub audio_active: bool,
    pub event_snapshots: bool,
    pub periodic_snapshots: bool,
    pub homekit_active: bool,
    pub selected: Option<SelectedConfig>,
}

/// The mathematical value of the recording state.
pub ghost struct HsvView {
    pub recording_active: bool,
    pub audio_active: bool,
    pub event_snapshots: bool,
    pub periodic_snapshots: bool,
    pub homekit_active: bool,
    pub selected: Option<SelectedView>,
}

impl View for HsvState {
    type V = HsvView;

    open spec fn view(&self) -> HsvView {
        HsvView {
            recording_active: self.recording_active,
            audio_active: self.audio_active,
            event_snapshots: self.event_snapshots,
            periodic_snapshots: self.periodic_snapshots,
            homekit_active: self.homekit_active,
            selected: match self.selected {
                Some(config) => Some(config@),
                None => None,
            },
        }
    }
}

/// The selection that is restored: only one that can be read, and only while what
/// is offered is unchanged.
pub open spec fn restored_selection(persisted: PersistedState, hash: u64) -> Option<SelectedView> {
    match persisted.selected_b64 {
        Some(text) if persisted.supported_hash == Some(hash) => match base64_bytes(text@) {
            Some(raw) => parsed_selected(raw),
            None => None,
        },
        _ => None,
    }
}

/// The state that is restored; without one, everything but recording is enabled.
pub open spec fn restored(persisted: Option<PersistedState>, hash: u64) -> HsvView {
    match persisted {
        Some(p) => HsvView {
            recording_active: p.recording_active,
            audio_active: p.audio_active,
            event_snapshots: p.event_snapshots,
            periodic_snapshots: p.periodic_snapshots,
            homekit_active: p.homekit_active,
            selected: restored_selection(p, hash),
        },
        None => HsvView {
            recording_active: false,
            audio_active: true,
            event_snapshots: true,
            periodic_snapshots: true,
            homekit_active: true,
            selected: None,
        },
    }
}

/// What a write to SelectedCameraRecordingConfiguration comes to.
#[derive(Clone, Copy, Debug, PartialEq, Eq, Structural)]
pub enum SelectedWrite {
    /// Nothing new: an empty value, or the echo of the one already held.
    Ignored,
    /// It cannot be parsed.
    Unparsable,
    /// It is selected: stop the recorder, set the camera's encoder, keep the state
    /// and start the recorder again.
    Selected,
}

/// The sample rate that a code of the configuration stands for.
pub open spec fn sample_rate(code: nat) -> nat {
    if code == 0 {
        8000
    } else if code == 1 {
        16000
    } else if code == 2 {
        24000
    } else if code == 3 {
        32000
    } else if code == 4 {
        44100
    } else {
        48000
    }
}

/// How many frames there are from one key frame to the next.
pub open spec fn key_frame_distance(config: SelectedView) -> nat {
    config.fps * config.iframe_interval_ms / 1000
}

/// The settings of the camera's main stream that match a selected configuration.
pub open spec fn camera_settings(config: SelectedView) -> Seq<char> {
    "Encode[0].MainFormat[0].VideoEnable=true&Encode[0].MainFormat[0].Video.Compression=H.264&Encode[0].MainFormat[0].Video.resolution="@
        + decimal(config.width) + "x"@ + decimal(config.height)
        + "&Encode[0].MainFormat[0].Video.Width="@ + decimal(config.width)
        + "&Encode[0].MainFormat[0].Video.Height="@ + decimal(config.height)
        + "&Encode[0].MainFormat[0].Video.FPS="@ + decimal(config.fps)
        + "&Encode[0].MainFormat[0].Video.GOP="@ + decimal(key_frame_distance(config))
        + "&Encode[0].MainFormat[0].Video.BitRate="@ + decimal(config.video_bitrate_kbps)
        + "&Encode[0].MainFormat[0].Video.BitRateControl=VBR&Encode[0].MainFormat[0].Video.Profile=Main&Encode[0].MainFormat[0].Video.Quality=4&Encode[0].MainFormat[0].Video.Pack=DHAV&Encode[0].MainFormat[0].Video.Priority=0&Encode[0].MainFormat[0].Video.SVCTLayer=1&Encode[0].MainFormat[0].Video.encodeType=0&Encode[0].MainFormat[0].Audio.Compression=AAC&Encode[0].MainFormat[0].Audio.Frequency="@
        + decimal(sample_rate(config.audio_sample_rate))
        + "&Encode[0].MainFormat[0].Audio.Bitrate=64&Encode[0].MainFormat[0].Audio.Depth=16&Encode[0].MainFormat[0].Audio.Channels[0]=0&Encode[0].MainFormat[0].Audio.Mode=0&Encode[0].MainFormat[0].Audio.Pack=DHAV&Encode[0].MainFormat[0].AudioEnable=true"@
}

impl SelectedConfig {
    /// Whether the distance of key frames can be computed in 32 bits.
    pub fn distance_fits(&self) -> (r: bool)
        ensures
            r == (self@.fps * self@.iframe_interval_ms <= u32::MAX),
    {
        assert(self.fps * self.iframe_interval_ms <= 255 * 0xffff_ffff) by (nonlinear_arith)
            requires
                self.fps <= 255,
                self.iframe_interval_ms <= 0xffff_ffff,
        ;
        self.fps as u64 * self.iframe_interval_ms as u64 <= 0xffff_ffff
    }

    /// How many frames it is from one key frame to the next.
    pub fn key_frame_distance(&self) -> (gop: u32)
        requires
            self@.fps * self@.iframe_interval_ms <= u32::MAX,
        ensures
            gop as nat == key_frame_distance(self@),
    {
        self.fps as u32 * self.iframe_interval_ms / 1000
    }

    /// The sample rate of audio.
    pub fn audio_hz(&self) -> (hz: u32)
        ensures
            hz as nat == sample_rate(self@.audio_sample_rate),
    {
        match self.audio_sample_rate {
            0 => 8000,
            1 => 16000,
            2 => 24000,
            3 => 32000,
            4 => 44100,
            _ => 48000,
        }
    }

    /// The settings of the camera's main stream that match the configuration, so
    /// that recordings can be copied.
    pub fn camera_settings(&self) -> (params: String)
        requires
            self@.fps * self@.iframe_interval_ms <= u32::MAX,
        ensures
            params@ == camera_settings(self@),
    {
        let gop: u32 = self.key_frame_distance();
        let audio_hz: u32 = self.audio_hz();
        let mut s = String::from_str(
            "Encode[0].MainFormat[0].VideoEnable=true&Encode[0].MainFormat[0].Video.Compression=H.264&Encode[0].MainFormat[0].Video.resolution=",
        );
        push_decimal(&mut s, self.width as u64);
        s.append("x");
        push_decimal(&mut s, self.height as u64);
        s.append("&Encode[0].MainFormat[0].Video.Width=");
        push_decimal(&mut s, self.width as u64);
        s.append("&Encode[0].MainFormat[0].Video.Height=");
        push_decimal(&mut s, self.height as u64);
        s.append("&Encode[0].MainFormat[0].Video.FPS=");
        push_decimal(&mut s, self.fps as u64);
        s.append("&Encode[0].MainFormat[0].Video.GOP=");
        push_decimal(&mut s, gop as u64);
        s.append("&Encode[0].MainFormat[0].Video.BitRate=");
        push_decimal(&mut s, self.video_bitrate_kbps as u64);
        s.append(
            "&Encode[0].MainFormat[0].Video.BitRateControl=VBR&Encode[0].MainFormat[0].Video.Profile=Main&Encode[0].MainFormat[0].Video.Quality=4&Encode[0].MainFormat[0].Video.Pack=DHAV&Encode[0].MainFormat[0].Video.Priority=0&Encode[0].MainFormat[0].Video.SVCTLayer=1&Encode[0].MainFormat[0].Video.encodeType=0&Encode[0].MainFormat[0].Audio.Compression=AAC&Encode[0].MainFormat[0].Audio.Frequency=",
        );
        push_decimal(&mut s, audio_hz as u64);
        s.append(
            "&Encode[0].MainFormat[0].Audio.Bitrate=64&Encode[0].MainFormat[0].Audio.Depth=16&Encode[0].MainFormat[0].Audio.Channels[0]=0&Encode[0].MainFormat[0].Audio.Mode=0&Encode[0].MainFormat[0].Audio.Pack=DHAV&Encode[0].MainFormat[0].AudioEnable=true",
        );
        s
    }
}

impl HsvState {
    /// A selected configuration is what its raw value says.
    pub open spec fn wf(&self) -> bool {
        self@.selected matches Some(v) ==> parsed_selected(v.raw) == Some(v)
    }

    /// Restores the state of an earlier run; `supported_hash` is the hash of what is
    /// offered now.
    pub fn load(persisted: Option<PersistedState>, supported_hash: u64) -> (state: Self)
        ensures
            state.wf(),
            state@ == restored(persisted, supported_hash),
    {
        match persisted {
            Some(p) => {
                let mut selected: Option<SelectedConfig> = None;
                if let (Some(text), Some(hash)) = (&p.selected_b64, p.supported_hash) {
                    if hash == supported_hash {
                        if let Some(raw) = decode_base64(text.as_str()) {
                            selected = parse_selected(raw.as_slice());
                        }
                    }
                }
                HsvState {
                    recording_active: p.recording_active,
                    audio_active: p.audio_active,
                    event_snapshots: p.event_snapshots,
                    periodic_snapshots: p.periodic_snapshots,
                    homekit_active: p.homekit_active,
                    selected,
                }
            },
            None => HsvState {
                recording_active: false,
                audio_active: true,
                event_snapshots: true,
                periodic_snapshots: true,
                homekit_active: true,
                selected: None,
            },
        }
    }

    /// What is to be kept. Loading it again gives the same state as long as what is
    /// offered is unchanged, and the same switches without a selection otherwise.
    pub fn persist(&self, supported_hash: u64) -> (p: PersistedState)
        requires
            self.wf(),
        ensures
            restored(Some(p), supported_hash) == self@,
            forall|hash: u64|
                hash != supported_hash ==> #[trigger] restored(Some(p), hash) == (HsvView {
                    selected: None,
                    ..self@
                }),
            p.supported_hash == Some(supported_hash),
            match p.selected_b64 {
                Some(text) => self@.selected is Some && text@ == base64_text(
                    self@.selected->0.raw,
                ),
                None => self@.selected is None,
            },
    {
        let selected_b64: Option<String> = match &self.selected {
            Some(config) => Some(encode_base64(config.raw.as_slice())),
            None => None,
        };
        PersistedState {
            selected_b64,
            supported_hash: Some(supported_hash),
            recording_active: self.recording_active,
            audio_active: self.audio_active,
            event_snapshots: self.event_snapshots,
            periodic_snapshots: self.periodic_snapshots,
            homekit_active: self.homekit_active,
        }
    }

    /// Handles a write to SelectedCameraRecordingConfiguration; `held` is the value
    /// of the characteristic before the write.
    pub fn handle_selected_write(&mut self, held: &[u8], raw: &[u8]) -> (r: SelectedWrite)
        requires
            old(self).wf(),
        ensures
            final(self).wf(),
            r == if raw@.len() == 0 || raw@ == held@ {
                SelectedWrite::Ignored
            } else if parsed_selected(raw@) is None {
                SelectedWrite::Unparsable
            } else {
                SelectedWrite::Selected
            },
            final(self)@ == if r is Selected {
                HsvView { selected: parsed_selected(raw@), ..old(self)@ }
            } else {
                old(self)@
            },
    {
        if raw.len() == 0 || crate::text::same_bytes(raw, held) {
            return SelectedWrite::Ignored;
        }
        match parse_selected(raw) {
            Some(config) => {
                self.selected = Some(config);
                SelectedWrite::Selected
            },
            None => SelectedWrite::Unparsable,
        }
    }

    /// The value of SelectedCameraRecordingConfiguration; before any write the read
    /// fails.
    pub fn selected_read(&self) -> (r: Option<Vec<u8>>)
        ensures
            match r {
                Some(raw) => self@.selected is Some && raw@ == self@.selected->0.raw,
                None => self@.selected is None,
            },
    {
        match &self.selected {
            Some(config) => Some(to_vec(config.raw.as_slice())),
            None => None,
        }
    }

    /// Takes a write to the recording switch.
    pub fn set_recording_active(&mut self, value: u8)
        ensures
            final(self)@ == (HsvView { recording_active: value == 1, ..old(self)@ }),
    {
        self.recording_active = value == 1;
    }

    /// Takes a write to the recording audio switch.
    pub fn set_audio_active(&mut self, value: u8)
        ensures
            final(self)@ == (HsvView { audio_active: value == 1, ..old(self)@ }),
    {
        self.audio_active = value == 1;
    }

    /// The settings that the recorder has to run with; `None` where it has to stop.
    pub fn sync_recorder(&self, rtsp_url: &str) -> (r: Option<RecorderConfig>)
        ensures
            match r {
                Some(config) => {
                    &&& self@.recording_active && self@.homekit_active
                    &&& self@.selected is Some
                    &&& config@ == (RecorderConfigView {
                        rtsp_url: rtsp_url@,
                        audio: self@.audio_active,
                        fragment_ms: self@.selected->0.fragment_ms as u32,
                        prebuffer_ms: self@.selected->0.prebuffer_ms as u32,
                    })
                },
                None => !self@.recording_active || !self@.homekit_active || self@.selected is None,
            },
    {
        if !self.recording_active || !self.homekit_active {
            return None;
        }
        match &self.selected {
            Some(config) => Some(
                RecorderConfig {
                    rtsp_url: String::from_str(rtsp_url),
                    audio: self.audio_active,
                    fragment_ms: config.fragment_ms,
                    prebuffer_ms: config.prebuffer_ms,
                },
            ),
            None => None,
        }
    }

    /// Whether a recording may be asked for now; the error is the status of the
    /// refusal: 9 for an invalid configuration, 1 for not allowed.
    pub fn recording_allowed(&self) -> (r: Result<(), u8>)
        ensures
            r == if self@.selected is None {
                Err::<(), u8>(9)
            } else if !self@.recording_active || !self@.homekit_active {
                Err::<(), u8>(1)
            } else {
                Ok::<(), u8>(())
            },
    {
        if self.selected.is_none() {
            return Err(9);
        }
        if !self.recording_active || !self.homekit_active {
            return Err(1);
        }
        Ok(())
    }
}

// --- What is offered, selected and set ---

/// Values between delimiters stand at every second place.
pub proof fn lemma_delimited_at(tag: u8, values: Seq<Seq<u8>>, i: int)
    requires
        0 <= i < values.len(),
    ensures
        delimited(tag, values).len() == 2 * values.len() - 1,
        delimited(tag, values)[2 * i] == (tag, values[i]),
        i > 0 ==> delimited(tag, values)[2 * i - 1] == (0u8, Seq::<u8>::empty()),
    decreases values.len(),
{
    if values.len() > 1 {
        let front = values.drop_last();
        lemma_delimited_at(tag, front, 0);
        if i < front.len() {
            lemma_delimited_at(tag, front, i);
        }
    }
}

/// A mode is its width under 1 and its height under 2, in two bytes each, and its frames
/// per second under 3.
pub proof fn law_a_mode_has_its_numbers(mode: (u16, u16, u8))
    ensures
        ({
            let items = parsed(encoded(mode_items(mode)));
            &&& items.len() == 3
            &&& first_value(items, 1) == Some(seq![(mode.0 % 256) as u8, (mode.0 / 256) as u8])
            &&& first_value(items, 2) == Some(seq![(mode.1 % 256) as u8, (mode.1 / 256) as u8])
            &&& first_value(items, 3) == Some(seq![mode.2])
        }),
{
    let items = mode_items(mode);
    lemma_ascending_reads_back(items);
    assert(items[0].0 == 1 && items[1].0 == 2 && items[2].0 == 3);
    law_bytes_are_digits(mode.0 as nat, 0, 0, 0, 0);
    law_bytes_are_digits(mode.1 as nat, 0, 0, 0, 0);
    assert(mode.0 as nat / 256 % 256 == mode.0 / 256);
    assert(mode.1 as nat / 256 % 256 == mode.1 / 256);
}

/// The offer of video is H.264 with its parameters and every mode, in their order and
/// with a delimiter between them; nothing else is in it.
pub proof fn law_every_mode_is_offered(modes: Seq<(u16, u16, u8)>, i: int)
    requires
        0 <= i < modes.len(),
    ensures
        ({
            let codec = inside(parsed(encoded(supported_video_recording(modes))), 1);
            &&& codec.len() == 2 * modes.len() + 1
            &&& codec[0] == (1u8, seq![0u8])
            &&& codec[1].0 == 2
            &&& codec[2 + 2 * i] == (3u8, encoded(mode_items(modes[i])))
            &&& i > 0 ==> codec[1 + 2 * i] == (0u8, Seq::<u8>::empty())
        }),
{
    law_the_offered_modes_are_read_back(modes);
    let all = supported_video_recording(modes);
    assert(all[0].0 == 1);
    assert(first_value(all, 1) == Some(all[0].1));
    lemma_delimited_at(0x03, mode_values(modes), i);
}

/// Of H.264 the profiles and the levels from 0 to 2 are offered, and no others.
pub proof fn law_three_profiles_and_levels_are_offered(n: u8)
    ensures
        ({
            let items = parsed(encoded(supported_h264()));
            &&& n <= 2 <==> exists|i: int| 0 <= i < items.len() && #[trigger] items[i] == (
                1u8,
                seq![n],
            )
            &&& n <= 2 <==> exists|i: int| 0 <= i < items.len() && #[trigger] items[i] == (
                2u8,
                seq![n],
            )
            &&& forall|i: int| 0 <= i < items.len() ==> (#[trigger] items[i]).0 <= 2
        }),
{
    let items = supported_h264();
    assert(items.len() == 10);
    assert(items[0] == (1u8, seq![0u8]) && items[2] == (1u8, seq![1u8]) && items[4] == (
        1u8,
        seq![2u8],
    ));
    assert(items[5] == (2u8, seq![0u8]) && items[7] == (2u8, seq![1u8]) && items[9] == (
        2u8,
        seq![2u8],
    ));
    assert(items[1].0 == 0 && items[3].0 == 0 && items[6].0 == 0 && items[8].0 == 0);
    lemma_different_neighbours(items);
    law_parse_inverts_write(items);
    assert(seq![n][0] == n);
    assert(seq![0u8][0] == 0 && seq![1u8][0] == 1 && seq![2u8][0] == 2);
    if n == 0 {
        assert(items[0] == (1u8, seq![n]) && items[5] == (2u8, seq![n]));
    } else if n == 1 {
        assert(items[2] == (1u8, seq![n]) && items[7] == (2u8, seq![n]));
    } else if n == 2 {
        assert(items[4] == (1u8, seq![n]) && items[9] == (2u8, seq![n]));
    }
    assert forall|i: int| 0 <= i < items.len() implies (#[trigger] items[i]).0 <= 2 && (items[i].0
        >= 1 ==> items[i].1[0] <= 2) by {
        assert(i == 0 || i == 1 || i == 2 || i == 3 || i == 4 || i == 5 || i == 6 || i == 7 || i
            == 8 || i == 9);
    }
}

/// A selection holds what the controller sent, each value at its own place, and has a
/// default where nothing was sent: 4000 ms of prebuffer and of fragments, 1920x1080 at 15
/// frames per second and 2000 kbit/s, a key frame in each fragment, and one channel of
/// audio at 48 kHz and 64 kbit/s. Without a general part or without a video part there
/// is no selection.
pub proof fn law_a_selection_has_defaults(raw: Seq<u8>)
    ensures
        ({
            let items = parsed(raw);
            let general = inside(items, 1);
            let container = inside(inside(general, 3), 2);
            let video = inside(inside(items, 2), 2);
            let mode = inside(inside(items, 2), 3);
            let audio = inside(inside(inside(items, 3), 1), 2);
            match parsed_selected(raw) {
                None => first_value(items, 1) is None || first_value(items, 2) is None,
                Some(s) => {
                    &&& first_value(items, 1) is Some && first_value(items, 2) is Some
                    &&& s.raw == raw
                    &&& s.prebuffer_ms == number(general, 1, 4000)
                    &&& s.fragment_ms == number(container, 1, 4000)
                    &&& s.width == short_number(mode, 1, 1920)
                    &&& s.height == short_number(mode, 2, 1080)
                    &&& s.fps == byte(mode, 3, 15)
                    &&& s.video_bitrate_kbps == number(video, 3, 2000)
                    &&& s.iframe_interval_ms == number(video, 4, s.fragment_ms)
                    &&& s.audio_channels == byte(audio, 1, 1)
                    &&& s.audio_sample_rate == byte(audio, 3, 5)
                    &&& s.audio_bitrate_kbps == number(audio, 4, 64)
                },
            }
        }),
{
}

/// A number of a selection is little-endian, of four bytes or more of which four count;
/// a short one has to have two bytes, and of a byte the first counts.
pub proof fn law_selected_numbers_are_little_endian(
    items: Seq<ItemView>,
    tag: u8,
    v: Seq<u8>,
    default: nat,
)
    requires
        first_value(items, tag) == Some(v),
    ensures
        v.len() >= 4 ==> number(items, tag, default) == v[0] + 0x100 * v[1] + 0x1_0000 * v[2]
            + 0x100_0000 * v[3],
        v.len() == 2 ==> short_number(items, tag, default) == v[0] + 0x100 * v[1],
        v.len() != 2 ==> short_number(items, tag, default) == default,
        v.len() > 0 ==> byte(items, tag, default) == v[0],
{
    if v.len() >= 4 {
        assert(first_four(v) =~= seq![v[0], v[1], v[2], v[3]]);
        law_bytes_are_digits(0, v[0], v[1], v[2], v[3]);
    }
    if v.len() == 2 {
        assert(v =~= seq![v[0], v[1]]);
        law_bytes_are_digits(0, v[0], v[1], 0, 0);
    }
}

/// The codes of sample rates are those of HomeKit, in their order; a code that is not
/// one of them stands for 48 kHz.
pub proof fn law_sample_rates_have_codes(code: nat)
    ensures
        code < 3 ==> sample_rate(code) == 8000 * (code + 1),
        code == 3 ==> sample_rate(code) == 32000,
        code == 4 ==> sample_rate(code) == 44100,
        code > 4 ==> sample_rate(code) == 48000,
{
}

/// Whether one of the settings in a text, between ampersands, is this.
pub open spec fn has_setting(text: Seq<char>, setting: Seq<char>) -> bool {
    exists|a: Seq<char>, b: Seq<char>|
        #![trigger a + setting + b]
        text == a + setting + b && (b.len() == 0 || b[0] == '&')
}

/// Whether a text starts with an ampersand.
spec fn apart(text: Seq<char>) -> bool {
    text.len() > 0 && text[0] == '&'
}

/// Each of eight settings is one of those in the text that they make up.
proof fn lemma_eight_settings(
    a: Seq<char>,
    b: Seq<char>,
    c: Seq<char>,
    d: Seq<char>,
    e: Seq<char>,
    f: Seq<char>,
    g: Seq<char>,
    h: Seq<char>,
)
    requires
        apart(b) && apart(c) && apart(d) && apart(e) && apart(f) && apart(g) && apart(h),
    ensures
        ({
            let text = a + b + c + d + e + f + g + h;
            has_setting(text, a) && has_setting(text, b) && has_setting(text, c) && has_setting(
                text,
                d,
            ) && has_setting(text, e) && has_setting(text, f) && has_setting(text, g)
                && has_setting(text, h)
        }),
{
    let none = Seq::<char>::empty();
    let text = a + b + c + d + e + f + g + h;
    assert(text =~= none + a + (b + c + d + e + f + g + h));
    assert(text =~= a + b + (c + d + e + f + g + h));
    assert(text =~= (a + b) + c + (d + e + f + g + h));
    assert(text =~= (a + b + c) + d + (e + f + g + h));
    assert(text =~= (a + b + c + d) + e + (f + g + h));
    assert(text =~= (a + b + c + d + e) + f + (g + h));
    assert(text =~= (a + b + c + d + e + f) + g + h);
    assert(text =~= (a + b + c + d + e + f + g) + h + none);
}

proof fn lemma_settings_start()
    ensures
        apart("&Encode[0].MainFormat[0].Video.Width="@),
        apart("&Encode[0].MainFormat[0].Video.Height="@),
        apart("&Encode[0].MainFormat[0].Video.FPS="@),
        apart("&Encode[0].MainFormat[0].Video.GOP="@),
        apart("&Encode[0].MainFormat[0].Video.BitRate="@),
        apart("&Encode[0].MainFormat[0].Video.BitRateControl=VBR&Encode[0].MainFormat[0].Video.Profile=Main&Encode[0].MainFormat[0].Video.Quality=4&Encode[0].MainFormat[0].Video.Pack=DHAV&Encode[0].MainFormat[0].Video.Priority=0&Encode[0].MainFormat[0].Video.SVCTLayer=1&Encode[0].MainFormat[0].Video.encodeType=0&Encode[0].MainFormat[0].Audio.Compression=AAC&Encode[0].MainFormat[0].Audio.Frequency="@),
        apart("&Encode[0].MainFormat[0].Audio.Bitrate=64&Encode[0].MainFormat[0].Audio.Depth=16&Encode[0].MainFormat[0].Audio.Channels[0]=0&Encode[0].MainFormat[0].Audio.Mode=0&Encode[0].MainFormat[0].Audio.Pack=DHAV&Encode[0].MainFormat[0].AudioEnable=true"@),
{
    reveal_strlit("&Encode[0].MainFormat[0].Video.Width=");
    reveal_strlit("&Encode[0].MainFormat[0].Video.Height=");
    reveal_strlit("&Encode[0].MainFormat[0].Video.FPS=");
    reveal_strlit("&Encode[0].MainFormat[0].Video.GOP=");
    reveal_strlit("&Encode[0].MainFormat[0].Video.BitRate=");
    reveal_strlit("&Encode[0].MainFormat[0].Video.BitRateControl=VBR&Encode[0].MainFormat[0].Video.Profile=Main&Encode[0].MainFormat[0].Video.Quality=4&Encode[0].MainFormat[0].Video.Pack=DHAV&Encode[0].MainFormat[0].Video.Priority=0&Encode[0].MainFormat[0].Video.SVCTLayer=1&Encode[0].MainFormat[0].Video.encodeType=0&Encode[0].MainFormat[0].Audio.Compression=AAC&Encode[0].MainFormat[0].Audio.Frequency=");
    reveal_strlit("&Encode[0].MainFormat[0].Audio.Bitrate=64&Encode[0].MainFormat[0].Audio.Depth=16&Encode[0].MainFormat[0].Audio.Channels[0]=0&Encode[0].MainFormat[0].Audio.Mode=0&Encode[0].MainFormat[0].Audio.Pack=DHAV&Encode[0].MainFormat[0].AudioEnable=true");
}

/// The camera's main stream is set to what was selected: the width, the height, the
/// frames per second, the distance of key frames, the bitrate and the sample rate of
/// audio. Video is H.264 and audio AAC.
pub proof fn law_the_camera_is_set_as_selected(config: SelectedView)
    ensures
        ({
            let text = camera_settings(config);
            &&& has_setting(
                text,
                "&Encode[0].MainFormat[0].Video.Width="@ + decimal(config.width),
            )
            &&& has_setting(
                text,
                "&Encode[0].MainFormat[0].Video.Height="@ + decimal(config.height),
            )
            &&& has_setting(text, "&Encode[0].MainFormat[0].Video.FPS="@ + decimal(config.fps))
            &&& has_setting(
                text,
                "&Encode[0].MainFormat[0].Video.GOP="@ + decimal(key_frame_distance(config)),
            )
            &&& has_setting(
                text,
                "&Encode[0].MainFormat[0].Video.BitRate="@ + decimal(config.video_bitrate_kbps),
            )
            &&& has_setting(
                text,
                "Encode[0].MainFormat[0].VideoEnable=true&Encode[0].MainFormat[0].Video.Compression=H.264&Encode[0].MainFormat[0].Video.resolution="@
                    + decimal(config.width) + "x"@ + decimal(config.height),
            )
            &&& has_setting(
                text,
                "&Encode[0].MainFormat[0].Video.BitRateControl=VBR&Encode[0].MainFormat[0].Video.Profile=Main&Encode[0].MainFormat[0].Video.Quality=4&Encode[0].MainFormat[0].Video.Pack=DHAV&Encode[0].MainFormat[0].Video.Priority=0&Encode[0].MainFormat[0].Video.SVCTLayer=1&Encode[0].MainFormat[0].Video.encodeType=0&Encode[0].MainFormat[0].Audio.Compression=AAC&Encode[0].MainFormat[0].Audio.Frequency="@
                    + decimal(sample_rate(config.audio_sample_rate)),
            )
            &&& has_setting(
                text,
                "&Encode[0].MainFormat[0].Audio.Bitrate=64&Encode[0].MainFormat[0].Audio.Depth=16&Encode[0].MainFormat[0].Audio.Channels[0]=0&Encode[0].MainFormat[0].Audio.Mode=0&Encode[0].MainFormat[0].Audio.Pack=DHAV&Encode[0].MainFormat[0].AudioEnable=true"@,
            )
        }),
{
    lemma_settings_start();
    let resolution = "Encode[0].MainFormat[0].VideoEnable=true&Encode[0].MainFormat[0].Video.Compression=H.264&Encode[0].MainFormat[0].Video.resolution="@
        + decimal(config.width) + "x"@ + decimal(config.height);
    let width = "&Encode[0].MainFormat[0].Video.Width="@;
    let height = "&Encode[0].MainFormat[0].Video.Height="@;
    let fps = "&Encode[0].MainFormat[0].Video.FPS="@;
    let gop = "&Encode[0].MainFormat[0].Video.GOP="@;
    let rate = "&Encode[0].MainFormat[0].Video.BitRate="@;
    let audio = "&Encode[0].MainFormat[0].Video.BitRateControl=VBR&Encode[0].MainFormat[0].Video.Profile=Main&Encode[0].MainFormat[0].Video.Quality=4&Encode[0].MainFormat[0].Video.Pack=DHAV&Encode[0].MainFormat[0].Video.Priority=0&Encode[0].MainFormat[0].Video.SVCTLayer=1&Encode[0].MainFormat[0].Video.encodeType=0&Encode[0].MainFormat[0].Audio.Compression=AAC&Encode[0].MainFormat[0].Audio.Frequency="@;
    let rest = "&Encode[0].MainFormat[0].Audio.Bitrate=64&Encode[0].MainFormat[0].Audio.Depth=16&Encode[0].MainFormat[0].Audio.Channels[0]=0&Encode[0].MainFormat[0].Audio.Mode=0&Encode[0].MainFormat[0].Audio.Pack=DHAV&Encode[0].MainFormat[0].AudioEnable=true"@;
    let w = decimal(config.width);
    let h = decimal(config.height);
    let f = decimal(config.fps);
    let d = decimal(key_frame_distance(config));
    let r = decimal(config.video_bitrate_kbps);
    let hz = decimal(sample_rate(config.audio_sample_rate));
    lemma_pairs(resolution, width, w, height, h, fps, f, gop, d, rate, r, audio, hz, rest);
    lemma_eight_settings(
        resolution,
        width + w,
        height + h,
        fps + f,
        gop + d,
        rate + r,
        audio + hz,
        rest,
    );
}

/// Names and values one by one make up the same text as in pairs.
proof fn lemma_pairs(
    a: Seq<char>,
    b: Seq<char>,
    b1: Seq<char>,
    c: Seq<char>,
    c1: Seq<char>,
    d: Seq<char>,
    d1: Seq<char>,
    e: Seq<char>,
    e1: Seq<char>,
    f: Seq<char>,
    f1: Seq<char>,
    g: Seq<char>,
    g1: Seq<char>,
    h: Seq<char>,
)
    ensures
        a + b + b1 + c + c1 + d + d1 + e + e1 + f + f1 + g + g1 + h == a + (b + b1) + (c + c1) + (d
            + d1) + (e + e1) + (f + f1) + (g + g1) + h,
{
    assert(a + b + b1 =~= a + (b + b1));
    let ab = a + (b + b1);
    assert(ab + c + c1 =~= ab + (c + c1));
    let ac = ab + (c + c1);
    assert(ac + d + d1 =~= ac + (d + d1));
    let ad = ac + (d + d1);
    assert(ad + e + e1 =~= ad + (e + e1));
    let ae = ad + (e + e1);
    assert(ae + f + f1 =~= ae + (f + f1));
    let af = ae + (f + f1);
    assert(af + g + g1 =~= af + (g + g1));
}

/// Key frames come as often as was selected: the time of their distance is the selected
/// one, as far as whole frames allow.
pub proof fn law_key_frames_come_in_time(config: SelectedView)
    ensures
        1000 * key_frame_distance(config) <= config.fps * config.iframe_interval_ms,
        config.fps * config.iframe_interval_ms < 1000 * (key_frame_distance(config) + 1),
{
}

/// A state is restored switch by switch; without one, recording is off and everything
/// else on. The selection comes back only where what is offered has the same hash as
/// when it was selected.
pub proof fn law_each_switch_is_restored(p: PersistedState, hash: u64)
    ensures
        ({
            let state = restored(Some(p), hash);
            let fresh = restored(None, hash);
            &&& state.recording_active == p.recording_active
            &&& state.audio_active == p.audio_active
            &&& state.event_snapshots == p.event_snapshots
            &&& state.periodic_snapshots == p.periodic_snapshots
            &&& state.homekit_active == p.homekit_active
            &&& p.supported_hash != Some(hash) || p.selected_b64 is None ==> state.selected is None
            &&& p.supported_hash == Some(hash) && p.selected_b64 is Some && base64_bytes(
                p.selected_b64->0@,
            ) is Some ==> state.selected == parsed_selected(base64_bytes(p.selected_b64->0@)->0)
            &&& !fresh.recording_active && fresh.audio_active && fresh.event_snapshots
                && fresh.periodic_snapshots && fresh.homekit_active && fresh.selected is None
        }),
{
}

/// What is offered for recordings: 4000 ms of prebuffer, motion as the trigger, and
/// fragmented MP4 with fragments of 4000 ms.
pub proof fn law_the_offer_of_recordings(i: int)
    ensures
        ({
            let items = parsed(encoded(supported_camera_recording()));
            let container = inside(items, 3);
            let params = inside(container, 2);
            &&& first_value(items, 1) == Some(seq![0xa0u8, 0x0fu8, 0u8, 0u8])
            &&& first_value(items, 2) matches Some(v) && v.len() == 8 && v[0] == 1 && (0 < i < 8
                ==> v[i] == 0)
            &&& first_value(container, 1) == Some(seq![0u8])
            &&& first_value(params, 1) == Some(seq![0xa0u8, 0x0fu8, 0u8, 0u8])
        }),
{
    let items = supported_camera_recording();
    let container = supported_container();
    let params: Seq<ItemView> = seq![(0x01u8, le_bytes(4000, 4))];
    lemma_ascending_reads_back(items);
    lemma_ascending_reads_back(container);
    lemma_ascending_reads_back(params);
    assert(items[0].0 == 1 && items[1].0 == 2 && items[2].0 == 3);
    assert(container[0].0 == 1 && container[1].0 == 2 && params[0].0 == 1);
    law_bytes_are_digits(4000, 0, 0, 0, 0);
    assert(le_bytes(4000, 4) =~= seq![0xa0u8, 0x0fu8, 0u8, 0u8]);
    reveal_with_fuel(le_bytes, 9);
    assert(le_bytes(1, 8) =~= seq![1u8, 0u8, 0u8, 0u8, 0u8, 0u8, 0u8, 0u8]);
}

/// The audio that is offered is AAC-LC, mono, with a variable bitrate, at 32 kHz and at
/// 48 kHz and at no other rate.
pub proof fn law_the_offer_of_audio(code: u8)
    ensures
        ({
            let codec = inside(parsed(encoded(supported_audio_recording())), 1);
            let params = inside(codec, 2);
            &&& first_value(codec, 1) == Some(seq![0u8])
            &&& first_value(params, 1) == Some(seq![1u8])
            &&& first_value(params, 2) == Some(seq![0u8])
            &&& (sample_rate(code as nat) == 32000 || code == 5) <==> exists|i: int|
                0 <= i < params.len() && #[trigger] params[i] == (3u8, seq![code])
        }),
{
    let all = supported_audio_recording();
    let params = supported_aac();
    let codec: Seq<ItemView> = seq![(0x01u8, seq![0u8])].push((0x02u8, encoded(params)));
    lemma_ascending_reads_back(all);
    lemma_ascending_reads_back(codec);
    assert(params.len() == 5 && params[0] == (1u8, seq![1u8]) && params[1] == (2u8, seq![0u8])
        && params[2] == (3u8, seq![3u8]) && params[3].0 == 0 && params[4] == (3u8, seq![5u8]));
    lemma_different_neighbours(params);
    law_parse_inverts_write(params);
    assert(all[0].0 == 1 && codec[0].0 == 1 && codec[1].0 == 2);
    reveal_with_fuel(first_value, 3);
    assert(params.skip(1)[0] == params[1]);
    assert(seq![code][0] == code && seq![3u8][0] == 3 && seq![5u8][0] == 5);
    if code == 3 {
        assert(params[2] == (3u8, seq![code]));
    }
    if code == 5 {
        assert(params[4] == (3u8, seq![code]));
    }
    assert forall|i: int| 0 <= i < params.len() && (#[trigger] params[i]).0 == 3 implies
        params[i].1[0] == 3 || params[i].1[0] == 5 by {
        assert(i == 0 || i == 1 || i == 2 || i == 3 || i == 4);
    }
}

/// Recordings are offered in four sizes, each at 15 frames per second.
pub proof fn law_recordings_have_four_sizes(i: int)
    requires
        0 <= i < RECORDING_ATTRIBUTES@.len(),
    ensures
        RECORDING_ATTRIBUTES@.len() == 4,
        RECORDING_ATTRIBUTES@[i].2 == 15,
        i == 0 ==> RECORDING_ATTRIBUTES@[i].0 == 1280 && RECORDING_ATTRIBUTES@[i].1 == 720,
        i == 1 ==> RECORDING_ATTRIBUTES@[i].0 == 1920 && RECORDING_ATTRIBUTES@[i].1 == 1080,
        i == 2 ==> RECORDING_ATTRIBUTES@[i].0 == 2688 && RECORDING_ATTRIBUTES@[i].1 == 1520,
        i == 3 ==> RECORDING_ATTRIBUTES@[i].0 == 3840 && RECORDING_ATTRIBUTES@[i].1 == 2160,
{
    assert(i == 0 || i == 1 || i == 2 || i == 3);
}

} // verus!
