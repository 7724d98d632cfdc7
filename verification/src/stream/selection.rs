//! A controller's commands to live streams, and FFmpeg's arguments for them.

use vstd::prelude::*;
use vstd::string::*;
use crate::hsv::recording::{inside, items_inside};
use crate::text::{decimal, decimal_string, gives_option, has_argument, is_digit, lemma_decimal, option_at, push_decimal, string_views, times_given};
use crate::tlv8::{find, find_u16, find_u8, first_value, item_views, parse, parsed, Item, ItemView};
use crate::wire::{law_bytes_are_digits, le_value, lemma_le_value_bound, lemma_pow256_values, read_le, to_vec};

verus! {

/// What a controller selects when it starts a stream.
#[derive(Debug)]
pub struct Selection {
    pub payload_type: u8,
    pub max_mtu: u16,
    pub audio_payload_type: u8,
    pub audio_rate_hz: u32,
    pub audio_packet_time: u8,
    pub audio_max_bitrate: u16,
    /// The bits of a binary32 number of seconds.
    pub audio_rtcp_interval: u32,
}

impl Copy for Selection {

}

impl Clone for Selection {
    fn clone(&self) -> (r: Self)
        ensures
            r == *self,
    {
        *self
    }
}

/// A command to a stream. The session may be left out.
#[derive(Debug)]
pub enum StreamCommand {
    Start(Option<Vec<u8>>, Selection),
    /// End or suspend.
    End(Option<Vec<u8>>),
    /// Resume or reconfigure, which are not taken up.
    Ignored,
    Unknown(Option<u8>),
}

/// The mathematical value of a command.
pub ghost enum CommandView {
    Start(Option<Seq<u8>>, Selection),
    End(Option<Seq<u8>>),
    Ignored,
    Unknown(Option<u8>),
}

pub open spec fn id_view(id: Option<Vec<u8>>) -> Option<Seq<u8>> {
    match id {
        Some(id) => Some(id@),
        None => None,
    }
}

impl View for StreamCommand {
    type V = CommandView;

    open spec fn view(&self) -> CommandView {
        match *self {
            StreamCommand::Start(id, selection) => CommandView::Start(id_view(id), selection),
            StreamCommand::End(id) => CommandView::End(id_view(id)),
            StreamCommand::Ignored => CommandView::Ignored,
            StreamCommand::Unknown(command) => CommandView::Unknown(command),
        }
    }
}

/// The first byte of the first item with tag `tag`.
pub open spec fn byte_at(items: Seq<ItemView>, tag: u8) -> Option<u8> {
    match first_value(items, tag) {
        Some(v) if v.len() > 0 => Some(v[0]),
        _ => None,
    }
}

/// The two-byte number in the first item with tag `tag`.
pub open spec fn short_at(items: Seq<ItemView>, tag: u8) -> Option<u16> {
    match first_value(items, tag) {
        Some(v) if v.len() == 2 => Some(le_value(v) as u16),
        _ => None,
    }
}

pub open spec fn or_byte(value: Option<u8>, default: u8) -> u8 {
    match value {
        Some(n) => n,
        None => default,
    }
}

pub open spec fn or_short(value: Option<u16>, default: u16) -> u16 {
    match value {
        Some(n) => n,
        None => default,
    }
}

/// The sample rate of live audio: 8, 24 or else 16 kHz.
pub open spec fn live_sample_rate(code: Option<u8>) -> u32 {
    match code {
        Some(0) => 8000,
        Some(2) => 24000,
        _ => 16000,
    }
}

/// The bits of the number of seconds between RTCP packets; half a second where
/// there are not four bytes.
pub open spec fn rtcp_interval(items: Seq<ItemView>) -> u32 {
    match first_value(items, 0x04) {
        Some(v) if v.len() >= 4 => le_value(v.take(4)) as u32,
        _ => 0x3f00_0000,
    }
}

/// What a controller selects.
pub open spec fn selection_in(items: Seq<ItemView>) -> Selection {
    let rtp = inside(inside(items, 0x02), 0x04);
    let audio = inside(items, 0x03);
    let audio_rtp = inside(audio, 0x03);
    let audio_codec = inside(audio, 0x02);
    Selection {
        payload_type: or_byte(byte_at(rtp, 0x01), 99),
        max_mtu: or_short(short_at(rtp, 0x05), 1316),
        audio_payload_type: or_byte(byte_at(audio_rtp, 0x01), 110),
        audio_rate_hz: live_sample_rate(byte_at(audio_codec, 0x03)),
        audio_packet_time: or_byte(byte_at(audio_codec, 0x04), 20),
        audio_max_bitrate: or_short(short_at(audio_rtp, 0x03), 32),
        audio_rtcp_interval: rtcp_interval(audio_rtp),
    }
}

/// The command in a write to SelectedRTPStreamConfiguration.
pub open spec fn command_in(payload: Seq<u8>) -> CommandView {
    let items = parsed(payload);
    let control = inside(items, 0x01);
    let id = first_value(control, 0x01);
    match byte_at(control, 0x02) {
        Some(1) => CommandView::Start(id, selection_in(items)),
        Some(0) => CommandView::End(id),
        Some(2) => CommandView::End(id),
        Some(3) => CommandView::Ignored,
        Some(4) => CommandView::Ignored,
        other => CommandView::Unknown(other),
    }
}

fn parse_selection(items: &[Item]) -> (r: Selection)
    ensures
        r == selection_in(item_views(items@)),
{
    let video = items_inside(items, 0x02);
    let rtp = items_inside(&video, 0x04);
    let payload_type: u8 = match find_u8(&rtp, 0x01) {
        Some(n) => n,
        None => 99,
    };
    let max_mtu: u16 = match find_u16(&rtp, 0x05) {
        Some(n) => n,
        None => 1316,
    };
    let audio = items_inside(items, 0x03);
    let audio_rtp = items_inside(&audio, 0x03);
    let audio_payload_type: u8 = match find_u8(&audio_rtp, 0x01) {
        Some(n) => n,
        None => 110,
    };
    let audio_max_bitrate: u16 = match find_u16(&audio_rtp, 0x03) {
        Some(n) => n,
        None => 32,
    };
    let mut audio_rtcp_interval: u32 = 0x3f00_0000;
    if let Some(v) = find(&audio_rtp, 0x04) {
        if v.len() >= 4 {
            proof {
                assert(v@.subrange(0, 4) =~= v@.take(4));
                lemma_le_value_bound(v@.take(4));
                lemma_pow256_values();
            }
            audio_rtcp_interval = read_le(&v[0..4]) as u32;
        }
    }
    let audio_codec = items_inside(&audio, 0x02);
    let audio_packet_time: u8 = match find_u8(&audio_codec, 0x04) {
        Some(n) => n,
        None => 20,
    };
    let audio_rate_hz: u32 = match find_u8(&audio_codec, 0x03) {
        Some(0) => 8000,
        Some(2) => 24000,
        _ => 16000,
    };
    Selection {
        payload_type,
        max_mtu,
        audio_payload_type,
        audio_rate_hz,
        audio_packet_time,
        audio_max_bitrate,
        audio_rtcp_interval,
    }
}

/// Reads a write to SelectedRTPStreamConfiguration.
pub fn parse_command(payload: &[u8]) -> (r: StreamCommand)
    ensures
        r@ == command_in(payload@),
{
    let items = parse(payload);
    let control = items_inside(&items, 0x01);
    let id: Option<Vec<u8>> = match find(&control, 0x01) {
        Some(v) => Some(to_vec(v)),
        None => None,
    };
    match find_u8(&control, 0x02) {
        Some(1) => StreamCommand::Start(id, parse_selection(&items)),
        Some(0) => StreamCommand::End(id),
        Some(2) => StreamCommand::End(id),
        Some(3) => StreamCommand::Ignored,
        Some(4) => StreamCommand::Ignored,
        other => StreamCommand::Unknown(other),
    }
}

// --- FFmpeg ---

/// The size of video packets: what the controller takes, within FFmpeg's limits.
pub open spec fn packet_size(max_mtu: u16) -> nat {
    if max_mtu < 188 {
        188
    } else if max_mtu > 1378 {
        1378
    } else {
        max_mtu as nat
    }
}

/// Where FFmpeg sends video: to the proxy's ports.
pub open spec fn video_target(rtp_port: u16, rtcp_port: u16, max_mtu: u16) -> Seq<char> {
    "rtp://127.0.0.1:"@ + decimal(rtp_port as nat) + "?rtcpport="@ + decimal(rtcp_port as nat)
        + "&pkt_size="@ + decimal(packet_size(max_mtu))
}

/// FFmpeg's arguments for live video. The camera's own timestamps jump, so the
/// arrival time is the clock; H.264 parameters come with the session description,
/// so the input is not probed, which would delay the first packet.
pub open spec fn video_arguments_of(
    rtsp_url: Seq<char>,
    payload_type: u8,
    ssrc: u32,
    target: Seq<char>,
) -> Seq<Seq<char>> {
    seq![
        "-hide_banner"@,
        "-loglevel"@,
        "warning"@,
        "-fflags"@,
        "+genpts+nobuffer"@,
        "-flags"@,
        "low_delay"@,
        "-use_wallclock_as_timestamps"@,
        "1"@,
        "-probesize"@,
        "65536"@,
        "-analyzeduration"@,
        "0"@,
        "-rtsp_transport"@,
        "tcp"@,
        "-i"@,
        rtsp_url,
        "-map"@,
        "0:v:0"@,
        "-an"@,
        "-c:v"@,
        "copy"@,
        "-payload_type"@,
        decimal(payload_type as nat),
        "-ssrc"@,
        decimal(ssrc as nat),
        "-f"@,
        "rtp"@,
        target,
    ]
}

/// FFmpeg's arguments for live video.
pub fn video_arguments(
    rtsp_url: &str,
    payload_type: u8,
    ssrc: u32,
    rtp_port: u16,
    rtcp_port: u16,
    max_mtu: u16,
) -> (args: Vec<String>)
    ensures
        string_views(args@) == video_arguments_of(
            rtsp_url@,
            payload_type,
            ssrc,
            video_target(rtp_port, rtcp_port, max_mtu),
        ),
{
    let size: u16 = if max_mtu < 188 {
        188
    } else if max_mtu > 1378 {
        1378
    } else {
        max_mtu
    };
    let mut target = String::from_str("rtp://127.0.0.1:");
    push_decimal(&mut target, rtp_port as u64);
    target.append("?rtcpport=");
    push_decimal(&mut target, rtcp_port as u64);
    target.append("&pkt_size=");
    push_decimal(&mut target, size as u64);
    let mut args: Vec<String> = Vec::new();
    args.push(String::from_str("-hide_banner"));
    args.push(String::from_str("-loglevel"));
    args.push(String::from_str("warning"));
    args.push(String::from_str("-fflags"));
    args.push(String::from_str("+genpts+nobuffer"));
    args.push(String::from_str("-flags"));
    args.push(String::from_str("low_delay"));
    args.push(String::from_str("-use_wallclock_as_timestamps"));
    args.push(String::from_str("1"));
    args.push(String::from_str("-probesize"));
    args.push(String::from_str("65536"));
    args.push(String::from_str("-analyzeduration"));
    args.push(String::from_str("0"));
    args.push(String::from_str("-rtsp_transport"));
    args.push(String::from_str("tcp"));
    args.push(String::from_str("-i"));
    args.push(String::from_str(rtsp_url));
    args.push(String::from_str("-map"));
    args.push(String::from_str("0:v:0"));
    args.push(String::from_str("-an"));
    args.push(String::from_str("-c:v"));
    args.push(String::from_str("copy"));
    args.push(String::from_str("-payload_type"));
    args.push(decimal_string(payload_type as u64));
    args.push(String::from_str("-ssrc"));
    args.push(decimal_string(ssrc as u64));
    args.push(String::from_str("-f"));
    args.push(String::from_str("rtp"));
    args.push(target);
    assert(string_views(args@) =~= video_arguments_of(
        rtsp_url@,
        payload_type,
        ssrc,
        video_target(rtp_port, rtcp_port, max_mtu),
    ));
    args
}

/// The length of audio packets in milliseconds: 20, 40 or 60.
pub open spec fn packet_time(selected: u8) -> nat {
    if selected == 20 || selected == 40 || selected == 60 {
        selected as nat
    } else {
        20
    }
}

/// The bitrate of live audio in kilobits per second.
pub open spec fn audio_bitrate(max_bitrate: u16) -> nat {
    if max_bitrate < 16 {
        16
    } else if max_bitrate > 64 {
        64
    } else {
        max_bitrate as nat
    }
}

/// FFmpeg's arguments for live audio.
pub open spec fn audio_arguments_of(
    rtsp_url: Seq<char>,
    selection: Selection,
    ssrc: u32,
    rtp_port: u16,
    rtcp_port: u16,
) -> Seq<Seq<char>> {
    seq![
        "-hide_banner"@,
        "-loglevel"@,
        "warning"@,
        "-fflags"@,
        "+genpts+nobuffer"@,
        "-flags"@,
        "low_delay"@,
        "-use_wallclock_as_timestamps"@,
        "1"@,
        "-rtsp_transport"@,
        "tcp"@,
        "-allowed_media_types"@,
        "audio"@,
        "-i"@,
        rtsp_url,
        "-map"@,
        "0:a:0"@,
        "-vn"@,
        "-c:a"@,
        "libopus"@,
        "-application:a"@,
        "voip"@,
        "-vbr:a"@,
        "on"@,
        "-packet_loss:a"@,
        "5"@,
        "-fec:a"@,
        "1"@,
        "-frame_duration:a"@,
        decimal(packet_time(selection.audio_packet_time)),
        "-af"@,
        "aresample=async=1000:min_hard_comp=0.100:first_pts=0"@,
        "-ar"@,
        decimal(selection.audio_rate_hz as nat),
        "-ac"@,
        "1"@,
        "-b:a"@,
        decimal(audio_bitrate(selection.audio_max_bitrate)) + "k"@,
        "-payload_type"@,
        decimal(selection.audio_payload_type as nat),
        "-ssrc"@,
        decimal(ssrc as nat),
        "-f"@,
        "rtp"@,
        "rtp://127.0.0.1:"@ + decimal(rtp_port as nat) + "?rtcpport="@ + decimal(rtcp_port as nat),
    ]
}

/// FFmpeg's arguments for live audio.
pub fn audio_arguments(
    rtsp_url: &str,
    selection: &Selection,
    ssrc: u32,
    rtp_port: u16,
    rtcp_port: u16,
) -> (args: Vec<String>)
    ensures
        string_views(args@) == audio_arguments_of(
            rtsp_url@,
            *selection,
            ssrc,
            rtp_port,
            rtcp_port,
        ),
{
    let mut target = String::from_str("rtp://127.0.0.1:");
    push_decimal(&mut target, rtp_port as u64);
    target.append("?rtcpport=");
    push_decimal(&mut target, rtcp_port as u64);
    let time: u8 = match selection.audio_packet_time {
        20 => 20,
        40 => 40,
        60 => 60,
        _ => 20,
    };
    let rate: u16 = if selection.audio_max_bitrate < 16 {
        16
    } else if selection.audio_max_bitrate > 64 {
        64
    } else {
        selection.audio_max_bitrate
    };
    let mut bitrate = decimal_string(rate as u64);
    bitrate.append("k");
    let mut args: Vec<String> = Vec::new();
    args.push(String::from_str("-hide_banner"));
    args.push(String::from_str("-loglevel"));
    args.push(String::from_str("warning"));
    args.push(String::from_str("-fflags"));
    args.push(String::from_str("+genpts+nobuffer"));
    args.push(String::from_str("-flags"));
    args.push(String::from_str("low_delay"));
    args.push(String::from_str("-use_wallclock_as_timestamps"));
    args.push(String::from_str("1"));
    args.push(String::from_str("-rtsp_transport"));
    args.push(String::from_str("tcp"));
    args.push(String::from_str("-allowed_media_types"));
    args.push(String::from_str("audio"));
    args.push(String::from_str("-i"));
    args.push(String::from_str(rtsp_url));
    args.push(String::from_str("-map"));
    args.push(String::from_str("0:a:0"));
    args.push(String::from_str("-vn"));
    args.push(String::from_str("-c:a"));
    args.push(String::from_str("libopus"));
    args.push(String::from_str("-application:a"));
    args.push(String::from_str("voip"));
    args.push(String::from_str("-vbr:a"));
    args.push(String::from_str("on"));
    args.push(String::from_str("-packet_loss:a"));
    args.push(String::from_str("5"));
    args.push(String::from_str("-fec:a"));
    args.push(String::from_str("1"));
    args.push(String::from_str("-frame_duration:a"));
    args.push(decimal_string(time as u64));
    args.push(String::from_str("-af"));
    args.push(String::from_str("aresample=async=1000:min_hard_comp=0.100:first_pts=0"));
    args.push(String::from_str("-ar"));
    args.push(decimal_string(selection.audio_rate_hz as u64));
    args.push(String::from_str("-ac"));
    args.push(String::from_str("1"));
    args.push(String::from_str("-b:a"));
    args.push(bitrate);
    args.push(String::from_str("-payload_type"));
    args.push(decimal_string(selection.audio_payload_type as u64));
    args.push(String::from_str("-ssrc"));
    args.push(decimal_string(ssrc as u64));
    args.push(String::from_str("-f"));
    args.push(String::from_str("rtp"));
    args.push(target);
    assert(string_views(args@) =~= audio_arguments_of(
        rtsp_url@,
        *selection,
        ssrc,
        rtp_port,
        rtcp_port,
    ));
    args
}

/// How much slower the selected audio clock runs than the 48 kHz of Opus.
pub fn clock_ratio(audio_rate_hz: u32) -> (ratio: u32)
    ensures
        ratio == 48000int / (if audio_rate_hz == 0 {
            1int
        } else {
            audio_rate_hz as int
        }),
{
    if audio_rate_hz == 0 {
        48000
    } else {
        48000 / audio_rate_hz
    }
}

// --- What FFmpeg is told ---

/// FFmpeg copies the first video track of the camera's stream, and no sound, to the
/// proxy's ports as RTP, with the payload type and the source that the controller was
/// told; it takes the stream over TCP, without probing it, and stamps it by its arrival.
pub proof fn law_live_video_is_copied(
    rtsp_url: Seq<char>,
    payload_type: u8,
    ssrc: u32,
    rtp_port: u16,
    rtcp_port: u16,
    max_mtu: u16,
)
    ensures
        ({
            let target = video_target(rtp_port, rtcp_port, max_mtu);
            let args = video_arguments_of(rtsp_url, payload_type, ssrc, target);
            &&& args[0] == "-hide_banner"@
            &&& gives_option(args, 16, "-fflags"@, "+genpts+nobuffer"@)
            &&& gives_option(args, 16, "-flags"@, "low_delay"@)
            &&& gives_option(args, 16, "-use_wallclock_as_timestamps"@, "1"@)
            &&& gives_option(args, 16, "-probesize"@, "65536"@)
            &&& gives_option(args, 16, "-analyzeduration"@, "0"@)
            &&& gives_option(args, 16, "-rtsp_transport"@, "tcp"@)
            &&& gives_option(args, 16, "-map"@, "0:v:0"@)
            &&& gives_option(args, 16, "-c:v"@, "copy"@)
            &&& gives_option(args, 16, "-payload_type"@, decimal(payload_type as nat))
            &&& gives_option(args, 16, "-ssrc"@, decimal(ssrc as nat))
            &&& gives_option(args, 16, "-i"@, rtsp_url)
            &&& has_argument(args, "-an"@)
            &&& args.len() >= 3 && args[args.len() - 3] == "-f"@ && args[args.len() - 2] == "rtp"@
            &&& args.last() == target
        }),
{
    let target = video_target(rtp_port, rtcp_port, max_mtu);
    let args = video_arguments_of(rtsp_url, payload_type, ssrc, target);
    reveal_strlit("-hide_banner");
    reveal_strlit("-loglevel");
    reveal_strlit("warning");
    reveal_strlit("-fflags");
    reveal_strlit("+genpts+nobuffer");
    reveal_strlit("-flags");
    reveal_strlit("low_delay");
    reveal_strlit("-use_wallclock_as_timestamps");
    reveal_strlit("1");
    reveal_strlit("-probesize");
    reveal_strlit("65536");
    reveal_strlit("-analyzeduration");
    reveal_strlit("0");
    reveal_strlit("-rtsp_transport");
    reveal_strlit("tcp");
    reveal_strlit("-i");
    reveal_strlit("-map");
    reveal_strlit("0:v:0");
    reveal_strlit("-an");
    reveal_strlit("-c:v");
    reveal_strlit("copy");
    reveal_strlit("-payload_type");
    reveal_strlit("-ssrc");
    reveal_strlit("-f");
    reveal_strlit("rtp");
    assert("-hide_banner"@.len() == 12);
    assert("-loglevel"@.len() == 9 && "-loglevel"@[0] == '-');
    assert("warning"@.len() == 7 && "warning"@[0] == 'w');
    assert("-fflags"@.len() == 7 && "-fflags"@[0] == '-');
    assert("+genpts+nobuffer"@.len() == 16 && "+genpts+nobuffer"@[0] == '+');
    assert("-flags"@.len() == 6);
    assert("low_delay"@.len() == 9 && "low_delay"@[0] == 'l');
    assert("-use_wallclock_as_timestamps"@.len() == 28);
    assert("1"@.len() == 1 && "1"@[0] == '1');
    assert("-probesize"@.len() == 10);
    assert("65536"@.len() == 5 && "65536"@[0] == '6');
    assert("-analyzeduration"@.len() == 16 && "-analyzeduration"@[0] == '-');
    assert("0"@.len() == 1 && "0"@[0] == '0');
    assert("-rtsp_transport"@.len() == 15);
    assert("tcp"@.len() == 3 && "tcp"@[0] == 't');
    assert("-i"@.len() == 2 && "-i"@[1] == 'i');
    assert("-map"@.len() == 4 && "-map"@[0] == '-' && "-map"@[1] == 'm');
    assert("0:v:0"@.len() == 5 && "0:v:0"@[0] == '0');
    assert("-an"@.len() == 3 && "-an"@[0] == '-');
    assert("-c:v"@.len() == 4 && "-c:v"@[0] == '-' && "-c:v"@[1] == 'c');
    assert("copy"@.len() == 4 && "copy"@[0] == 'c');
    assert("-payload_type"@.len() == 13);
    assert("-ssrc"@.len() == 5 && "-ssrc"@[0] == '-');
    assert("-f"@.len() == 2 && "-f"@[1] == 'f');
    assert("rtp"@.len() == 3 && "rtp"@[0] == 'r');
    reveal_strlit("rtp://127.0.0.1:");
    assert("rtp://127.0.0.1:"@[0] == 'r' && "rtp://127.0.0.1:"@.len() == 16);
    reveal_with_fuel(times_given, 30);
    assert(args.len() == 29);
    lemma_decimal(payload_type as nat);
    lemma_decimal(ssrc as nat);
    assert(target[0] == 'r');
    assert(is_digit(decimal(payload_type as nat)[0]));
    assert(is_digit(decimal(ssrc as nat)[0]));
    assert("-payload_type"@[0] == '-');
    assert("-rtsp_transport"@[0] == '-');
    assert("-probesize"@[0] == '-');
    assert("-use_wallclock_as_timestamps"@[0] == '-');
    assert("-flags"@[0] == '-');
    assert(option_at(args, 16, "-fflags"@, 3) && args[4] == "+genpts+nobuffer"@);
    assert(option_at(args, 16, "-flags"@, 5) && args[6] == "low_delay"@);
    assert(option_at(args, 16, "-use_wallclock_as_timestamps"@, 7) && args[8] == "1"@);
    assert(option_at(args, 16, "-probesize"@, 9) && args[10] == "65536"@);
    assert(option_at(args, 16, "-analyzeduration"@, 11) && args[12] == "0"@);
    assert(option_at(args, 16, "-rtsp_transport"@, 13) && args[14] == "tcp"@);
    assert(option_at(args, 16, "-i"@, 15) && args[16] == rtsp_url);
    assert(option_at(args, 16, "-map"@, 17) && args[18] == "0:v:0"@);
    assert(option_at(args, 16, "-c:v"@, 20) && args[21] == "copy"@);
    assert(option_at(args, 16, "-payload_type"@, 22) && args[23] == decimal(payload_type as nat));
    assert(option_at(args, 16, "-ssrc"@, 24) && args[25] == decimal(ssrc as nat));
    assert(args[19] == "-an"@);
}

/// FFmpeg encodes the first audio track of the camera's stream, and no picture, as Opus
/// in one channel, at the rate, in packets of the length and within the bitrate that the
/// controller selected, and sends it to the proxy's ports as RTP, with the payload type
/// and the source that the controller was told.
#[verifier::rlimit(60)]
pub proof fn law_live_audio_is_encoded_as_selected(
    rtsp_url: Seq<char>,
    selection: Selection,
    ssrc: u32,
    rtp_port: u16,
    rtcp_port: u16,
)
    ensures
        ({
            let target = "rtp://127.0.0.1:"@ + decimal(rtp_port as nat) + "?rtcpport="@ + decimal(rtcp_port as nat);
            let time = decimal(packet_time(selection.audio_packet_time));
            let bitrate = decimal(audio_bitrate(selection.audio_max_bitrate)) + "k"@;
            let args = audio_arguments_of(rtsp_url, selection, ssrc, rtp_port, rtcp_port);
            &&& args[0] == "-hide_banner"@
            &&& gives_option(args, 14, "-loglevel"@, "warning"@)
            &&& gives_option(args, 14, "-fflags"@, "+genpts+nobuffer"@)
            &&& gives_option(args, 14, "-flags"@, "low_delay"@)
            &&& gives_option(args, 14, "-use_wallclock_as_timestamps"@, "1"@)
            &&& gives_option(args, 14, "-rtsp_transport"@, "tcp"@)
            &&& gives_option(args, 14, "-allowed_media_types"@, "audio"@)
            &&& gives_option(args, 14, "-i"@, rtsp_url)
            &&& gives_option(args, 14, "-map"@, "0:a:0"@)
            &&& gives_option(args, 14, "-c:a"@, "libopus"@)
            &&& gives_option(args, 14, "-application:a"@, "voip"@)
            &&& gives_option(args, 14, "-vbr:a"@, "on"@)
            &&& gives_option(args, 14, "-packet_loss:a"@, "5"@)
            &&& gives_option(args, 14, "-fec:a"@, "1"@)
            &&& gives_option(args, 14, "-frame_duration:a"@, time)
            &&& gives_option(args, 14, "-af"@, "aresample=async=1000:min_hard_comp=0.100:first_pts=0"@)
            &&& gives_option(args, 14, "-ar"@, decimal(selection.audio_rate_hz as nat))
            &&& gives_option(args, 14, "-ac"@, "1"@)
            &&& gives_option(args, 14, "-b:a"@, bitrate)
            &&& gives_option(args, 14, "-payload_type"@, decimal(selection.audio_payload_type as nat))
            &&& gives_option(args, 14, "-ssrc"@, decimal(ssrc as nat))
            &&& has_argument(args, "-vn"@)
            &&& args.len() >= 3 && args[args.len() - 3] == "-f"@ && args[args.len() - 2] == "rtp"@
            &&& args.last() == target
        }),
{
    let target = "rtp://127.0.0.1:"@ + decimal(rtp_port as nat) + "?rtcpport="@ + decimal(rtcp_port as nat);
    let time = decimal(packet_time(selection.audio_packet_time));
    let bitrate = decimal(audio_bitrate(selection.audio_max_bitrate)) + "k"@;
    let args = audio_arguments_of(rtsp_url, selection, ssrc, rtp_port, rtcp_port);
    reveal_strlit("-hide_banner");
    reveal_strlit("-loglevel");
    reveal_strlit("warning");
    reveal_strlit("-fflags");
    reveal_strlit("+genpts+nobuffer");
    reveal_strlit("-flags");
    reveal_strlit("low_delay");
    reveal_strlit("-use_wallclock_as_timestamps");
    reveal_strlit("1");
    reveal_strlit("-rtsp_transport");
    reveal_strlit("tcp");
    reveal_strlit("-allowed_media_types");
    reveal_strlit("audio");
    reveal_strlit("-i");
    reveal_strlit("-map");
    reveal_strlit("0:a:0");
    reveal_strlit("-vn");
    reveal_strlit("-c:a");
    reveal_strlit("libopus");
    reveal_strlit("-application:a");
    reveal_strlit("voip");
    reveal_strlit("-vbr:a");
    reveal_strlit("on");
    reveal_strlit("-packet_loss:a");
    reveal_strlit("5");
    reveal_strlit("-fec:a");
    reveal_strlit("-frame_duration:a");
    reveal_strlit("-af");
    reveal_strlit("aresample=async=1000:min_hard_comp=0.100:first_pts=0");
    reveal_strlit("-ar");
    reveal_strlit("-ac");
    reveal_strlit("-b:a");
    reveal_strlit("-payload_type");
    reveal_strlit("-ssrc");
    reveal_strlit("-f");
    reveal_strlit("rtp");
    assert("-hide_banner"@.len() == 12);
    assert("-loglevel"@.len() == 9 && "-loglevel"@[0] == '-');
    assert("warning"@.len() == 7 && "warning"@[0] == 'w');
    assert("-fflags"@.len() == 7 && "-fflags"@[0] == '-');
    assert("+genpts+nobuffer"@.len() == 16);
    assert("-flags"@.len() == 6 && "-flags"@[1] == 'f' && "-flags"@[2] == 'l');
    assert("low_delay"@.len() == 9 && "low_delay"@[0] == 'l');
    assert("-use_wallclock_as_timestamps"@.len() == 28);
    assert("1"@.len() == 1 && "1"@[0] == '1');
    assert("-rtsp_transport"@.len() == 15);
    assert("tcp"@.len() == 3 && "tcp"@[0] == 't');
    assert("-allowed_media_types"@.len() == 20);
    assert("audio"@.len() == 5 && "audio"@[0] == 'a');
    assert("-i"@.len() == 2 && "-i"@[0] == '-' && "-i"@[1] == 'i');
    assert("-map"@.len() == 4 && "-map"@[0] == '-' && "-map"@[1] == 'm');
    assert("0:a:0"@.len() == 5 && "0:a:0"@[0] == '0');
    assert("-vn"@.len() == 3 && "-vn"@[0] == '-' && "-vn"@[1] == 'v');
    assert("-c:a"@.len() == 4 && "-c:a"@[0] == '-' && "-c:a"@[1] == 'c');
    assert("libopus"@.len() == 7 && "libopus"@[0] == 'l');
    assert("-application:a"@.len() == 14 && "-application:a"@[1] == 'a');
    assert("voip"@.len() == 4 && "voip"@[0] == 'v');
    assert("-vbr:a"@.len() == 6 && "-vbr:a"@[1] == 'v');
    assert("on"@.len() == 2 && "on"@[0] == 'o');
    assert("-packet_loss:a"@.len() == 14 && "-packet_loss:a"@[1] == 'p');
    assert("5"@.len() == 1 && "5"@[0] == '5');
    assert("-fec:a"@.len() == 6 && "-fec:a"@[1] == 'f' && "-fec:a"@[2] == 'e');
    assert("-frame_duration:a"@.len() == 17);
    assert("-af"@.len() == 3 && "-af"@[0] == '-' && "-af"@[1] == 'a' && "-af"@[2] == 'f');
    assert("aresample=async=1000:min_hard_comp=0.100:first_pts=0"@.len() == 52);
    assert("-ar"@.len() == 3 && "-ar"@[0] == '-' && "-ar"@[1] == 'a' && "-ar"@[2] == 'r');
    assert("-ac"@.len() == 3 && "-ac"@[0] == '-' && "-ac"@[1] == 'a' && "-ac"@[2] == 'c');
    assert("-b:a"@.len() == 4 && "-b:a"@[0] == '-' && "-b:a"@[1] == 'b');
    assert("-payload_type"@.len() == 13);
    assert("-ssrc"@.len() == 5 && "-ssrc"@[0] == '-');
    assert("-f"@.len() == 2 && "-f"@[0] == '-' && "-f"@[1] == 'f');
    assert("rtp"@.len() == 3 && "rtp"@[0] == 'r');
    assert("-loglevel"@[0] == '-');
    assert("-fflags"@[0] == '-');
    assert("-flags"@[0] == '-');
    assert("-use_wallclock_as_timestamps"@[0] == '-');
    assert("-rtsp_transport"@[0] == '-');
    assert("-allowed_media_types"@[0] == '-');
    assert("-i"@[0] == '-');
    assert("-map"@[0] == '-');
    assert("-c:a"@[0] == '-');
    assert("-application:a"@[0] == '-');
    assert("-vbr:a"@[0] == '-');
    assert("-packet_loss:a"@[0] == '-');
    assert("-fec:a"@[0] == '-');
    assert("-frame_duration:a"@[0] == '-');
    assert("-af"@[0] == '-');
    assert("-ar"@[0] == '-');
    assert("-ac"@[0] == '-');
    assert("-b:a"@[0] == '-');
    assert("-payload_type"@[0] == '-');
    assert("-ssrc"@[0] == '-');
    assert("-f"@[0] == '-');
    reveal_with_fuel(times_given, 46);
    assert(args.len() == 45);
    reveal_strlit("rtp://127.0.0.1:");
    assert("rtp://127.0.0.1:"@[0] == 'r' && "rtp://127.0.0.1:"@.len() == 16);
    lemma_decimal(packet_time(selection.audio_packet_time));
    lemma_decimal(selection.audio_rate_hz as nat);
    lemma_decimal(audio_bitrate(selection.audio_max_bitrate));
    lemma_decimal(selection.audio_payload_type as nat);
    lemma_decimal(ssrc as nat);
    assert(target[0] == 'r');
    assert(is_digit(time[0]) && is_digit(bitrate[0]));
    assert(is_digit(decimal(selection.audio_rate_hz as nat)[0]));
    assert(is_digit(decimal(selection.audio_payload_type as nat)[0]));
    assert(is_digit(decimal(ssrc as nat)[0]));
    assert(args[0] == "-hide_banner"@);
    assert(args[1] == "-loglevel"@);
    assert(args[2] == "warning"@);
    assert(args[3] == "-fflags"@);
    assert(args[4] == "+genpts+nobuffer"@);
    assert(args[5] == "-flags"@);
    assert(args[6] == "low_delay"@);
    assert(args[7] == "-use_wallclock_as_timestamps"@);
    assert(args[8] == "1"@);
    assert(args[9] == "-rtsp_transport"@);
    assert(args[10] == "tcp"@);
    assert(args[11] == "-allowed_media_types"@);
    assert(args[12] == "audio"@);
    assert(args[13] == "-i"@);
    assert(args[14] == rtsp_url);
    assert(args[15] == "-map"@);
    assert(args[16] == "0:a:0"@);
    assert(args[17] == "-vn"@);
    assert(args[18] == "-c:a"@);
    assert(args[19] == "libopus"@);
    assert(args[20] == "-application:a"@);
    assert(args[21] == "voip"@);
    assert(args[22] == "-vbr:a"@);
    assert(args[23] == "on"@);
    assert(args[24] == "-packet_loss:a"@);
    assert(args[25] == "5"@);
    assert(args[26] == "-fec:a"@);
    assert(args[27] == "1"@);
    assert(args[28] == "-frame_duration:a"@);
    assert(args[29] == time);
    assert(args[30] == "-af"@);
    assert(args[31] == "aresample=async=1000:min_hard_comp=0.100:first_pts=0"@);
    assert(args[32] == "-ar"@);
    assert(args[33] == decimal(selection.audio_rate_hz as nat));
    assert(args[34] == "-ac"@);
    assert(args[35] == "1"@);
    assert(args[36] == "-b:a"@);
    assert(args[37] == bitrate);
    assert(args[38] == "-payload_type"@);
    assert(args[39] == decimal(selection.audio_payload_type as nat));
    assert(args[40] == "-ssrc"@);
    assert(args[41] == decimal(ssrc as nat));
    assert(args[42] == "-f"@);
    assert(args[43] == "rtp"@);
    assert(args[44] == target);
    assert(option_at(args, 14, "-loglevel"@, 1) && args[2] == "warning"@);
    assert(option_at(args, 14, "-fflags"@, 3) && args[4] == "+genpts+nobuffer"@);
    assert(option_at(args, 14, "-flags"@, 5) && args[6] == "low_delay"@);
    assert(option_at(args, 14, "-use_wallclock_as_timestamps"@, 7) && args[8] == "1"@);
    assert(option_at(args, 14, "-rtsp_transport"@, 9) && args[10] == "tcp"@);
    assert(option_at(args, 14, "-allowed_media_types"@, 11) && args[12] == "audio"@);
    assert(option_at(args, 14, "-i"@, 13) && args[14] == rtsp_url);
    assert(option_at(args, 14, "-map"@, 15) && args[16] == "0:a:0"@);
    assert(option_at(args, 14, "-c:a"@, 18) && args[19] == "libopus"@);
    assert(option_at(args, 14, "-application:a"@, 20) && args[21] == "voip"@);
    assert(option_at(args, 14, "-vbr:a"@, 22) && args[23] == "on"@);
    assert(option_at(args, 14, "-packet_loss:a"@, 24) && args[25] == "5"@);
    assert(option_at(args, 14, "-fec:a"@, 26) && args[27] == "1"@);
    assert(option_at(args, 14, "-frame_duration:a"@, 28) && args[29] == time);
    assert(option_at(args, 14, "-af"@, 30) && args[31] == "aresample=async=1000:min_hard_comp=0.100:first_pts=0"@);
    assert(option_at(args, 14, "-ar"@, 32) && args[33] == decimal(selection.audio_rate_hz as nat));
    assert(option_at(args, 14, "-ac"@, 34) && args[35] == "1"@);
    assert(option_at(args, 14, "-b:a"@, 36) && args[37] == bitrate);
    assert(option_at(args, 14, "-payload_type"@, 38) && args[39] == decimal(selection.audio_payload_type as nat));
    assert(option_at(args, 14, "-ssrc"@, 40) && args[41] == decimal(ssrc as nat));
    assert(option_at(args, 14, "-f"@, 42) && args[43] == "rtp"@);
    assert(args[17] == "-vn"@);
}

/// Packets of live audio last 20, 40 or 60 milliseconds, as selected, or else 20; its
/// bitrate is the selected one, from 16 to 64 kilobits per second; video packets have
/// the selected size, from 188 to 1378 bytes, and the target names the proxy's two
/// ports on this host and that size.
pub proof fn law_live_streams_stay_within_limits(
    packet_time_ms: u8,
    max_bitrate: u16,
    max_mtu: u16,
    rtp_port: u16,
    rtcp_port: u16,
)
    ensures
        packet_time(20) == 20 && packet_time(40) == 40 && packet_time(60) == 60,
        packet_time_ms != 20 && packet_time_ms != 40 && packet_time_ms != 60 ==> packet_time(
            packet_time_ms,
        ) == 20,
        16 <= audio_bitrate(max_bitrate) <= 64,
        16 <= max_bitrate <= 64 ==> audio_bitrate(max_bitrate) == max_bitrate,
        max_bitrate <= 16 ==> audio_bitrate(max_bitrate) == 16,
        max_bitrate >= 64 ==> audio_bitrate(max_bitrate) == 64,
        188 <= packet_size(max_mtu) <= 1378,
        188 <= max_mtu <= 1378 ==> packet_size(max_mtu) == max_mtu,
        max_mtu <= 188 ==> packet_size(max_mtu) == 188,
        max_mtu >= 1378 ==> packet_size(max_mtu) == 1378,
        video_target(rtp_port, rtcp_port, max_mtu) == "rtp://127.0.0.1:"@ + decimal(rtp_port as nat)
            + "?rtcpport="@ + decimal(rtcp_port as nat) + "&pkt_size="@ + decimal(
            packet_size(max_mtu),
        ),
{
}

/// A command is read out of its session control: 1 starts a stream, 0 and 2 end it, 3
/// and 4 are not taken up, and anything else is unknown. The session's identifier is the
/// one in the control, where there is one.
pub proof fn law_commands_are_read_by_their_code(payload: Seq<u8>)
    ensures
        ({
            let control = inside(parsed(payload), 1);
            let id = first_value(control, 1);
            let code = byte_at(control, 2);
            let command = command_in(payload);
            &&& code == Some(1u8) ==> command == CommandView::Start(id, selection_in(parsed(payload)))
            &&& code == Some(0u8) || code == Some(2u8) ==> command == CommandView::End(id)
            &&& code == Some(3u8) || code == Some(4u8) ==> command == CommandView::Ignored
            &&& (code matches Some(n) ==> n > 4) ==> command == CommandView::Unknown(code)
        }),
{
}

/// A selection holds what the controller sent, each value at its own place: the RTP
/// parameters of the video under 2 and 4, those of the audio under 3 and 3, and the
/// audio codec under 3 and 2. What was not sent has its default.
pub proof fn law_a_selection_is_what_was_sent(items: Seq<ItemView>)
    ensures
        ({
            let s = selection_in(items);
            let video_rtp = inside(inside(items, 2), 4);
            let audio_rtp = inside(inside(items, 3), 3);
            let codec = inside(inside(items, 3), 2);
            &&& match byte_at(video_rtp, 1) {
                Some(n) => s.payload_type == n,
                None => s.payload_type == 99,
            }
            &&& match short_at(video_rtp, 5) {
                Some(n) => s.max_mtu == n,
                None => s.max_mtu == 1316,
            }
            &&& match byte_at(audio_rtp, 1) {
                Some(n) => s.audio_payload_type == n,
                None => s.audio_payload_type == 110,
            }
            &&& match short_at(audio_rtp, 3) {
                Some(n) => s.audio_max_bitrate == n,
                None => s.audio_max_bitrate == 32,
            }
            &&& match byte_at(codec, 4) {
                Some(n) => s.audio_packet_time == n,
                None => s.audio_packet_time == 20,
            }
            &&& byte_at(codec, 3) == Some(0u8) ==> s.audio_rate_hz == 8000
            &&& byte_at(codec, 3) == Some(1u8) ==> s.audio_rate_hz == 16000
            &&& byte_at(codec, 3) == Some(2u8) ==> s.audio_rate_hz == 24000
            &&& byte_at(codec, 3) is None ==> s.audio_rate_hz == 16000
            &&& match first_value(audio_rtp, 4) {
                Some(v) => if v.len() >= 4 {
                    s.audio_rtcp_interval == (v[0] + 0x100 * v[1] + 0x1_0000 * v[2] + 0x100_0000
                        * v[3]) as u32
                } else {
                    s.audio_rtcp_interval == 0x3f00_0000
                },
                None => s.audio_rtcp_interval == 0x3f00_0000,
            }
        }),
{
    let audio_rtp = inside(inside(items, 3), 3);
    if let Some(v) = first_value(audio_rtp, 4) {
        if v.len() >= 4 {
            assert(v.take(4) =~= seq![v[0], v[1], v[2], v[3]]);
            law_bytes_are_digits(0, v[0], v[1], v[2], v[3]);
        }
    }
}

/// Of a byte the first counts, and a short number has two bytes, the lower one first; a
/// value of another length is no such number.
pub proof fn law_selected_values_have_their_bytes(items: Seq<ItemView>, tag: u8)
    ensures
        match first_value(items, tag) {
            Some(v) => {
                &&& v.len() > 0 ==> byte_at(items, tag) == Some(v[0])
                &&& v.len() == 0 ==> byte_at(items, tag) is None
                &&& v.len() == 2 ==> short_at(items, tag) == Some((v[0] + 256 * v[1]) as u16)
                &&& v.len() != 2 ==> short_at(items, tag) is None
            },
            None => byte_at(items, tag) is None && short_at(items, tag) is None,
        },
{
    if let Some(v) = first_value(items, tag) {
        if v.len() == 2 {
            assert(v =~= seq![v[0], v[1]]);
            law_bytes_are_digits(0, v[0], v[1], 0, 0);
        }
    }
}

} // verus!
