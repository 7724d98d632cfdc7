//! The live-view substream: the profiles it is brought to, and how the camera's
//! answers decide which one is used.

use vstd::prelude::*;
use vstd::string::*;
use super::capabilities::VideoProfile;
use super::config::{literal_views, SettingView};
use super::readback::{any_line_starts, line_prefix, some_line_starts};
use crate::text::{chars_of, decimal, decimal_string, join, joined, lines, lines_of, parse_unsigned, parsed_unsigned, push_decimal, seq_views, spells, starts, starts_with, string_views, trim, trimmed};

verus! {

/// The live profile of the second substream.
pub open spec fn full_live_profile() -> VideoProfile {
    VideoProfile { width: 1920, height: 1080, fps: 15, bitrate_kbps: 4096 }
}

/// The live profile that every substream has.
pub open spec fn basic_live_profile() -> VideoProfile {
    VideoProfile { width: 1280, height: 720, fps: 15, bitrate_kbps: 2048 }
}

impl VideoProfile {
    pub fn live_1080p() -> (p: VideoProfile)
        ensures
            p == full_live_profile(),
            p.width == 1920 && p.height == 1080 && p.fps == 15 && p.bitrate_kbps == 4096,
    {
        VideoProfile { width: 1920, height: 1080, fps: 15, bitrate_kbps: 4096 }
    }

    pub fn live_720p() -> (p: VideoProfile)
        ensures
            p == basic_live_profile(),
            p.width == 1280 && p.height == 720 && p.fps == 15 && p.bitrate_kbps == 2048,
    {
        VideoProfile { width: 1280, height: 720, fps: 15, bitrate_kbps: 2048 }
    }
}

/// How a line that gives a field of substream `idx` starts.
pub open spec fn field_prefix(idx: nat, name: Seq<char>) -> Seq<char> {
    "table.Encode[0].ExtraFormat["@ + decimal(idx) + "]."@ + name + "="@
}

/// What follows a prefix in the first line that starts with it, without white space
/// around it.
pub open spec fn first_field(lines: Seq<Seq<char>>, prefix: Seq<char>) -> Option<Seq<char>>
    decreases lines.len(),
{
    if lines.len() == 0 {
        None
    } else if starts(lines[0], prefix) {
        Some(trimmed(lines[0].skip(prefix.len() as int)))
    } else {
        first_field(lines.skip(1), prefix)
    }
}

/// A field of substream `idx` in a printed configuration.
pub open spec fn live_field(body: Seq<char>, idx: nat, name: Seq<char>) -> Option<Seq<char>> {
    first_field(lines_of(body), field_prefix(idx, name))
}

/// A number in a field of substream `idx`.
pub open spec fn live_number(body: Seq<char>, idx: nat, name: Seq<char>, max: nat) -> Option<nat> {
    match live_field(body, idx, name) {
        Some(text) => parsed_unsigned(text, max),
        None => None,
    }
}

/// The video mode of substream `idx`, where all of it is there.
pub open spec fn live_profile(body: Seq<char>, idx: nat) -> Option<VideoProfile> {
    let width = live_number(body, idx, "Video.Width"@, u16::MAX as nat);
    let height = live_number(body, idx, "Video.Height"@, u16::MAX as nat);
    let fps = live_number(body, idx, "Video.FPS"@, u8::MAX as nat);
    let bitrate = live_number(body, idx, "Video.BitRate"@, u32::MAX as nat);
    if width is Some && height is Some && fps is Some && bitrate is Some {
        Some(
            VideoProfile {
                width: width->0 as u16,
                height: height->0 as u16,
                fps: fps->0 as u8,
                bitrate_kbps: bitrate->0 as u32,
            },
        )
    } else {
        None
    }
}

/// Whether substream `idx` has exactly the profile that its packets can be passed
/// on with: the mode, H.264 High at the highest quality, variable bit rate, and a
/// key frame every second.
pub open spec fn live_matches(body: Seq<char>, idx: nat, expected: VideoProfile) -> bool {
    &&& live_profile(body, idx) == Some(expected)
    &&& live_field(body, idx, "VideoEnable"@) == Some("true"@)
    &&& live_field(body, idx, "Video.Compression"@) == Some("H.264"@)
    &&& live_number(body, idx, "Video.GOP"@, u32::MAX as nat) == Some(expected.fps as nat)
    &&& live_field(body, idx, "Video.BitRateControl"@) == Some("VBR"@)
    &&& live_field(body, idx, "Video.Profile"@) == Some("High"@)
    &&& live_field(body, idx, "Video.Quality"@) == Some("6"@)
}

/// A field of substream `idx` in a printed configuration.
pub fn live_config_field(body: &str, idx: u8, name: &str) -> (r: Option<Vec<char>>)
    ensures
        match r {
            Some(v) => live_field(body@, idx as nat, name@) == Some(v@),
            None => live_field(body@, idx as nat, name@) is None,
        },
{
    let mut prefix = String::from_str("table.Encode[0].ExtraFormat[");
    push_decimal(&mut prefix, idx as u64);
    prefix.append("].");
    prefix.append(name);
    prefix.append("=");
    let prefix = chars_of(prefix.as_str());
    let text = chars_of(body);
    let all = lines(text.as_slice());
    let ghost views = lines_of(body@);
    let ghost p = field_prefix(idx as nat, name@);
    let mut i: usize = 0;
    assert(views.skip(0) =~= views);
    while i < all.len()
        invariant
            i <= all@.len(),
            views == seq_views(all@),
            views == lines_of(body@),
            prefix@ == p,
            p == field_prefix(idx as nat, name@),
            first_field(views, p) == first_field(views.skip(i as int), p),
        decreases all@.len() - i,
    {
        let line = all[i].as_slice();
        assert(views.skip(i as int)[0] == line@);
        if starts_with(line, prefix.as_slice()) {
            let rest = &line[prefix.len()..line.len()];
            assert(rest@ =~= line@.skip(p.len() as int));
            return Some(trim(rest));
        }
        assert(views.skip(i as int).skip(1) =~= views.skip(i + 1));
        i = i + 1;
    }
    None
}

fn live_config_number(body: &str, idx: u8, name: &str, max: u64) -> (r: Option<u64>)
    ensures
        match r {
            Some(n) => live_number(body@, idx as nat, name@, max as nat) == Some(n as nat) && n <= max,
            None => live_number(body@, idx as nat, name@, max as nat) is None,
        },
{
    match live_config_field(body, idx, name) {
        Some(text) => parse_unsigned(text.as_slice(), max),
        None => None,
    }
}

fn live_field_is(body: &str, idx: u8, name: &str, value: &str) -> (r: bool)
    ensures
        r == (live_field(body@, idx as nat, name@) == Some(value@)),
{
    match live_config_field(body, idx, name) {
        Some(text) => spells(text.as_slice(), value),
        None => false,
    }
}

/// The video mode of substream `idx`.
pub fn live_profile_from_config(body: &str, idx: u8) -> (r: Option<VideoProfile>)
    ensures
        r == live_profile(body@, idx as nat),
{
    let width = live_config_number(body, idx, "Video.Width", 65535);
    let height = live_config_number(body, idx, "Video.Height", 65535);
    let fps = live_config_number(body, idx, "Video.FPS", 255);
    let bitrate = live_config_number(body, idx, "Video.BitRate", 0xffff_ffff);
    match (width, height, fps, bitrate) {
        (Some(w), Some(h), Some(f), Some(b)) => Some(
            VideoProfile { width: w as u16, height: h as u16, fps: f as u8, bitrate_kbps: b as u32 },
        ),
        _ => None,
    }
}

/// Whether substream `idx` has exactly the expected profile.
pub fn live_config_matches(body: &str, idx: u8, expected: VideoProfile) -> (r: bool)
    ensures
        r == live_matches(body@, idx as nat, expected),
{
    let profile_same: bool = match live_profile_from_config(body, idx) {
        Some(profile) => profile == expected,
        None => false,
    };
    let gop_same: bool = match live_config_number(body, idx, "Video.GOP", 0xffff_ffff) {
        Some(gop) => gop == expected.fps as u64,
        None => false,
    };
    profile_same && live_field_is(body, idx, "VideoEnable", "true") && live_field_is(
        body,
        idx,
        "Video.Compression",
        "H.264",
    ) && gop_same && live_field_is(body, idx, "Video.BitRateControl", "VBR") && live_field_is(
        body,
        idx,
        "Video.Profile",
        "High",
    ) && live_field_is(body, idx, "Video.Quality", "6")
}

// --- Asking for a profile ---

/// The fields of a live profile that are the same for every mode.
pub const LIVE_FIELDS: [(&'static str, &'static str); 13] = [
    ("Video.BitRateControl", "VBR"),
    ("Video.Profile", "High"),
    ("Video.Quality", "6"),
    ("Video.Pack", "DHAV"),
    ("Video.Priority", "0"),
    ("Video.SVCTLayer", "1"),
    ("AudioEnable", "true"),
    ("Audio.Compression", "AAC"),
    ("Audio.Bitrate", "64"),
    ("Audio.Depth", "16"),
    ("Audio.Channels%5B0%5D", "0"),
    ("Audio.Pack", "DHAV"),
    ("Audio.Frequency", "16000"),
];

/// The fields of a live profile and their values.
pub open spec fn live_fields(profile: VideoProfile) -> Seq<SettingView> {
    seq![
        ("VideoEnable"@, "true"@),
        ("Video.Compression"@, "H.264"@),
        (
            "Video.resolution"@,
            decimal(profile.width as nat) + "x"@ + decimal(profile.height as nat),
        ),
        ("Video.Width"@, decimal(profile.width as nat)),
        ("Video.Height"@, decimal(profile.height as nat)),
        ("Video.FPS"@, decimal(profile.fps as nat)),
        ("Video.GOP"@, decimal(profile.fps as nat)),
        ("Video.BitRate"@, decimal(profile.bitrate_kbps as nat)),
    ] + literal_views(LIVE_FIELDS@)
}

/// One assignment in a request for substream `idx`.
pub open spec fn assignment(idx: nat, field: Seq<char>, value: Seq<char>) -> Seq<char> {
    "Encode%5B0%5D.ExtraFormat%5B"@ + decimal(idx) + "%5D."@ + field + "="@ + value
}

pub open spec fn assignments(idx: nat, fields: Seq<SettingView>) -> Seq<Seq<char>> {
    Seq::new(fields.len(), |i: int| assignment(idx, fields[i].0, fields[i].1))
}

fn push_assignment(parts: &mut Vec<String>, idx: u8, field: &str, value: &str)
    ensures
        string_views(final(parts)@) == string_views(old(parts)@).push(
            assignment(idx as nat, field@, value@),
        ),
{
    let mut s = String::from_str("Encode%5B0%5D.ExtraFormat%5B");
    push_decimal(&mut s, idx as u64);
    s.append("%5D.");
    s.append(field);
    s.append("=");
    s.append(value);
    parts.push(s);
    assert(string_views(parts@) =~= string_views(old(parts)@).push(
        assignment(idx as nat, field@, value@),
    ));
}

/// The request that sets a live profile, as a query.
pub fn live_profile_params(idx: u8, profile: VideoProfile) -> (params: String)
    ensures
        params@ == joined(assignments(idx as nat, live_fields(profile)), "&"@),
{
    let mut parts: Vec<String> = Vec::new();
    let width = decimal_string(profile.width as u64);
    let height = decimal_string(profile.height as u64);
    let fps = decimal_string(profile.fps as u64);
    let bitrate = decimal_string(profile.bitrate_kbps as u64);
    let mut resolution = decimal_string(profile.width as u64);
    resolution.append("x");
    resolution.append(height.as_str());
    push_assignment(&mut parts, idx, "VideoEnable", "true");
    push_assignment(&mut parts, idx, "Video.Compression", "H.264");
    push_assignment(&mut parts, idx, "Video.resolution", resolution.as_str());
    push_assignment(&mut parts, idx, "Video.Width", width.as_str());
    push_assignment(&mut parts, idx, "Video.Height", height.as_str());
    push_assignment(&mut parts, idx, "Video.FPS", fps.as_str());
    push_assignment(&mut parts, idx, "Video.GOP", fps.as_str());
    push_assignment(&mut parts, idx, "Video.BitRate", bitrate.as_str());
    let ghost head = string_views(parts@);
    let fixed = LIVE_FIELDS;
    let ghost fields = literal_views(LIVE_FIELDS@);
    let mut i: usize = 0;
    assert(head =~= head + assignments(idx as nat, fields.take(0)));
    while i < 13
        invariant
            i <= 13,
            fixed@ == LIVE_FIELDS@,
            fixed@.len() == 13,
            fields == literal_views(LIVE_FIELDS@),
            string_views(parts@) == head + assignments(idx as nat, fields.take(i as int)),
        decreases 13 - i,
    {
        let ghost before = string_views(parts@);
        push_assignment(&mut parts, idx, fixed[i].0, fixed[i].1);
        assert(string_views(parts@) =~= head + assignments(idx as nat, fields.take(i + 1)));
        i = i + 1;
    }
    assert(fields.take(13) =~= fields);
    assert(string_views(parts@) =~= assignments(idx as nat, live_fields(profile)));
    join(parts.as_slice(), "&")
}

/// The request that sets the key frame interval of a camera's own encoder mode,
/// where the camera has it.
pub fn ai_gop_params(body: &str, idx: u8, fps: u8) -> (r: Option<String>)
    ensures
        match r {
            Some(params) => some_line_starts(
                lines_of(body@),
                field_prefix(idx as nat, "Video.AiGOP"@),
            ) && params@ == assignment(idx as nat, "Video.AiGOP"@, decimal(fps as nat)),
            None => !some_line_starts(lines_of(body@), field_prefix(idx as nat, "Video.AiGOP"@)),
        },
{
    let mut prefix = String::from_str("table.Encode[0].ExtraFormat[");
    push_decimal(&mut prefix, idx as u64);
    prefix.append("].");
    prefix.append("Video.AiGOP");
    prefix.append("=");
    let prefix = chars_of(prefix.as_str());
    let text = chars_of(body);
    let all = lines(text.as_slice());
    if any_line_starts(&all, prefix.as_slice()) {
        let mut s = String::from_str("Encode%5B0%5D.ExtraFormat%5B");
        push_decimal(&mut s, idx as u64);
        s.append("%5D.");
        s.append("Video.AiGOP");
        s.append("=");
        push_decimal(&mut s, fps as u64);
        Some(s)
    } else {
        None
    }
}

// --- Settling on a profile ---

/// What to do next to settle on a live profile.
#[derive(Clone, Copy, Debug, PartialEq, Eq, Structural)]
pub enum LiveStep {
    /// The camera has this profile: use it.
    Use(VideoProfile),
    /// Ask the camera for this profile and read its configuration back.
    Apply(VideoProfile),
    /// No profile was kept: read the configuration once more and finish.
    ReadFinal,
}

/// Settling on the live profile of one substream.
#[derive(Debug)]
pub struct LiveNegotiation {
    idx: u8,
    initial: String,
    existing: Option<VideoProfile>,
    candidates: Vec<VideoProfile>,
    next: usize,
}

/// The mathematical value of a [`LiveNegotiation`]: the substream, its first
/// configuration, the profiles to try and how many of them were tried.
pub ghost struct NegotiationView {
    pub idx: nat,
    pub initial: Seq<char>,
    pub candidates: Seq<VideoProfile>,
    pub next: nat,
}

/// The profiles to try, the best first: only the second substream does 1080p.
pub open spec fn candidates_for(subtype: u8) -> Seq<VideoProfile> {
    if subtype == 2 {
        seq![full_live_profile(), basic_live_profile()]
    } else {
        seq![basic_live_profile()]
    }
}

/// The next step, and the negotiation after it.
pub open spec fn next_step(n: NegotiationView) -> (LiveStep, NegotiationView) {
    if n.next >= n.candidates.len() {
        (LiveStep::ReadFinal, n)
    } else if live_matches(n.initial, n.idx, n.candidates[n.next as int]) {
        (LiveStep::Use(n.candidates[n.next as int]), n)
    } else {
        (
            LiveStep::Apply(n.candidates[n.next as int]),
            NegotiationView { next: n.next + 1, ..n },
        )
    }
}

impl View for LiveNegotiation {
    type V = NegotiationView;

    closed spec fn view(&self) -> NegotiationView {
        NegotiationView {
            idx: self.idx as nat,
            initial: self.initial@,
            candidates: self.candidates@,
            next: self.next as nat,
        }
    }
}

impl LiveNegotiation {
    pub closed spec fn wf(&self) -> bool {
        self.next <= self.candidates@.len() && self.existing == live_profile(
            self.initial@,
            self.idx as nat,
        )
    }

    /// Starts from the camera's configuration. The main stream is kept for
    /// recording and is refused.
    pub fn start(subtype: u8, initial: &str) -> (r: Option<(LiveNegotiation, LiveStep)>)
        ensures
            match r {
                None => subtype == 0,
                Some((n, step)) => subtype != 0 && n.wf() && (step, n@) == next_step(
                    NegotiationView {
                        idx: (subtype - 1) as nat,
                        initial: initial@,
                        candidates: candidates_for(subtype),
                        next: 0,
                    },
                ),
            },
    {
        if subtype == 0 {
            return None;
        }
        let idx: u8 = subtype - 1;
        let existing = live_profile_from_config(initial, idx);
        let mut candidates: Vec<VideoProfile> = Vec::new();
        if subtype == 2 {
            candidates.push(VideoProfile::live_1080p());
        }
        candidates.push(VideoProfile::live_720p());
        assert(candidates@ =~= candidates_for(subtype));
        let mut n = LiveNegotiation {
            idx,
            initial: String::from_str(initial),
            existing,
            candidates,
            next: 0,
        };
        let step = n.advance();
        Some((n, step))
    }

    fn advance(&mut self) -> (step: LiveStep)
        requires
            old(self).wf(),
        ensures
            final(self).wf(),
            (step, final(self)@) == next_step(old(self)@),
    {
        if self.next >= self.candidates.len() {
            return LiveStep::ReadFinal;
        }
        let candidate: VideoProfile = self.candidates[self.next];
        if live_config_matches(self.initial.as_str(), self.idx, candidate) {
            return LiveStep::Use(candidate);
        }
        self.next = self.next + 1;
        LiveStep::Apply(candidate)
    }

    /// Goes on after the profile last asked for: `readback` is the camera's
    /// configuration then, or nothing where the camera rejected the profile. The
    /// profile is used only if the camera reports exactly that.
    pub fn applied(&mut self, readback: Option<&str>) -> (step: LiveStep)
        requires
            old(self).wf(),
            old(self)@.next > 0,
        ensures
            final(self).wf(),
            ({
                let tried = old(self)@.candidates[old(self)@.next - 1];
                match readback {
                    Some(body) => if live_matches(body@, old(self)@.idx, tried) {
                        step == LiveStep::Use(tried) && final(self)@ == old(self)@
                    } else {
                        (step, final(self)@) == next_step(old(self)@)
                    },
                    None => (step, final(self)@) == next_step(old(self)@),
                }
            }),
    {
        let tried: VideoProfile = self.candidates[self.next - 1];
        if let Some(body) = readback {
            if live_config_matches(body, self.idx, tried) {
                return LiveStep::Use(tried);
            }
        }
        self.advance()
    }

    /// What is used where no profile was kept: what the camera has in the end, or
    /// what it had at first.
    pub fn finish(&self, final_config: &str) -> (r: Option<VideoProfile>)
        requires
            self.wf(),
        ensures
            r == match live_profile(final_config@, self@.idx) {
                Some(profile) => Some(profile),
                None => live_profile(self@.initial, self@.idx),
            },
    {
        match live_profile_from_config(final_config, self.idx) {
            Some(profile) => Some(profile),
            None => self.existing,
        }
    }
}

// --- What is asked for and what is taken ---

/// A profile is asked for field by field: its size, its frames per second, a key frame
/// every second, its bitrate, H.264 of the High profile at the highest quality with a
/// variable rate, and AAC at 16 kHz.
pub proof fn law_a_live_profile_is_asked_for(profile: VideoProfile)
    ensures
        ({
            let fields = live_fields(profile);
            &&& fields.len() == 21
            &&& fields.contains(("VideoEnable"@, "true"@))
            &&& fields.contains(("Video.Compression"@, "H.264"@))
            &&& fields.contains(("Video.resolution"@, decimal(profile.width as nat) + "x"@ + decimal(profile.height as nat)))
            &&& fields.contains(("Video.Width"@, decimal(profile.width as nat)))
            &&& fields.contains(("Video.Height"@, decimal(profile.height as nat)))
            &&& fields.contains(("Video.FPS"@, decimal(profile.fps as nat)))
            &&& fields.contains(("Video.GOP"@, decimal(profile.fps as nat)))
            &&& fields.contains(("Video.BitRate"@, decimal(profile.bitrate_kbps as nat)))
            &&& fields.contains(("Video.BitRateControl"@, "VBR"@))
            &&& fields.contains(("Video.Profile"@, "High"@))
            &&& fields.contains(("Video.Quality"@, "6"@))
            &&& fields.contains(("Video.Pack"@, "DHAV"@))
            &&& fields.contains(("Video.Priority"@, "0"@))
            &&& fields.contains(("Video.SVCTLayer"@, "1"@))
            &&& fields.contains(("AudioEnable"@, "true"@))
            &&& fields.contains(("Audio.Compression"@, "AAC"@))
            &&& fields.contains(("Audio.Bitrate"@, "64"@))
            &&& fields.contains(("Audio.Depth"@, "16"@))
            &&& fields.contains(("Audio.Channels%5B0%5D"@, "0"@))
            &&& fields.contains(("Audio.Pack"@, "DHAV"@))
            &&& fields.contains(("Audio.Frequency"@, "16000"@))
        }),
{
    let fields = live_fields(profile);
    assert(fields[0] == ("VideoEnable"@, "true"@));
    assert(fields[1] == ("Video.Compression"@, "H.264"@));
    assert(fields[2] == ("Video.resolution"@, decimal(profile.width as nat) + "x"@ + decimal(profile.height as nat)));
    assert(fields[3] == ("Video.Width"@, decimal(profile.width as nat)));
    assert(fields[4] == ("Video.Height"@, decimal(profile.height as nat)));
    assert(fields[5] == ("Video.FPS"@, decimal(profile.fps as nat)));
    assert(fields[6] == ("Video.GOP"@, decimal(profile.fps as nat)));
    assert(fields[7] == ("Video.BitRate"@, decimal(profile.bitrate_kbps as nat)));
    assert(fields[8] == ("Video.BitRateControl"@, "VBR"@));
    assert(fields[9] == ("Video.Profile"@, "High"@));
    assert(fields[10] == ("Video.Quality"@, "6"@));
    assert(fields[11] == ("Video.Pack"@, "DHAV"@));
    assert(fields[12] == ("Video.Priority"@, "0"@));
    assert(fields[13] == ("Video.SVCTLayer"@, "1"@));
    assert(fields[14] == ("AudioEnable"@, "true"@));
    assert(fields[15] == ("Audio.Compression"@, "AAC"@));
    assert(fields[16] == ("Audio.Bitrate"@, "64"@));
    assert(fields[17] == ("Audio.Depth"@, "16"@));
    assert(fields[18] == ("Audio.Channels%5B0%5D"@, "0"@));
    assert(fields[19] == ("Audio.Pack"@, "DHAV"@));
    assert(fields[20] == ("Audio.Frequency"@, "16000"@));
}

/// A field is asked for as an assignment to it, for the substream that is meant, and all
/// of them in one query.
pub proof fn law_fields_are_assigned(idx: nat, fields: Seq<SettingView>, i: int)
    requires
        0 <= i < fields.len(),
    ensures
        assignments(idx, fields).len() == fields.len(),
        assignments(idx, fields)[i] == "Encode%5B0%5D.ExtraFormat%5B"@ + decimal(idx) + "%5D."@
            + fields[i].0 + "="@ + fields[i].1,
{
}

/// A field of a substream is read in the first line that starts with its name, and is
/// what follows there, without white space around it.
pub proof fn law_a_field_is_read_in_its_first_line(lines: Seq<Seq<char>>, prefix: Seq<char>)
    ensures
        match first_field(lines, prefix) {
            Some(v) => exists|i: int|
                0 <= i < lines.len() && starts(#[trigger] lines[i], prefix) && v == trimmed(
                    lines[i].skip(prefix.len() as int),
                ) && forall|j: int| 0 <= j < i ==> !starts(#[trigger] lines[j], prefix),
            None => forall|i: int| 0 <= i < lines.len() ==> !starts(#[trigger] lines[i], prefix),
        },
    decreases lines.len(),
{
    if lines.len() > 0 && !starts(lines[0], prefix) {
        let rest = lines.skip(1);
        law_a_field_is_read_in_its_first_line(rest, prefix);
        match first_field(rest, prefix) {
            Some(v) => {
                let i = choose|i: int|
                    0 <= i < rest.len() && starts(#[trigger] rest[i], prefix) && v == trimmed(
                        rest[i].skip(prefix.len() as int),
                    ) && forall|j: int| 0 <= j < i ==> !starts(#[trigger] rest[j], prefix);
                assert(lines[i + 1] == rest[i]);
                assert forall|j: int| 0 <= j < i + 1 implies !starts(
                    #[trigger] lines[j],
                    prefix,
                ) by {
                    if j > 0 {
                        assert(rest[j - 1] == lines[j]);
                    }
                }
            },
            None => {
                assert forall|i: int| 0 <= i < lines.len() implies !starts(
                    #[trigger] lines[i],
                    prefix,
                ) by {
                    if i > 0 {
                        assert(rest[i - 1] == lines[i]);
                    }
                }
            },
        }
    }
}

/// The lines of a substream's fields are those of its keys in the camera's report.
pub proof fn law_fields_have_lines(idx: nat, name: Seq<char>)
    ensures
        field_prefix(idx, name) == line_prefix(
            "Encode[0].ExtraFormat["@ + decimal(idx) + seq![']', '.'] + name,
        ),
{
    reveal_strlit("table.Encode[0].ExtraFormat[");
    reveal_strlit("table.");
    reveal_strlit("Encode[0].ExtraFormat[");
    reveal_strlit("].");
    assert("table.Encode[0].ExtraFormat["@ =~= "table."@ + "Encode[0].ExtraFormat["@);
    assert("]."@ =~= seq![']', '.']);
    assert(field_prefix(idx, name) =~= "table."@ + ("Encode[0].ExtraFormat["@ + decimal(idx) + seq![
        ']',
        '.',
    ] + name) + "="@);
}

/// A profile is taken for granted only where the camera reports each of its fields: the
/// four numbers of the mode, a key frame every second, and the values of the fixed ones.
pub proof fn law_a_profile_has_to_be_reported(
    body: Seq<char>,
    idx: nat,
    width: u16,
    height: u16,
    fps: u8,
    bitrate_kbps: u32,
)
    ensures
        live_matches(body, idx, VideoProfile { width, height, fps, bitrate_kbps }) <==> {
            &&& live_number(body, idx, "Video.Width"@, 0xffff) == Some(width as nat)
            &&& live_number(body, idx, "Video.Height"@, 0xffff) == Some(height as nat)
            &&& live_number(body, idx, "Video.FPS"@, 0xff) == Some(fps as nat)
            &&& live_number(body, idx, "Video.BitRate"@, 0xffff_ffff) == Some(bitrate_kbps as nat)
            &&& live_number(body, idx, "Video.GOP"@, 0xffff_ffff) == Some(fps as nat)
            &&& live_field(body, idx, "VideoEnable"@) == Some("true"@)
            &&& live_field(body, idx, "Video.Compression"@) == Some("H.264"@)
            &&& live_field(body, idx, "Video.BitRateControl"@) == Some("VBR"@)
            &&& live_field(body, idx, "Video.Profile"@) == Some("High"@)
            &&& live_field(body, idx, "Video.Quality"@) == Some("6"@)
        },
{
    lemma_number_fits(body, idx, "Video.Width"@, 0xffff);
    lemma_number_fits(body, idx, "Video.Height"@, 0xffff);
    lemma_number_fits(body, idx, "Video.FPS"@, 0xff);
    lemma_number_fits(body, idx, "Video.BitRate"@, 0xffff_ffff);
}

proof fn lemma_number_fits(body: Seq<char>, idx: nat, name: Seq<char>, max: nat)
    ensures
        live_number(body, idx, name, max) matches Some(n) ==> n <= max,
{
}

/// The mode of a substream is read off four fields, each for itself; where one of them is
/// missing or no number, there is none.
pub proof fn law_a_mode_is_read_off_its_fields(body: Seq<char>, idx: nat)
    ensures
        match live_profile(body, idx) {
            Some(p) => {
                &&& live_number(body, idx, "Video.Width"@, 0xffff) == Some(p.width as nat)
                &&& live_number(body, idx, "Video.Height"@, 0xffff) == Some(p.height as nat)
                &&& live_number(body, idx, "Video.FPS"@, 0xff) == Some(p.fps as nat)
                &&& live_number(body, idx, "Video.BitRate"@, 0xffff_ffff) == Some(
                    p.bitrate_kbps as nat,
                )
            },
            None => live_number(body, idx, "Video.Width"@, 0xffff) is None || live_number(
                body,
                idx,
                "Video.Height"@,
                0xffff,
            ) is None || live_number(body, idx, "Video.FPS"@, 0xff) is None || live_number(
                body,
                idx,
                "Video.BitRate"@,
                0xffff_ffff,
            ) is None,
        },
{
    lemma_number_fits(body, idx, "Video.Width"@, 0xffff);
    lemma_number_fits(body, idx, "Video.Height"@, 0xffff);
    lemma_number_fits(body, idx, "Video.FPS"@, 0xff);
    lemma_number_fits(body, idx, "Video.BitRate"@, 0xffff_ffff);
}

/// Only the second substream is tried at 1080p; it and every other one is tried at 720p,
/// and that comes last.
pub proof fn law_which_profiles_are_tried(subtype: u8)
    ensures
        ({
            let tried = candidates_for(subtype);
            let last = tried[tried.len() - 1];
            &&& tried.len() == (if subtype == 2 {
                2int
            } else {
                1int
            })
            &&& subtype == 2 ==> tried[0].width == 1920 && tried[0].height == 1080 && tried[0].fps
                == 15 && tried[0].bitrate_kbps == 4096
            &&& last.width == 1280 && last.height == 720 && last.fps == 15 && last.bitrate_kbps
                == 2048
        }),
{
}

/// The profiles are tried one after the other: the next one is used where the camera had
/// it from the start, else asked for, and none is asked for twice. After the last one the
/// configuration is read.
pub proof fn law_profiles_are_tried_in_their_order(n: NegotiationView)
    ensures
        ({
            let (step, after) = next_step(n);
            &&& step is ReadFinal <==> n.next >= n.candidates.len()
            &&& step matches LiveStep::Use(p) ==> p == n.candidates[n.next as int] && live_matches(
                n.initial,
                n.idx,
                p,
            ) && after == n
            &&& step matches LiveStep::Apply(p) ==> p == n.candidates[n.next as int]
                && !live_matches(n.initial, n.idx, p) && after.next == n.next + 1
            &&& after.candidates == n.candidates && after.idx == n.idx && after.initial == n.initial
        }),
{
}

} // verus!
