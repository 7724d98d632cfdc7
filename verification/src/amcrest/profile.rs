//! The settings that every camera is brought to.

use vstd::prelude::*;
use vstd::string::*;
use super::config::{literal_views, setting_views, settings, SettingView};
use crate::text::{decimal, decimal_string, push_decimal};

verus! {

/// Audio input.
pub const AUDIO_INPUT: [(&'static str, &'static str); 4] = [
    ("AudioInput[0].AudioSource", "Mic"),
    ("AudioInputVolume[0]", "100"),
    ("AudioInDenoise[0].enable", "false"),
    ("AudioInDenoise[0].level", "50"),
];

/// Encoder features that change the picture on their own.
pub const ENCODER_EXTRAS: [(&'static str, &'static str); 4] = [
    ("SmartEncode[0].Enable", "false"),
    ("AICoding[0].Enable", "false"),
    ("TwoRefEncode.Enable", "false"),
    ("VideoWaterMark[0].Enable", "false"),
];

/// The sound of the main stream.
pub const MAIN_AUDIO: [(&'static str, &'static str); 8] = [
    ("Encode[0].MainFormat[0].AudioEnable", "true"),
    ("Encode[0].MainFormat[0].Audio.Compression", "AAC"),
    ("Encode[0].MainFormat[0].Audio.Frequency", "48000"),
    ("Encode[0].MainFormat[0].Audio.Bitrate", "64"),
    ("Encode[0].MainFormat[0].Audio.Depth", "16"),
    ("Encode[0].MainFormat[0].Audio.Channels[0]", "0"),
    ("Encode[0].MainFormat[0].Audio.Mode", "0"),
    ("Encode[0].MainFormat[0].Audio.Pack", "DHAV"),
];

/// Image enhancement and lens correction.
pub const IMAGE_ENHANCEMENT: [(&'static str, &'static str); 4] = [
    ("ImageEnhancement[0].Enable", "false"),
    ("ImageEnhancement[0].CarWindowEnable", "false"),
    ("ImageEnhancement[0].PlateEnable", "false"),
    ("LDCorrection[0].Enable", "false"),
];

/// Regions of interest and cropping.
pub const REGIONS_OF_INTEREST: [(&'static str, &'static str); 8] = [
    ("VideoEncodeROI[0].DynamicTrack", "false"),
    ("VideoEncodeROI[0].Main", "false"),
    ("VideoEncodeROI[0].Extra1", "false"),
    ("VideoEncodeROI[0].Extra2", "false"),
    ("VideoEncodeROI[0].Extra3", "false"),
    ("VideoEncodeROI[0].Snapshot", "false"),
    ("EncodeCrop[0].Extra1.Enable", "false"),
    ("EncodeCrop[0].Extra2.Enable", "false"),
];

/// Exposure.
pub const EXPOSURE: [(&'static str, &'static str); 7] = [
    ("VideoInMode[0].Mode", "0"),
    ("VideoInMode[0].Config[0]", "0"),
    ("VideoInOptions[0].ExposureMode", "0"),
    ("VideoInOptions[0].ExposureSpeed", "0"),
    ("VideoInOptions[0].GainMin", "0"),
    ("VideoInOptions[0].GainMax", "50"),
    ("VideoInOptions[0].SlowShutter", "false"),
];

/// Orientation of the picture.
pub const IMAGE_CONTROL: [(&'static str, &'static str); 5] = [
    ("VideoImageControl[0].Flip", "false"),
    ("VideoImageControl[0].Freeze", "false"),
    ("VideoImageControl[0].Mirror", "false"),
    ("VideoImageControl[0].Rotate90", "0"),
    ("VideoImageControl[0].Stable", "0"),
];

/// Colour, for one picture profile: the table, the field and its value.
pub const COLOR: [(&'static str, &'static str, &'static str); 8] = [
    ("VideoColor", "Brightness", "50"),
    ("VideoColor", "ChromaSuppress", "50"),
    ("VideoColor", "Contrast", "50"),
    ("VideoColor", "Gamma", "50"),
    ("VideoColor", "Hue", "50"),
    ("VideoColor", "Saturation", "50"),
    ("VideoColor", "Style", "Standard"),
    ("VideoColor", "TimeSection", "0 00:00:00-24:00:00"),
];

/// Backlight, day and night, and defog, for one picture profile.
pub const DAY_NIGHT: [(&'static str, &'static str, &'static str); 7] = [
    ("VideoInBacklight", "Mode", "Off"),
    ("VideoInDayNight", "Type", "Mechanism"),
    ("VideoInDayNight", "Mode", "Brightness"),
    ("VideoInDayNight", "Sensitivity", "2"),
    ("VideoInDayNight", "Delay", "6"),
    ("VideoInDefog", "Mode", "Off"),
    ("VideoInDefog", "Intensity", "0"),
];

/// Noise reduction, sharpness and white balance, for one picture profile.
pub const DENOISE: [(&'static str, &'static str, &'static str); 6] = [
    ("VideoInDenoise", "3DType", "Auto"),
    ("VideoInDenoise", "3DAutoType.AutoLevel", "50"),
    ("VideoInDenoise", "3DManulType.SnfLevel", "50"),
    ("VideoInDenoise", "3DManulType.TnfLevel", "50"),
    ("VideoInSharpness", "Sharpness", "50"),
    ("VideoInWhiteBalance", "Mode", "Auto"),
];

/// The illuminator but for its mode, for one picture profile.
pub const LIGHTING: [(&'static str, &'static str, &'static str); 4] = [
    ("Lighting", "Correction", "50"),
    ("Lighting", "Sensitive", "3"),
    ("Lighting", "MiddleLight[0].Angle", "50"),
    ("Lighting", "MiddleLight[0].Light", "50"),
];

/// Orientation, for one picture profile.
pub const ROTATION: [(&'static str, &'static str, &'static str); 5] = [
    ("VideoInRotate", "Flip", "false"),
    ("VideoInRotate", "Freeze", "false"),
    ("VideoInRotate", "Mirror", "false"),
    ("VideoInRotate", "Rotate90", "0"),
    ("VideoInRotate", "Stable", "0"),
];

/// Detection of people and vehicles.
pub const SMART_MOTION: [(&'static str, &'static str); 4] = [
    ("SmartMotionDetect[0].Enable", "true"),
    ("SmartMotionDetect[0].ObjectTypes.Human", "true"),
    ("SmartMotionDetect[0].ObjectTypes.Vehicle", "true"),
    ("SmartMotionDetect[0].Sensitivity", "Middle"),
];

/// Motion detection and what the camera itself does on it.
pub const MOTION: [(&'static str, &'static str); 22] = [
    ("MotionDetect[0].Enable", "true"),
    ("MotionDetect[0].Level", "3"),
    ("MotionDetect[0].EventHandler.Dejitter", "5"),
    ("MotionDetect[0].EventHandler.Delay", "0"),
    ("MotionDetect[0].EventHandler.AlarmOutEnable", "false"),
    ("MotionDetect[0].EventHandler.BeepEnable", "false"),
    ("MotionDetect[0].EventHandler.ExAlarmOutEnable", "false"),
    ("MotionDetect[0].EventHandler.FlashEnable", "false"),
    ("MotionDetect[0].EventHandler.LightingLink.Enable", "false"),
    ("MotionDetect[0].EventHandler.LogEnable", "true"),
    ("MotionDetect[0].EventHandler.MailEnable", "false"),
    ("MotionDetect[0].EventHandler.MatrixEnable", "false"),
    ("MotionDetect[0].EventHandler.MessageEnable", "false"),
    ("MotionDetect[0].EventHandler.PtzLinkEnable", "false"),
    ("MotionDetect[0].EventHandler.RecordEnable", "false"),
    ("MotionDetect[0].EventHandler.SnapshotEnable", "false"),
    ("MotionDetect[0].EventHandler.TipEnable", "false"),
    ("MotionDetect[0].EventHandler.TourEnable", "false"),
    ("MotionDetect[0].EventHandler.VoiceEnable", "false"),
    ("MotionDetect[0].OsdTwinkleEnable", "false"),
    ("MotionDetect[0].PirMotionLevel", "3"),
    ("MotionDetect[0].PtzManualEnable", "false"),
];

/// Older analytics rules, all switched off.
pub const ANALYSE: [(&'static str, &'static str); 22] = [
    ("VideoAnalyseRule[0][0].Enable", "false"),
    ("VideoAnalyseRule[0][0].TrackEnable", "false"),
    ("VideoAnalyseRule[0][0].Config.FeatureEnable", "false"),
    ("VideoAnalyseRule[0][0].Config.FeatureExtractEnable", "false"),
    ("VideoAnalyseRule[0][0].Config.DuplicateRemoval.Enable", "false"),
    ("VideoAnalyseRule[0][0].Config.FaceBeautification.Enable", "false"),
    ("VideoAnalyseRule[0][0].Config.FilterUnAliveEnable", "false"),
    ("VideoAnalyseRule[0][0].Config.snapObjRectEnable", "0"),
    ("VideoAnalyseRule[0][0].EventHandler.AlarmOutEnable", "false"),
    ("VideoAnalyseRule[0][0].EventHandler.BeepEnable", "false"),
    ("VideoAnalyseRule[0][0].EventHandler.ExAlarmOutEnable", "false"),
    ("VideoAnalyseRule[0][0].EventHandler.LightingLink.Enable", "false"),
    ("VideoAnalyseRule[0][0].EventHandler.LogEnable", "false"),
    ("VideoAnalyseRule[0][0].EventHandler.MMSEnable", "false"),
    ("VideoAnalyseRule[0][0].EventHandler.MailEnable", "false"),
    ("VideoAnalyseRule[0][0].EventHandler.MatrixEnable", "false"),
    ("VideoAnalyseRule[0][0].EventHandler.MessageEnable", "false"),
    ("VideoAnalyseRule[0][0].EventHandler.PtzLinkEnable", "false"),
    ("VideoAnalyseRule[0][0].EventHandler.RecordEnable", "false"),
    ("VideoAnalyseRule[0][0].EventHandler.SnapshotEnable", "false"),
    ("VideoAnalyseRule[0][0].EventHandler.SnapshotTitleEnable", "false"),
    ("VideoAnalyseRule[0][0].EventHandler.VoiceEnable", "false"),
];

/// Regular snapshots, at the highest quality.
pub const SNAPSHOT: [(&'static str, &'static str); 3] = [
    ("Encode[0].SnapFormat[0].VideoEnable", "true"),
    ("Encode[0].SnapFormat[0].Video.Compression", "MJPG"),
    ("Encode[0].SnapFormat[0].Video.Quality", "6"),
];

/// The main stream, which is recorded: its format.
pub const RECORDING_FORMAT: [(&'static str, &'static str); 2] = [
    ("Encode[0].MainFormat[0].VideoEnable", "true"),
    ("Encode[0].MainFormat[0].Video.Compression", "H.264"),
];

/// The main stream's picture, at the highest of six steps of quality.
pub const RECORDING_VIDEO: [(&'static str, &'static str); 8] = [
    ("Encode[0].MainFormat[0].Video.BitRateControl", "VBR"),
    ("Encode[0].MainFormat[0].Video.Profile", "High"),
    ("Encode[0].MainFormat[0].Video.Quality", "6"),
    ("Encode[0].MainFormat[0].Video.Pack", "DHAV"),
    ("Encode[0].MainFormat[0].Video.Priority", "0"),
    ("Encode[0].MainFormat[0].Video.SVCTLayer", "1"),
    ("Encode[0].MainFormat[0].Video.encodeType", "0"),
    ("Encode[0].MainFormat[0].Audio.Compression", "AAC"),
];

/// The main stream's sound.
pub const RECORDING_AUDIO: [(&'static str, &'static str); 6] = [
    ("Encode[0].MainFormat[0].Audio.Bitrate", "64"),
    ("Encode[0].MainFormat[0].Audio.Depth", "16"),
    ("Encode[0].MainFormat[0].Audio.Channels[0]", "0"),
    ("Encode[0].MainFormat[0].Audio.Mode", "0"),
    ("Encode[0].MainFormat[0].Audio.Pack", "DHAV"),
    ("Encode[0].MainFormat[0].AudioEnable", "true"),
];

/// The settings in each of a list of groups.
pub open spec fn group_views(groups: Seq<Vec<(String, String)>>) -> Seq<Seq<SettingView>> {
    Seq::new(groups.len(), |i: int| setting_views(groups[i]@))
}

/// The key of a field in the table `group` of picture profile `n`.
pub open spec fn numbered_key(group: Seq<char>, n: nat, field: Seq<char>) -> Seq<char> {
    group + "[0]["@ + decimal(n) + "]."@ + field
}

/// Settings for picture profile `n`.
pub open spec fn numbered_views(table: Seq<(&str, &str, &str)>, n: nat) -> Seq<SettingView> {
    Seq::new(table.len(), |i: int| (numbered_key(table[i].0@, n, table[i].1@), table[i].2@))
}

fn numbered(group: &str, n: u64, field: &str) -> (key: String)
    ensures
        key@ == numbered_key(group@, n as nat, field@),
{
    let mut key = String::from_str(group);
    key.append("[0][");
    push_decimal(&mut key, n);
    key.append("].");
    key.append(field);
    key
}

/// Settings for picture profile `n`.
fn numbered_settings(table: &[(&str, &str, &str)], n: u64) -> (r: Vec<(String, String)>)
    ensures
        setting_views(r@) == numbered_views(table@, n as nat),
{
    let mut r: Vec<(String, String)> = Vec::new();
    let mut i: usize = 0;
    while i < table.len()
        invariant
            i <= table@.len(),
            r@.len() == i,
            forall|j: int|
                0 <= j < i ==> (#[trigger] r@[j]).0@ == numbered_key(
                    table@[j].0@,
                    n as nat,
                    table@[j].1@,
                ) && r@[j].1@ == table@[j].2@,
        decreases table@.len() - i,
    {
        r.push((numbered(table[i].0, n, table[i].1), String::from_str(table[i].2)));
        i = i + 1;
    }
    assert(setting_views(r@) =~= numbered_views(table@, n as nat));
    r
}

/// Whether the infrared illuminator helps the exposure.
pub open spec fn smart_ir(ir_lighting: bool) -> Seq<char> {
    if ir_lighting {
        "true"@
    } else {
        "false"@
    }
}

/// The mode of the infrared illuminator.
pub open spec fn ir_mode(ir_lighting: bool) -> Seq<char> {
    if ir_lighting {
        "Auto"@
    } else {
        "Off"@
    }
}

/// The groups of settings for picture profile `n`.
pub open spec fn picture_profile(ir_lighting: bool, n: nat) -> Seq<Seq<SettingView>> {
    seq![
        numbered_views(COLOR@, n),
        numbered_views(DAY_NIGHT@, n),
        numbered_views(DENOISE@, n),
        seq![(numbered_key("Lighting"@, n, "Mode"@), ir_mode(ir_lighting))] + numbered_views(
            LIGHTING@,
            n,
        ),
        numbered_views(ROTATION@, n),
    ]
}

/// The media profile: audio, enhancement features, regions and cropping, exposure
/// and orientation; then the three picture profiles.
pub open spec fn media_profile(ir_lighting: bool) -> Seq<Seq<SettingView>> {
    seq![
        literal_views(AUDIO_INPUT@),
        literal_views(ENCODER_EXTRAS@),
        literal_views(MAIN_AUDIO@),
        literal_views(IMAGE_ENHANCEMENT@),
        literal_views(REGIONS_OF_INTEREST@),
        literal_views(EXPOSURE@).push(
            ("VideoInOptions[0].SmartIRExposure"@, smart_ir(ir_lighting)),
        ),
        literal_views(IMAGE_CONTROL@),
    ] + picture_profile(ir_lighting, 0) + picture_profile(ir_lighting, 1) + picture_profile(
        ir_lighting,
        2,
    )
}

fn push_group(
    groups: &mut Vec<Vec<(String, String)>>,
    group: Vec<(String, String)>,
)
    ensures
        group_views(final(groups)@) == group_views(old(groups)@).push(setting_views(group@)),
{
    groups.push(group);
    assert(group_views(groups@) =~= group_views(old(groups)@).push(setting_views(group@)));
}

fn push_picture_profile(
    groups: &mut Vec<Vec<(String, String)>>,
    ir_lighting: bool,
    n: u64,
)
    ensures
        group_views(final(groups)@) == group_views(old(groups)@) + picture_profile(
            ir_lighting,
            n as nat,
        ),
{
    push_group(groups, numbered_settings(COLOR.as_slice(), n));
    push_group(groups, numbered_settings(DAY_NIGHT.as_slice(), n));
    push_group(groups, numbered_settings(DENOISE.as_slice(), n));
    let mode: &str = if ir_lighting {
        "Auto"
    } else {
        "Off"
    };
    let mut lighting: Vec<(String, String)> = Vec::new();
    lighting.push((numbered("Lighting", n, "Mode"), String::from_str(mode)));
    let mut rest = numbered_settings(LIGHTING.as_slice(), n);
    let ghost head = setting_views(lighting@);
    let ghost tail = setting_views(rest@);
    lighting.append(&mut rest);
    assert(head =~= seq![(numbered_key("Lighting"@, n as nat, "Mode"@), ir_mode(ir_lighting))]);
    assert(setting_views(lighting@) =~= head + tail);
    push_group(groups, lighting);
    push_group(groups, numbered_settings(ROTATION.as_slice(), n));
    assert(group_views(groups@) =~= group_views(old(groups)@) + picture_profile(
        ir_lighting,
        n as nat,
    ));
}

/// The media profile applied to every camera. Fields that a model does not have
/// are skipped when it is applied.
pub fn standard_media_profile(ir_lighting: bool) -> (profile: Vec<Vec<(String, String)>>)
    ensures
        group_views(profile@) == media_profile(ir_lighting),
{
    let mut profile: Vec<Vec<(String, String)>> = Vec::new();
    push_group(&mut profile, settings(AUDIO_INPUT.as_slice()));
    push_group(&mut profile, settings(ENCODER_EXTRAS.as_slice()));
    push_group(&mut profile, settings(MAIN_AUDIO.as_slice()));
    push_group(&mut profile, settings(IMAGE_ENHANCEMENT.as_slice()));
    push_group(&mut profile, settings(REGIONS_OF_INTEREST.as_slice()));
    let smart: &str = if ir_lighting {
        "true"
    } else {
        "false"
    };
    let mut exposure = settings(EXPOSURE.as_slice());
    let ghost fixed = setting_views(exposure@);
    exposure.push((String::from_str("VideoInOptions[0].SmartIRExposure"), String::from_str(smart)));
    assert(setting_views(exposure@) =~= fixed.push(
        ("VideoInOptions[0].SmartIRExposure"@, smart_ir(ir_lighting)),
    ));
    push_group(&mut profile, exposure);
    push_group(&mut profile, settings(IMAGE_CONTROL.as_slice()));
    let ghost seven = group_views(profile@);
    push_picture_profile(&mut profile, ir_lighting, 0);
    push_picture_profile(&mut profile, ir_lighting, 1);
    push_picture_profile(&mut profile, ir_lighting, 2);
    assert(group_views(profile@) =~= media_profile(ir_lighting));
    profile
}

// --- Motion detection ---

/// A schedule entry: in each of seven days the first of six periods is on, all day.
pub open spec fn time_section(i: nat) -> SettingView {
    (
        "MotionDetect[0].EventHandler.TimeSection["@ + decimal(i / 6) + "]["@ + decimal(i % 6)
            + "]"@,
        if i % 6 == 0 {
            "1 00:00:00-23:59:59"@
        } else {
            "0 00:00:00-23:59:59"@
        },
    )
}

/// A row of the picture's 18 rows in the region of interest, and in those of the
/// four detection windows: the whole picture, by the first window.
pub open spec fn region_row(i: nat) -> SettingView {
    let row = decimal(i / 5);
    if i % 5 == 0 {
        ("MotionDetect[0].Region["@ + row + "]"@, "4194303"@)
    } else {
        (
            "MotionDetect[0].MotionDetectWindow["@ + decimal((i % 5 - 1) as nat) + "].Region["@
                + row + "]"@,
            if i % 5 == 1 {
                "4194303"@
            } else {
                "0"@
            },
        )
    }
}

/// The sensitivity, threshold and corners of the four detection windows.
pub open spec fn window_setting(i: nat) -> SettingView {
    let window = "MotionDetect[0].MotionDetectWindow["@ + decimal(i / 6);
    if i % 6 == 0 {
        (window + "].Sensitive"@, "60"@)
    } else if i % 6 == 1 {
        (window + "].Threshold"@, "5"@)
    } else {
        (
            window + "].Window["@ + decimal((i % 6 - 2) as nat) + "]"@,
            if i / 6 == 0 && i % 6 >= 4 {
                "8191"@
            } else {
                "0"@
            },
        )
    }
}

/// The whole of motion detection.
pub open spec fn motion_profile_views() -> Seq<SettingView> {
    literal_views(MOTION@) + Seq::new(42, |i: int| time_section(i as nat)) + Seq::new(
        90,
        |i: int| region_row(i as nat),
    ) + Seq::new(24, |i: int| window_setting(i as nat))
}

fn time_section_setting(i: u64) -> (r: (String, String))
    ensures
        (r.0@, r.1@) == time_section(i as nat),
{
    let mut key = String::from_str("MotionDetect[0].EventHandler.TimeSection[");
    push_decimal(&mut key, i / 6);
    key.append("][");
    push_decimal(&mut key, i % 6);
    key.append("]");
    let value: &str = if i % 6 == 0 {
        "1 00:00:00-23:59:59"
    } else {
        "0 00:00:00-23:59:59"
    };
    (key, String::from_str(value))
}

fn region_row_setting(i: u64) -> (r: (String, String))
    ensures
        (r.0@, r.1@) == region_row(i as nat),
{
    if i % 5 == 0 {
        let mut key = String::from_str("MotionDetect[0].Region[");
        push_decimal(&mut key, i / 5);
        key.append("]");
        (key, String::from_str("4194303"))
    } else {
        let mut key = String::from_str("MotionDetect[0].MotionDetectWindow[");
        push_decimal(&mut key, i % 5 - 1);
        key.append("].Region[");
        push_decimal(&mut key, i / 5);
        key.append("]");
        let value: &str = if i % 5 == 1 {
            "4194303"
        } else {
            "0"
        };
        (key, String::from_str(value))
    }
}

fn window_setting_of(i: u64) -> (r: (String, String))
    ensures
        (r.0@, r.1@) == window_setting(i as nat),
{
    let mut key = String::from_str("MotionDetect[0].MotionDetectWindow[");
    push_decimal(&mut key, i / 6);
    if i % 6 == 0 {
        key.append("].Sensitive");
        (key, String::from_str("60"))
    } else if i % 6 == 1 {
        key.append("].Threshold");
        (key, String::from_str("5"))
    } else {
        key.append("].Window[");
        push_decimal(&mut key, i % 6 - 2);
        key.append("]");
        let value: &str = if i / 6 == 0 && i % 6 >= 4 {
            "8191"
        } else {
            "0"
        };
        (key, String::from_str(value))
    }
}

/// Motion detection over the whole picture, all week, with no action on the camera
/// itself but its log.
pub fn motion_profile() -> (r: Vec<(String, String)>)
    ensures
        setting_views(r@) == motion_profile_views(),
{
    let mut r = settings(MOTION.as_slice());
    let ghost fixed = setting_views(r@);
    let mut i: u64 = 0;
    assert(setting_views(r@) =~= fixed + Seq::new(0, |j: int| time_section(j as nat)));
    while i < 42
        invariant
            i <= 42,
            setting_views(r@) == fixed + Seq::new(i as nat, |j: int| time_section(j as nat)),
        decreases 42 - i,
    {
        let ghost before = setting_views(r@);
        let entry = time_section_setting(i);
        r.push(entry);
        assert(setting_views(r@) =~= before.push(time_section(i as nat)));
        i = i + 1;
        assert(setting_views(r@) =~= fixed + Seq::new(i as nat, |j: int| time_section(j as nat)));
    }
    let ghost fixed = setting_views(r@);
    let mut i: u64 = 0;
    assert(setting_views(r@) =~= fixed + Seq::new(0, |j: int| region_row(j as nat)));
    while i < 90
        invariant
            i <= 90,
            setting_views(r@) == fixed + Seq::new(i as nat, |j: int| region_row(j as nat)),
        decreases 90 - i,
    {
        let ghost before = setting_views(r@);
        let entry = region_row_setting(i);
        r.push(entry);
        assert(setting_views(r@) =~= before.push(region_row(i as nat)));
        i = i + 1;
        assert(setting_views(r@) =~= fixed + Seq::new(i as nat, |j: int| region_row(j as nat)));
    }
    let ghost fixed = setting_views(r@);
    let mut i: u64 = 0;
    assert(setting_views(r@) =~= fixed + Seq::new(0, |j: int| window_setting(j as nat)));
    while i < 24
        invariant
            i <= 24,
            setting_views(r@) == fixed + Seq::new(i as nat, |j: int| window_setting(j as nat)),
        decreases 24 - i,
    {
        let ghost before = setting_views(r@);
        let entry = window_setting_of(i);
        r.push(entry);
        assert(setting_views(r@) =~= before.push(window_setting(i as nat)));
        i = i + 1;
        assert(setting_views(r@) =~= fixed + Seq::new(i as nat, |j: int| window_setting(j as nat)));
    }
    r
}

/// The settings for one of the camera's tables.
pub struct TableSettings {
    pub name: String,
    pub settings: Vec<(String, String)>,
}

impl View for TableSettings {
    type V = (Seq<char>, Seq<SettingView>);

    open spec fn view(&self) -> (Seq<char>, Seq<SettingView>) {
        (self.name@, setting_views(self.settings@))
    }
}

/// The mathematical value of a list of table settings.
pub open spec fn table_settings_views(tables: Seq<TableSettings>) -> Seq<
    (Seq<char>, Seq<SettingView>),
> {
    Seq::new(tables.len(), |i: int| tables[i]@)
}

/// The detection profile for motion sensors and recording triggers, table by table.
/// Changing the analytics rules resets the other two on some cameras, so those
/// come behind them, and motion detection last.
pub fn smart_motion_profile() -> (r: Vec<TableSettings>)
    ensures
        table_settings_views(r@) == seq![
            ("VideoAnalyseRule"@, literal_views(ANALYSE@)),
            ("SmartMotionDetect"@, literal_views(SMART_MOTION@)),
            ("MotionDetect"@, motion_profile_views()),
        ],
{
    let mut r: Vec<TableSettings> = Vec::new();
    r.push(
        TableSettings {
            name: String::from_str("VideoAnalyseRule"),
            settings: settings(ANALYSE.as_slice()),
        },
    );
    r.push(
        TableSettings {
            name: String::from_str("SmartMotionDetect"),
            settings: settings(SMART_MOTION.as_slice()),
        },
    );
    r.push(TableSettings { name: String::from_str("MotionDetect"), settings: motion_profile() });
    assert(table_settings_views(r@) =~= seq![
        ("VideoAnalyseRule"@, literal_views(ANALYSE@)),
        ("SmartMotionDetect"@, literal_views(SMART_MOTION@)),
        ("MotionDetect"@, motion_profile_views()),
    ]);
    r
}

// --- Recording and snapshots ---

/// The settings of the main stream for a recording.
pub open spec fn recording_encoder_views(
    width: nat,
    height: nat,
    fps: nat,
    gop: nat,
    bitrate_kbps: nat,
    audio_hz: nat,
) -> Seq<SettingView> {
    literal_views(RECORDING_FORMAT@) + seq![
        ("Encode[0].MainFormat[0].Video.Width"@, decimal(width)),
        ("Encode[0].MainFormat[0].Video.Height"@, decimal(height)),
        ("Encode[0].MainFormat[0].Video.FPS"@, decimal(fps)),
        ("Encode[0].MainFormat[0].Video.GOP"@, decimal(gop)),
        ("Encode[0].MainFormat[0].Video.BitRate"@, decimal(bitrate_kbps)),
    ] + literal_views(RECORDING_VIDEO@) + seq![
        ("Encode[0].MainFormat[0].Audio.Frequency"@, decimal(audio_hz)),
    ] + literal_views(RECORDING_AUDIO@)
}

fn push_number(r: &mut Vec<(String, String)>, key: &str, n: u64)
    ensures
        setting_views(final(r)@) == setting_views(old(r)@).push((key@, decimal(n as nat))),
{
    r.push((String::from_str(key), decimal_string(n)));
    assert(setting_views(r@) =~= setting_views(old(r)@).push((key@, decimal(n as nat))));
}

fn push_all(r: &mut Vec<(String, String)>, more: Vec<(String, String)>)
    ensures
        setting_views(final(r)@) == setting_views(old(r)@) + setting_views(more@),
{
    let ghost added = more@;
    let mut more = more;
    r.append(&mut more);
    assert(setting_views(r@) =~= setting_views(old(r)@) + setting_views(added));
}

/// The settings of the main stream for a recording.
pub fn recording_encoder_settings(
    width: u16,
    height: u16,
    fps: u8,
    gop: u32,
    bitrate_kbps: u32,
    audio_hz: u32,
) -> (r: Vec<(String, String)>)
    ensures
        setting_views(r@) == recording_encoder_views(
            width as nat,
            height as nat,
            fps as nat,
            gop as nat,
            bitrate_kbps as nat,
            audio_hz as nat,
        ),
{
    let mut r = settings(RECORDING_FORMAT.as_slice());
    push_number(&mut r, "Encode[0].MainFormat[0].Video.Width", width as u64);
    push_number(&mut r, "Encode[0].MainFormat[0].Video.Height", height as u64);
    push_number(&mut r, "Encode[0].MainFormat[0].Video.FPS", fps as u64);
    push_number(&mut r, "Encode[0].MainFormat[0].Video.GOP", gop as u64);
    push_number(&mut r, "Encode[0].MainFormat[0].Video.BitRate", bitrate_kbps as u64);
    push_all(&mut r, settings(RECORDING_VIDEO.as_slice()));
    push_number(&mut r, "Encode[0].MainFormat[0].Audio.Frequency", audio_hz as u64);
    push_all(&mut r, settings(RECORDING_AUDIO.as_slice()));
    assert(setting_views(r@) =~= recording_encoder_views(
        width as nat,
        height as nat,
        fps as nat,
        gop as nat,
        bitrate_kbps as nat,
        audio_hz as nat,
    ));
    r
}

/// The settings of regular snapshots. Their resolution is left to the camera,
/// which reports its fields but does not take them.
pub fn snapshot_settings() -> (r: Vec<(String, String)>)
    ensures
        setting_views(r@) == literal_views(SNAPSHOT@),
        setting_views(r@) == seq![
            ("Encode[0].SnapFormat[0].VideoEnable"@, "true"@),
            ("Encode[0].SnapFormat[0].Video.Compression"@, "MJPG"@),
            ("Encode[0].SnapFormat[0].Video.Quality"@, "6"@),
        ],
{
    proof {
        assert(literal_views(SNAPSHOT@) =~= seq![
            ("Encode[0].SnapFormat[0].VideoEnable"@, "true"@),
            ("Encode[0].SnapFormat[0].Video.Compression"@, "MJPG"@),
            ("Encode[0].SnapFormat[0].Video.Quality"@, "6"@),
        ]);
    }
    settings(SNAPSHOT.as_slice())
}

} // verus!
