//! What every camera is set to, setting by setting.

use vstd::prelude::*;
use super::config::{literal_views, SettingView};
use super::plan::flat;
use super::profile::{media_profile, motion_profile_views, numbered_key, picture_profile, recording_encoder_views, region_row, smart_ir, time_section, window_setting, ANALYSE, MOTION, SMART_MOTION};
use crate::text::decimal;

verus! {

proof fn lemma_in_flat(groups: Seq<Seq<SettingView>>, i: int, p: int)
    requires
        0 <= i < groups.len(),
        0 <= p < groups[i].len(),
    ensures
        flat(groups).contains(groups[i][p]),
    decreases groups.len(),
{
    let front = groups.drop_last();
    let all = flat(groups);
    if i < front.len() {
        lemma_in_flat(front, i, p);
        let k = choose|k: int| 0 <= k < flat(front).len() && flat(front)[k] == front[i][p];
        assert(all[k] == groups[i][p]);
    } else {
        assert(all[flat(front).len() + p] == groups[i][p]);
    }
}

/// Sound comes from the microphone at full volume, without noise reduction.
pub proof fn law_sound_comes_from_the_microphone(ir_lighting: bool)
    ensures
        ({
            let all = flat(media_profile(ir_lighting));
            &&& all.contains(("AudioInput[0].AudioSource"@, "Mic"@))
            &&& all.contains(("AudioInputVolume[0]"@, "100"@))
            &&& all.contains(("AudioInDenoise[0].enable"@, "false"@))
            &&& all.contains(("AudioInDenoise[0].level"@, "50"@))
        }),
{
    let groups = media_profile(ir_lighting);
    let group = groups[0];
    assert(group[0] == ("AudioInput[0].AudioSource"@, "Mic"@));
    lemma_in_flat(groups, 0, 0);
    assert(group[1] == ("AudioInputVolume[0]"@, "100"@));
    lemma_in_flat(groups, 0, 1);
    assert(group[2] == ("AudioInDenoise[0].enable"@, "false"@));
    lemma_in_flat(groups, 0, 2);
    assert(group[3] == ("AudioInDenoise[0].level"@, "50"@));
    lemma_in_flat(groups, 0, 3);
}

/// The encoder neither changes its rate on its own nor adds a water mark.
pub proof fn law_the_encoder_adds_nothing(ir_lighting: bool)
    ensures
        ({
            let all = flat(media_profile(ir_lighting));
            &&& all.contains(("SmartEncode[0].Enable"@, "false"@))
            &&& all.contains(("AICoding[0].Enable"@, "false"@))
            &&& all.contains(("TwoRefEncode.Enable"@, "false"@))
            &&& all.contains(("VideoWaterMark[0].Enable"@, "false"@))
        }),
{
    let groups = media_profile(ir_lighting);
    let group = groups[1];
    assert(group[0] == ("SmartEncode[0].Enable"@, "false"@));
    lemma_in_flat(groups, 1, 0);
    assert(group[1] == ("AICoding[0].Enable"@, "false"@));
    lemma_in_flat(groups, 1, 1);
    assert(group[2] == ("TwoRefEncode.Enable"@, "false"@));
    lemma_in_flat(groups, 1, 2);
    assert(group[3] == ("VideoWaterMark[0].Enable"@, "false"@));
    lemma_in_flat(groups, 1, 3);
}

/// The main stream has sound: AAC at 48 kHz and 64 kbit/s.
pub proof fn law_recordings_have_sound(ir_lighting: bool)
    ensures
        ({
            let all = flat(media_profile(ir_lighting));
            &&& all.contains(("Encode[0].MainFormat[0].AudioEnable"@, "true"@))
            &&& all.contains(("Encode[0].MainFormat[0].Audio.Compression"@, "AAC"@))
            &&& all.contains(("Encode[0].MainFormat[0].Audio.Frequency"@, "48000"@))
            &&& all.contains(("Encode[0].MainFormat[0].Audio.Bitrate"@, "64"@))
            &&& all.contains(("Encode[0].MainFormat[0].Audio.Depth"@, "16"@))
            &&& all.contains(("Encode[0].MainFormat[0].Audio.Channels[0]"@, "0"@))
            &&& all.contains(("Encode[0].MainFormat[0].Audio.Mode"@, "0"@))
            &&& all.contains(("Encode[0].MainFormat[0].Audio.Pack"@, "DHAV"@))
        }),
{
    let groups = media_profile(ir_lighting);
    let group = groups[2];
    assert(group[0] == ("Encode[0].MainFormat[0].AudioEnable"@, "true"@));
    lemma_in_flat(groups, 2, 0);
    assert(group[1] == ("Encode[0].MainFormat[0].Audio.Compression"@, "AAC"@));
    lemma_in_flat(groups, 2, 1);
    assert(group[2] == ("Encode[0].MainFormat[0].Audio.Frequency"@, "48000"@));
    lemma_in_flat(groups, 2, 2);
    assert(group[3] == ("Encode[0].MainFormat[0].Audio.Bitrate"@, "64"@));
    lemma_in_flat(groups, 2, 3);
    assert(group[4] == ("Encode[0].MainFormat[0].Audio.Depth"@, "16"@));
    lemma_in_flat(groups, 2, 4);
    assert(group[5] == ("Encode[0].MainFormat[0].Audio.Channels[0]"@, "0"@));
    lemma_in_flat(groups, 2, 5);
    assert(group[6] == ("Encode[0].MainFormat[0].Audio.Mode"@, "0"@));
    lemma_in_flat(groups, 2, 6);
    assert(group[7] == ("Encode[0].MainFormat[0].Audio.Pack"@, "DHAV"@));
    lemma_in_flat(groups, 2, 7);
}

/// The picture is neither enhanced nor corrected.
pub proof fn law_pictures_are_not_enhanced(ir_lighting: bool)
    ensures
        ({
            let all = flat(media_profile(ir_lighting));
            &&& all.contains(("ImageEnhancement[0].Enable"@, "false"@))
            &&& all.contains(("ImageEnhancement[0].CarWindowEnable"@, "false"@))
            &&& all.contains(("ImageEnhancement[0].PlateEnable"@, "false"@))
            &&& all.contains(("LDCorrection[0].Enable"@, "false"@))
        }),
{
    let groups = media_profile(ir_lighting);
    let group = groups[3];
    assert(group[0] == ("ImageEnhancement[0].Enable"@, "false"@));
    lemma_in_flat(groups, 3, 0);
    assert(group[1] == ("ImageEnhancement[0].CarWindowEnable"@, "false"@));
    lemma_in_flat(groups, 3, 1);
    assert(group[2] == ("ImageEnhancement[0].PlateEnable"@, "false"@));
    lemma_in_flat(groups, 3, 2);
    assert(group[3] == ("LDCorrection[0].Enable"@, "false"@));
    lemma_in_flat(groups, 3, 3);
}

/// No stream has regions of interest, and none is cropped.
pub proof fn law_the_whole_picture_counts(ir_lighting: bool)
    ensures
        ({
            let all = flat(media_profile(ir_lighting));
            &&& all.contains(("VideoEncodeROI[0].DynamicTrack"@, "false"@))
            &&& all.contains(("VideoEncodeROI[0].Main"@, "false"@))
            &&& all.contains(("VideoEncodeROI[0].Extra1"@, "false"@))
            &&& all.contains(("VideoEncodeROI[0].Extra2"@, "false"@))
            &&& all.contains(("VideoEncodeROI[0].Extra3"@, "false"@))
            &&& all.contains(("VideoEncodeROI[0].Snapshot"@, "false"@))
            &&& all.contains(("EncodeCrop[0].Extra1.Enable"@, "false"@))
            &&& all.contains(("EncodeCrop[0].Extra2.Enable"@, "false"@))
        }),
{
    let groups = media_profile(ir_lighting);
    let group = groups[4];
    assert(group[0] == ("VideoEncodeROI[0].DynamicTrack"@, "false"@));
    lemma_in_flat(groups, 4, 0);
    assert(group[1] == ("VideoEncodeROI[0].Main"@, "false"@));
    lemma_in_flat(groups, 4, 1);
    assert(group[2] == ("VideoEncodeROI[0].Extra1"@, "false"@));
    lemma_in_flat(groups, 4, 2);
    assert(group[3] == ("VideoEncodeROI[0].Extra2"@, "false"@));
    lemma_in_flat(groups, 4, 3);
    assert(group[4] == ("VideoEncodeROI[0].Extra3"@, "false"@));
    lemma_in_flat(groups, 4, 4);
    assert(group[5] == ("VideoEncodeROI[0].Snapshot"@, "false"@));
    lemma_in_flat(groups, 4, 5);
    assert(group[6] == ("EncodeCrop[0].Extra1.Enable"@, "false"@));
    lemma_in_flat(groups, 4, 6);
    assert(group[7] == ("EncodeCrop[0].Extra2.Enable"@, "false"@));
    lemma_in_flat(groups, 4, 7);
}

/// Exposure is automatic; the illuminator helps it where it is used.
pub proof fn law_exposure_is_automatic(ir_lighting: bool)
    ensures
        ({
            let all = flat(media_profile(ir_lighting));
            &&& all.contains(("VideoInMode[0].Mode"@, "0"@))
            &&& all.contains(("VideoInMode[0].Config[0]"@, "0"@))
            &&& all.contains(("VideoInOptions[0].ExposureMode"@, "0"@))
            &&& all.contains(("VideoInOptions[0].ExposureSpeed"@, "0"@))
            &&& all.contains(("VideoInOptions[0].GainMin"@, "0"@))
            &&& all.contains(("VideoInOptions[0].GainMax"@, "50"@))
            &&& all.contains(("VideoInOptions[0].SlowShutter"@, "false"@))
            &&& ir_lighting ==> all.contains(("VideoInOptions[0].SmartIRExposure"@, "true"@))
            &&& !ir_lighting ==> all.contains(("VideoInOptions[0].SmartIRExposure"@, "false"@))
        }),
{
    let groups = media_profile(ir_lighting);
    let group = groups[5];
    assert(group[0] == ("VideoInMode[0].Mode"@, "0"@));
    lemma_in_flat(groups, 5, 0);
    assert(group[1] == ("VideoInMode[0].Config[0]"@, "0"@));
    lemma_in_flat(groups, 5, 1);
    assert(group[2] == ("VideoInOptions[0].ExposureMode"@, "0"@));
    lemma_in_flat(groups, 5, 2);
    assert(group[3] == ("VideoInOptions[0].ExposureSpeed"@, "0"@));
    lemma_in_flat(groups, 5, 3);
    assert(group[4] == ("VideoInOptions[0].GainMin"@, "0"@));
    lemma_in_flat(groups, 5, 4);
    assert(group[5] == ("VideoInOptions[0].GainMax"@, "50"@));
    lemma_in_flat(groups, 5, 5);
    assert(group[6] == ("VideoInOptions[0].SlowShutter"@, "false"@));
    lemma_in_flat(groups, 5, 6);
    assert(group[7] == ("VideoInOptions[0].SmartIRExposure"@, smart_ir(ir_lighting)));
    lemma_in_flat(groups, 5, 7);
}

/// The picture is neither turned nor mirrored nor frozen.
pub proof fn law_pictures_are_upright(ir_lighting: bool)
    ensures
        ({
            let all = flat(media_profile(ir_lighting));
            &&& all.contains(("VideoImageControl[0].Flip"@, "false"@))
            &&& all.contains(("VideoImageControl[0].Freeze"@, "false"@))
            &&& all.contains(("VideoImageControl[0].Mirror"@, "false"@))
            &&& all.contains(("VideoImageControl[0].Rotate90"@, "0"@))
            &&& all.contains(("VideoImageControl[0].Stable"@, "0"@))
        }),
{
    let groups = media_profile(ir_lighting);
    let group = groups[6];
    assert(group[0] == ("VideoImageControl[0].Flip"@, "false"@));
    lemma_in_flat(groups, 6, 0);
    assert(group[1] == ("VideoImageControl[0].Freeze"@, "false"@));
    lemma_in_flat(groups, 6, 1);
    assert(group[2] == ("VideoImageControl[0].Mirror"@, "false"@));
    lemma_in_flat(groups, 6, 2);
    assert(group[3] == ("VideoImageControl[0].Rotate90"@, "0"@));
    lemma_in_flat(groups, 6, 3);
    assert(group[4] == ("VideoImageControl[0].Stable"@, "0"@));
    lemma_in_flat(groups, 6, 4);
}

proof fn lemma_picture_group(ir_lighting: bool, n: nat, k: int)
    requires
        n < 3,
        0 <= k < 5,
    ensures
        media_profile(ir_lighting).len() == 22,
        media_profile(ir_lighting)[7 + 5 * (n as int) + k] == picture_profile(ir_lighting, n)[k],
{
    if n == 0 {
    } else if n == 1 {
    } else {
        assert(n == 2);
    }
}

/// The colours of each picture profile are in the middle of their range.
pub proof fn law_colours_are_plain(ir_lighting: bool, n: nat)
    requires
        n < 3,
    ensures
        ({
            let all = flat(media_profile(ir_lighting));
            &&& all.contains((numbered_key("VideoColor"@, n, "Brightness"@), "50"@))
            &&& all.contains((numbered_key("VideoColor"@, n, "ChromaSuppress"@), "50"@))
            &&& all.contains((numbered_key("VideoColor"@, n, "Contrast"@), "50"@))
            &&& all.contains((numbered_key("VideoColor"@, n, "Gamma"@), "50"@))
            &&& all.contains((numbered_key("VideoColor"@, n, "Hue"@), "50"@))
            &&& all.contains((numbered_key("VideoColor"@, n, "Saturation"@), "50"@))
            &&& all.contains((numbered_key("VideoColor"@, n, "Style"@), "Standard"@))
            &&& all.contains((numbered_key("VideoColor"@, n, "TimeSection"@), "0 00:00:00-24:00:00"@))
        }),
{
    let groups = media_profile(ir_lighting);
    lemma_picture_group(ir_lighting, n, 0);
    let at = 7 + 5 * (n as int) + 0;
    let group = picture_profile(ir_lighting, n)[0];
    assert(group[0] == (numbered_key("VideoColor"@, n, "Brightness"@), "50"@));
    lemma_in_flat(groups, at, 0);
    assert(group[1] == (numbered_key("VideoColor"@, n, "ChromaSuppress"@), "50"@));
    lemma_in_flat(groups, at, 1);
    assert(group[2] == (numbered_key("VideoColor"@, n, "Contrast"@), "50"@));
    lemma_in_flat(groups, at, 2);
    assert(group[3] == (numbered_key("VideoColor"@, n, "Gamma"@), "50"@));
    lemma_in_flat(groups, at, 3);
    assert(group[4] == (numbered_key("VideoColor"@, n, "Hue"@), "50"@));
    lemma_in_flat(groups, at, 4);
    assert(group[5] == (numbered_key("VideoColor"@, n, "Saturation"@), "50"@));
    lemma_in_flat(groups, at, 5);
    assert(group[6] == (numbered_key("VideoColor"@, n, "Style"@), "Standard"@));
    lemma_in_flat(groups, at, 6);
    assert(group[7] == (numbered_key("VideoColor"@, n, "TimeSection"@), "0 00:00:00-24:00:00"@));
    lemma_in_flat(groups, at, 7);
}

/// Each picture profile goes by the light between day and night, without backlight or fog
/// correction.
pub proof fn law_day_and_night_follow_the_light(ir_lighting: bool, n: nat)
    requires
        n < 3,
    ensures
        ({
            let all = flat(media_profile(ir_lighting));
            &&& all.contains((numbered_key("VideoInBacklight"@, n, "Mode"@), "Off"@))
            &&& all.contains((numbered_key("VideoInDayNight"@, n, "Type"@), "Mechanism"@))
            &&& all.contains((numbered_key("VideoInDayNight"@, n, "Mode"@), "Brightness"@))
            &&& all.contains((numbered_key("VideoInDayNight"@, n, "Sensitivity"@), "2"@))
            &&& all.contains((numbered_key("VideoInDayNight"@, n, "Delay"@), "6"@))
            &&& all.contains((numbered_key("VideoInDefog"@, n, "Mode"@), "Off"@))
            &&& all.contains((numbered_key("VideoInDefog"@, n, "Intensity"@), "0"@))
        }),
{
    let groups = media_profile(ir_lighting);
    lemma_picture_group(ir_lighting, n, 1);
    let at = 7 + 5 * (n as int) + 1;
    let group = picture_profile(ir_lighting, n)[1];
    assert(group[0] == (numbered_key("VideoInBacklight"@, n, "Mode"@), "Off"@));
    lemma_in_flat(groups, at, 0);
    assert(group[1] == (numbered_key("VideoInDayNight"@, n, "Type"@), "Mechanism"@));
    lemma_in_flat(groups, at, 1);
    assert(group[2] == (numbered_key("VideoInDayNight"@, n, "Mode"@), "Brightness"@));
    lemma_in_flat(groups, at, 2);
    assert(group[3] == (numbered_key("VideoInDayNight"@, n, "Sensitivity"@), "2"@));
    lemma_in_flat(groups, at, 3);
    assert(group[4] == (numbered_key("VideoInDayNight"@, n, "Delay"@), "6"@));
    lemma_in_flat(groups, at, 4);
    assert(group[5] == (numbered_key("VideoInDefog"@, n, "Mode"@), "Off"@));
    lemma_in_flat(groups, at, 5);
    assert(group[6] == (numbered_key("VideoInDefog"@, n, "Intensity"@), "0"@));
    lemma_in_flat(groups, at, 6);
}

/// Noise reduction and white balance of each picture profile are automatic.
pub proof fn law_noise_is_reduced(ir_lighting: bool, n: nat)
    requires
        n < 3,
    ensures
        ({
            let all = flat(media_profile(ir_lighting));
            &&& all.contains((numbered_key("VideoInDenoise"@, n, "3DType"@), "Auto"@))
            &&& all.contains((numbered_key("VideoInDenoise"@, n, "3DAutoType.AutoLevel"@), "50"@))
            &&& all.contains((numbered_key("VideoInDenoise"@, n, "3DManulType.SnfLevel"@), "50"@))
            &&& all.contains((numbered_key("VideoInDenoise"@, n, "3DManulType.TnfLevel"@), "50"@))
            &&& all.contains((numbered_key("VideoInSharpness"@, n, "Sharpness"@), "50"@))
            &&& all.contains((numbered_key("VideoInWhiteBalance"@, n, "Mode"@), "Auto"@))
        }),
{
    let groups = media_profile(ir_lighting);
    lemma_picture_group(ir_lighting, n, 2);
    let at = 7 + 5 * (n as int) + 2;
    let group = picture_profile(ir_lighting, n)[2];
    assert(group[0] == (numbered_key("VideoInDenoise"@, n, "3DType"@), "Auto"@));
    lemma_in_flat(groups, at, 0);
    assert(group[1] == (numbered_key("VideoInDenoise"@, n, "3DAutoType.AutoLevel"@), "50"@));
    lemma_in_flat(groups, at, 1);
    assert(group[2] == (numbered_key("VideoInDenoise"@, n, "3DManulType.SnfLevel"@), "50"@));
    lemma_in_flat(groups, at, 2);
    assert(group[3] == (numbered_key("VideoInDenoise"@, n, "3DManulType.TnfLevel"@), "50"@));
    lemma_in_flat(groups, at, 3);
    assert(group[4] == (numbered_key("VideoInSharpness"@, n, "Sharpness"@), "50"@));
    lemma_in_flat(groups, at, 4);
    assert(group[5] == (numbered_key("VideoInWhiteBalance"@, n, "Mode"@), "Auto"@));
    lemma_in_flat(groups, at, 5);
}

/// The illuminator of each picture profile is automatic where it is used, and off where
/// it is not.
pub proof fn law_the_illuminator_follows_its_switch(ir_lighting: bool, n: nat)
    requires
        n < 3,
    ensures
        ({
            let all = flat(media_profile(ir_lighting));
            &&& all.contains((numbered_key("Lighting"@, n, "Correction"@), "50"@))
            &&& all.contains((numbered_key("Lighting"@, n, "Sensitive"@), "3"@))
            &&& all.contains((numbered_key("Lighting"@, n, "MiddleLight[0].Angle"@), "50"@))
            &&& all.contains((numbered_key("Lighting"@, n, "MiddleLight[0].Light"@), "50"@))
            &&& ir_lighting ==> all.contains((numbered_key("Lighting"@, n, "Mode"@), "Auto"@))
            &&& !ir_lighting ==> all.contains((numbered_key("Lighting"@, n, "Mode"@), "Off"@))
        }),
{
    let groups = media_profile(ir_lighting);
    lemma_picture_group(ir_lighting, n, 3);
    let at = 7 + 5 * (n as int) + 3;
    let group = picture_profile(ir_lighting, n)[3];
    lemma_in_flat(groups, at, 0);
    assert(group[1] == (numbered_key("Lighting"@, n, "Correction"@), "50"@));
    lemma_in_flat(groups, at, 1);
    assert(group[2] == (numbered_key("Lighting"@, n, "Sensitive"@), "3"@));
    lemma_in_flat(groups, at, 2);
    assert(group[3] == (numbered_key("Lighting"@, n, "MiddleLight[0].Angle"@), "50"@));
    lemma_in_flat(groups, at, 3);
    assert(group[4] == (numbered_key("Lighting"@, n, "MiddleLight[0].Light"@), "50"@));
    lemma_in_flat(groups, at, 4);
}

/// No picture profile is turned, mirrored or frozen.
pub proof fn law_each_picture_profile_is_upright(ir_lighting: bool, n: nat)
    requires
        n < 3,
    ensures
        ({
            let all = flat(media_profile(ir_lighting));
            &&& all.contains((numbered_key("VideoInRotate"@, n, "Flip"@), "false"@))
            &&& all.contains((numbered_key("VideoInRotate"@, n, "Freeze"@), "false"@))
            &&& all.contains((numbered_key("VideoInRotate"@, n, "Mirror"@), "false"@))
            &&& all.contains((numbered_key("VideoInRotate"@, n, "Rotate90"@), "0"@))
            &&& all.contains((numbered_key("VideoInRotate"@, n, "Stable"@), "0"@))
        }),
{
    let groups = media_profile(ir_lighting);
    lemma_picture_group(ir_lighting, n, 4);
    let at = 7 + 5 * (n as int) + 4;
    let group = picture_profile(ir_lighting, n)[4];
    assert(group[0] == (numbered_key("VideoInRotate"@, n, "Flip"@), "false"@));
    lemma_in_flat(groups, at, 0);
    assert(group[1] == (numbered_key("VideoInRotate"@, n, "Freeze"@), "false"@));
    lemma_in_flat(groups, at, 1);
    assert(group[2] == (numbered_key("VideoInRotate"@, n, "Mirror"@), "false"@));
    lemma_in_flat(groups, at, 2);
    assert(group[3] == (numbered_key("VideoInRotate"@, n, "Rotate90"@), "0"@));
    lemma_in_flat(groups, at, 3);
    assert(group[4] == (numbered_key("VideoInRotate"@, n, "Stable"@), "0"@));
    lemma_in_flat(groups, at, 4);
}

/// A setting of a picture profile is in the table's list for the first channel, at the
/// number of the profile.
pub proof fn law_picture_settings_are_numbered(group: Seq<char>, n: nat, field: Seq<char>)
    ensures
        numbered_key(group, n, field) == group + seq!['[', '0', ']', '['] + decimal(n) + seq![
            ']',
            '.',
        ] + field,
{
    reveal_strlit("[0][");
    reveal_strlit("].");
    assert("[0]["@ =~= seq!['[', '0', ']', '[']);
    assert("]."@ =~= seq![']', '.']);
}

/// Motion is detected at the middle of its range, and of all the camera could do on it
/// itself, it only keeps its log.
pub proof fn law_motion_is_only_reported()
    ensures
        ({
            let all = motion_profile_views();
            &&& all.len() == 178
            &&& all.contains(("MotionDetect[0].Enable"@, "true"@))
            &&& all.contains(("MotionDetect[0].Level"@, "3"@))
            &&& all.contains(("MotionDetect[0].EventHandler.Dejitter"@, "5"@))
            &&& all.contains(("MotionDetect[0].EventHandler.Delay"@, "0"@))
            &&& all.contains(("MotionDetect[0].EventHandler.AlarmOutEnable"@, "false"@))
            &&& all.contains(("MotionDetect[0].EventHandler.BeepEnable"@, "false"@))
            &&& all.contains(("MotionDetect[0].EventHandler.ExAlarmOutEnable"@, "false"@))
            &&& all.contains(("MotionDetect[0].EventHandler.FlashEnable"@, "false"@))
            &&& all.contains(("MotionDetect[0].EventHandler.LightingLink.Enable"@, "false"@))
            &&& all.contains(("MotionDetect[0].EventHandler.LogEnable"@, "true"@))
            &&& all.contains(("MotionDetect[0].EventHandler.MailEnable"@, "false"@))
            &&& all.contains(("MotionDetect[0].EventHandler.MatrixEnable"@, "false"@))
            &&& all.contains(("MotionDetect[0].EventHandler.MessageEnable"@, "false"@))
            &&& all.contains(("MotionDetect[0].EventHandler.PtzLinkEnable"@, "false"@))
            &&& all.contains(("MotionDetect[0].EventHandler.RecordEnable"@, "false"@))
            &&& all.contains(("MotionDetect[0].EventHandler.SnapshotEnable"@, "false"@))
            &&& all.contains(("MotionDetect[0].EventHandler.TipEnable"@, "false"@))
            &&& all.contains(("MotionDetect[0].EventHandler.TourEnable"@, "false"@))
            &&& all.contains(("MotionDetect[0].EventHandler.VoiceEnable"@, "false"@))
            &&& all.contains(("MotionDetect[0].OsdTwinkleEnable"@, "false"@))
            &&& all.contains(("MotionDetect[0].PirMotionLevel"@, "3"@))
            &&& all.contains(("MotionDetect[0].PtzManualEnable"@, "false"@))
        }),
{
    let all = motion_profile_views();
    let fixed = literal_views(MOTION@);
    assert(fixed.len() == 22);
    assert(all[0] == ("MotionDetect[0].Enable"@, "true"@));
    assert(all[1] == ("MotionDetect[0].Level"@, "3"@));
    assert(all[2] == ("MotionDetect[0].EventHandler.Dejitter"@, "5"@));
    assert(all[3] == ("MotionDetect[0].EventHandler.Delay"@, "0"@));
    assert(all[4] == ("MotionDetect[0].EventHandler.AlarmOutEnable"@, "false"@));
    assert(all[5] == ("MotionDetect[0].EventHandler.BeepEnable"@, "false"@));
    assert(all[6] == ("MotionDetect[0].EventHandler.ExAlarmOutEnable"@, "false"@));
    assert(all[7] == ("MotionDetect[0].EventHandler.FlashEnable"@, "false"@));
    assert(all[8] == ("MotionDetect[0].EventHandler.LightingLink.Enable"@, "false"@));
    assert(all[9] == ("MotionDetect[0].EventHandler.LogEnable"@, "true"@));
    assert(all[10] == ("MotionDetect[0].EventHandler.MailEnable"@, "false"@));
    assert(all[11] == ("MotionDetect[0].EventHandler.MatrixEnable"@, "false"@));
    assert(all[12] == ("MotionDetect[0].EventHandler.MessageEnable"@, "false"@));
    assert(all[13] == ("MotionDetect[0].EventHandler.PtzLinkEnable"@, "false"@));
    assert(all[14] == ("MotionDetect[0].EventHandler.RecordEnable"@, "false"@));
    assert(all[15] == ("MotionDetect[0].EventHandler.SnapshotEnable"@, "false"@));
    assert(all[16] == ("MotionDetect[0].EventHandler.TipEnable"@, "false"@));
    assert(all[17] == ("MotionDetect[0].EventHandler.TourEnable"@, "false"@));
    assert(all[18] == ("MotionDetect[0].EventHandler.VoiceEnable"@, "false"@));
    assert(all[19] == ("MotionDetect[0].OsdTwinkleEnable"@, "false"@));
    assert(all[20] == ("MotionDetect[0].PirMotionLevel"@, "3"@));
    assert(all[21] == ("MotionDetect[0].PtzManualEnable"@, "false"@));
}

/// Motion is detected all day on every day: of the periods of a day the first is on and
/// the others are off.
pub proof fn law_motion_is_detected_all_week(day: nat, period: nat)
    requires
        day < 7,
        period < 6,
    ensures
        ({
            let key = "MotionDetect[0].EventHandler.TimeSection["@ + decimal(day) + "]["@ + decimal(
                period,
            ) + "]"@;
            &&& period == 0 ==> motion_profile_views().contains((key, "1 00:00:00-23:59:59"@))
            &&& period > 0 ==> motion_profile_views().contains((key, "0 00:00:00-23:59:59"@))
        }),
{
    let i = 6 * day + period;
    assert(i / 6 == day && i % 6 == period);
    assert(literal_views(MOTION@).len() == 22);
    assert(motion_profile_views()[22 + i as int] == time_section(i));
}

/// Motion is detected in the whole picture: every row of it, in full, is in the region,
/// and of the windows in that of the first.
pub proof fn law_motion_is_detected_everywhere(row: nat, window: nat)
    requires
        row < 18,
        window < 4,
    ensures
        ({
            let all = motion_profile_views();
            let key = "MotionDetect[0].MotionDetectWindow["@ + decimal(window) + "].Region["@
                + decimal(row) + "]"@;
            &&& all.contains(("MotionDetect[0].Region["@ + decimal(row) + "]"@, "4194303"@))
            &&& window == 0 ==> all.contains((key, "4194303"@))
            &&& window > 0 ==> all.contains((key, "0"@))
        }),
{
    let all = motion_profile_views();
    let i = 5 * row;
    let j = 5 * row + window + 1;
    assert(i / 5 == row && i % 5 == 0);
    assert(j / 5 == row && j % 5 == window + 1);
    assert(literal_views(MOTION@).len() == 22);
    assert(all[64 + i as int] == region_row(i));
    assert(all[64 + j as int] == region_row(j));
}

/// All windows have the same sensitivity and threshold; the first reaches from the upper
/// left corner to the lower right one, and the others are empty.
pub proof fn law_the_first_window_is_the_picture(window: nat, corner: nat)
    requires
        window < 4,
        corner < 4,
    ensures
        ({
            let all = motion_profile_views();
            let name = "MotionDetect[0].MotionDetectWindow["@ + decimal(window);
            let key = name + "].Window["@ + decimal(corner) + "]"@;
            &&& all.contains((name + "].Sensitive"@, "60"@))
            &&& all.contains((name + "].Threshold"@, "5"@))
            &&& window == 0 && corner >= 2 ==> all.contains((key, "8191"@))
            &&& window > 0 || corner < 2 ==> all.contains((key, "0"@))
        }),
{
    let all = motion_profile_views();
    let i = 6 * window;
    let j = 6 * window + 1;
    let k = 6 * window + 2 + corner;
    assert(i / 6 == window && i % 6 == 0);
    assert(j / 6 == window && j % 6 == 1);
    assert(k / 6 == window && k % 6 == corner + 2);
    assert(literal_views(MOTION@).len() == 22);
    assert(all[154 + i as int] == window_setting(i));
    assert(all[154 + j as int] == window_setting(j));
    assert(all[154 + k as int] == window_setting(k));
}

/// Every one of the older rules is switched off.
pub proof fn law_older_rules_are_off(i: int)
    requires
        0 <= i < ANALYSE@.len(),
    ensures
        ANALYSE@[i].1@ == "false"@ || (ANALYSE@[i].0@
            == "VideoAnalyseRule[0][0].Config.snapObjRectEnable"@ && ANALYSE@[i].1@ == "0"@),
{
    assert(ANALYSE@[0].1@ == "false"@);
    assert(ANALYSE@[1].1@ == "false"@);
    assert(ANALYSE@[2].1@ == "false"@);
    assert(ANALYSE@[3].1@ == "false"@);
    assert(ANALYSE@[4].1@ == "false"@);
    assert(ANALYSE@[5].1@ == "false"@);
    assert(ANALYSE@[6].1@ == "false"@);
    assert(ANALYSE@[7].1@ == "0"@);
    assert(ANALYSE@[8].1@ == "false"@);
    assert(ANALYSE@[9].1@ == "false"@);
    assert(ANALYSE@[10].1@ == "false"@);
    assert(ANALYSE@[11].1@ == "false"@);
    assert(ANALYSE@[12].1@ == "false"@);
    assert(ANALYSE@[13].1@ == "false"@);
    assert(ANALYSE@[14].1@ == "false"@);
    assert(ANALYSE@[15].1@ == "false"@);
    assert(ANALYSE@[16].1@ == "false"@);
    assert(ANALYSE@[17].1@ == "false"@);
    assert(ANALYSE@[18].1@ == "false"@);
    assert(ANALYSE@[19].1@ == "false"@);
    assert(ANALYSE@[20].1@ == "false"@);
    assert(ANALYSE@[21].1@ == "false"@);
    assert(ANALYSE@[7].0@ == "VideoAnalyseRule[0][0].Config.snapObjRectEnable"@);
    assert(i == 0 || i == 1 || i == 2 || i == 3 || i == 4 || i == 5 || i == 6 || i == 7 || i == 8 || i == 9 || i == 10 || i == 11 || i == 12 || i == 13 || i == 14 || i == 15 || i == 16 || i == 17 || i == 18 || i == 19 || i == 20 || i == 21);
}

/// People and vehicles are detected, at a middle sensitivity.
pub proof fn law_people_and_vehicles_are_detected(i: int)
    requires
        0 <= i < SMART_MOTION@.len(),
    ensures
        SMART_MOTION@.len() == 4,
        i == 0 ==> SMART_MOTION@[i].0@ == "SmartMotionDetect[0].Enable"@ && SMART_MOTION@[i].1@ == "true"@,
        i == 1 ==> SMART_MOTION@[i].0@ == "SmartMotionDetect[0].ObjectTypes.Human"@ && SMART_MOTION@[i].1@ == "true"@,
        i == 2 ==> SMART_MOTION@[i].0@ == "SmartMotionDetect[0].ObjectTypes.Vehicle"@ && SMART_MOTION@[i].1@ == "true"@,
        i == 3 ==> SMART_MOTION@[i].0@ == "SmartMotionDetect[0].Sensitivity"@ && SMART_MOTION@[i].1@ == "Middle"@,
{
}

/// The main stream is set to what a recording needs: the size, the rates, the distance of
/// key frames and the sample rate that were given, H.264 of the High profile at the
/// highest quality and a variable rate, and AAC.
pub proof fn law_recordings_get_what_they_need(
    width: nat,
    height: nat,
    fps: nat,
    gop: nat,
    bitrate_kbps: nat,
    audio_hz: nat,
)
    ensures
        ({
            let all = recording_encoder_views(width, height, fps, gop, bitrate_kbps, audio_hz);
            &&& all.len() == 22
            &&& all.contains(("Encode[0].MainFormat[0].VideoEnable"@, "true"@))
            &&& all.contains(("Encode[0].MainFormat[0].Video.Compression"@, "H.264"@))
            &&& all.contains(("Encode[0].MainFormat[0].Video.Width"@, decimal(width)))
            &&& all.contains(("Encode[0].MainFormat[0].Video.Height"@, decimal(height)))
            &&& all.contains(("Encode[0].MainFormat[0].Video.FPS"@, decimal(fps)))
            &&& all.contains(("Encode[0].MainFormat[0].Video.GOP"@, decimal(gop)))
            &&& all.contains(("Encode[0].MainFormat[0].Video.BitRate"@, decimal(bitrate_kbps)))
            &&& all.contains(("Encode[0].MainFormat[0].Video.BitRateControl"@, "VBR"@))
            &&& all.contains(("Encode[0].MainFormat[0].Video.Profile"@, "High"@))
            &&& all.contains(("Encode[0].MainFormat[0].Video.Quality"@, "6"@))
            &&& all.contains(("Encode[0].MainFormat[0].Video.Pack"@, "DHAV"@))
            &&& all.contains(("Encode[0].MainFormat[0].Video.Priority"@, "0"@))
            &&& all.contains(("Encode[0].MainFormat[0].Video.SVCTLayer"@, "1"@))
            &&& all.contains(("Encode[0].MainFormat[0].Video.encodeType"@, "0"@))
            &&& all.contains(("Encode[0].MainFormat[0].Audio.Compression"@, "AAC"@))
            &&& all.contains(("Encode[0].MainFormat[0].Audio.Frequency"@, decimal(audio_hz)))
            &&& all.contains(("Encode[0].MainFormat[0].Audio.Bitrate"@, "64"@))
            &&& all.contains(("Encode[0].MainFormat[0].Audio.Depth"@, "16"@))
            &&& all.contains(("Encode[0].MainFormat[0].Audio.Channels[0]"@, "0"@))
            &&& all.contains(("Encode[0].MainFormat[0].Audio.Mode"@, "0"@))
            &&& all.contains(("Encode[0].MainFormat[0].Audio.Pack"@, "DHAV"@))
            &&& all.contains(("Encode[0].MainFormat[0].AudioEnable"@, "true"@))
        }),
{
    let all = recording_encoder_views(width, height, fps, gop, bitrate_kbps, audio_hz);
    assert(all[0] == ("Encode[0].MainFormat[0].VideoEnable"@, "true"@));
    assert(all[1] == ("Encode[0].MainFormat[0].Video.Compression"@, "H.264"@));
    assert(all[2] == ("Encode[0].MainFormat[0].Video.Width"@, decimal(width)));
    assert(all[3] == ("Encode[0].MainFormat[0].Video.Height"@, decimal(height)));
    assert(all[4] == ("Encode[0].MainFormat[0].Video.FPS"@, decimal(fps)));
    assert(all[5] == ("Encode[0].MainFormat[0].Video.GOP"@, decimal(gop)));
    assert(all[6] == ("Encode[0].MainFormat[0].Video.BitRate"@, decimal(bitrate_kbps)));
    assert(all[7] == ("Encode[0].MainFormat[0].Video.BitRateControl"@, "VBR"@));
    assert(all[8] == ("Encode[0].MainFormat[0].Video.Profile"@, "High"@));
    assert(all[9] == ("Encode[0].MainFormat[0].Video.Quality"@, "6"@));
    assert(all[10] == ("Encode[0].MainFormat[0].Video.Pack"@, "DHAV"@));
    assert(all[11] == ("Encode[0].MainFormat[0].Video.Priority"@, "0"@));
    assert(all[12] == ("Encode[0].MainFormat[0].Video.SVCTLayer"@, "1"@));
    assert(all[13] == ("Encode[0].MainFormat[0].Video.encodeType"@, "0"@));
    assert(all[14] == ("Encode[0].MainFormat[0].Audio.Compression"@, "AAC"@));
    assert(all[15] == ("Encode[0].MainFormat[0].Audio.Frequency"@, decimal(audio_hz)));
    assert(all[16] == ("Encode[0].MainFormat[0].Audio.Bitrate"@, "64"@));
    assert(all[17] == ("Encode[0].MainFormat[0].Audio.Depth"@, "16"@));
    assert(all[18] == ("Encode[0].MainFormat[0].Audio.Channels[0]"@, "0"@));
    assert(all[19] == ("Encode[0].MainFormat[0].Audio.Mode"@, "0"@));
    assert(all[20] == ("Encode[0].MainFormat[0].Audio.Pack"@, "DHAV"@));
    assert(all[21] == ("Encode[0].MainFormat[0].AudioEnable"@, "true"@));
}

} // verus!
