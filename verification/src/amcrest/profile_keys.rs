//! That the media profile sets each key once, and what the illuminator changes
//! in it.

use vstd::prelude::*;
use super::config::{literal_views, SettingView};
use super::plan::flat;
use super::profile::{
    media_profile, numbered_key, picture_profile, smart_ir, AUDIO_INPUT, COLOR, DAY_NIGHT, DENOISE,
    ENCODER_EXTRAS, EXPOSURE, IMAGE_CONTROL, IMAGE_ENHANCEMENT, LIGHTING, MAIN_AUDIO,
    REGIONS_OF_INTEREST, ROTATION,
};
use crate::text::{decimal, digit_char};

verus! {

/// That no key stands in a list of settings twice.
pub open spec fn distinct_keys(settings: Seq<SettingView>) -> bool {
    forall|i: int, j: int|
        0 <= i < j < settings.len() ==> (#[trigger] settings[i]).0 != (#[trigger] settings[j]).0
}

/// Whether the value of a key depends on the infrared illuminator.
pub open spec fn follows_illuminator(key: Seq<char>) -> bool {
    ||| key == "VideoInOptions[0].SmartIRExposure"@
    ||| key == numbered_key("Lighting"@, 0, "Mode"@)
    ||| key == numbered_key("Lighting"@, 1, "Mode"@)
    ||| key == numbered_key("Lighting"@, 2, "Mode"@)
}

// --- Keys written out ---

/// The group of a key of the media profile, by the first and the eighth letter of
/// its table; 7 for a table with one part per picture profile.
spec fn group_number(key: Seq<char>) -> int {
    let first = key[0];
    let eighth = key[7];
    if first == 'A' {
        if eighth == 'g' {
            1
        } else {
            0
        }
    } else if first == 'S' || first == 'T' {
        1
    } else if first == 'E' {
        if eighth == 'r' {
            4
        } else {
            2
        }
    } else if first == 'I' {
        3
    } else if first == 'L' {
        if eighth == 'c' {
            3
        } else {
            7
        }
    } else if eighth == 't' {
        1
    } else if eighth == 'c' {
        4
    } else if eighth == 'M' || eighth == 'O' {
        5
    } else if eighth == 'a' {
        6
    } else {
        7
    }
}

/// What tells the keys of a group apart: their length and three of their last
/// letters.
spec fn mark(key: Seq<char>) -> (nat, char, char, char) {
    (key.len(), key[key.len() - 8], key[key.len() - 6], key[key.len() - 1])
}

/// That a group's keys have its number and differ in their marks.
spec fn marked(group: Seq<SettingView>, number: int) -> bool {
    &&& forall|p: int|
        0 <= p < group.len() ==> group_number((#[trigger] group[p]).0) == number
    &&& forall|p: int, q: int|
        0 <= p < q < group.len() ==> mark((#[trigger] group[p]).0) != mark((#[trigger] group[q]).0)
}

proof fn lemma_audio_input()
    ensures
        marked(literal_views(AUDIO_INPUT@), 0),
{
    reveal_strlit("AudioInput[0].AudioSource");
    reveal_strlit("AudioInputVolume[0]");
    reveal_strlit("AudioInDenoise[0].enable");
    reveal_strlit("AudioInDenoise[0].level");
}

proof fn lemma_encoder_extras()
    ensures
        marked(literal_views(ENCODER_EXTRAS@), 1),
{
    reveal_strlit("SmartEncode[0].Enable");
    reveal_strlit("AICoding[0].Enable");
    reveal_strlit("TwoRefEncode.Enable");
    reveal_strlit("VideoWaterMark[0].Enable");
}

proof fn lemma_main_audio()
    ensures
        marked(literal_views(MAIN_AUDIO@), 2),
{
    reveal_strlit("Encode[0].MainFormat[0].AudioEnable");
    reveal_strlit("Encode[0].MainFormat[0].Audio.Compression");
    reveal_strlit("Encode[0].MainFormat[0].Audio.Frequency");
    reveal_strlit("Encode[0].MainFormat[0].Audio.Bitrate");
    reveal_strlit("Encode[0].MainFormat[0].Audio.Depth");
    reveal_strlit("Encode[0].MainFormat[0].Audio.Channels[0]");
    reveal_strlit("Encode[0].MainFormat[0].Audio.Mode");
    reveal_strlit("Encode[0].MainFormat[0].Audio.Pack");
}

proof fn lemma_image_enhancement()
    ensures
        marked(literal_views(IMAGE_ENHANCEMENT@), 3),
{
    reveal_strlit("ImageEnhancement[0].Enable");
    reveal_strlit("ImageEnhancement[0].CarWindowEnable");
    reveal_strlit("ImageEnhancement[0].PlateEnable");
    reveal_strlit("LDCorrection[0].Enable");
}

proof fn lemma_regions_of_interest()
    ensures
        marked(literal_views(REGIONS_OF_INTEREST@), 4),
{
    reveal_strlit("VideoEncodeROI[0].DynamicTrack");
    reveal_strlit("VideoEncodeROI[0].Main");
    reveal_strlit("VideoEncodeROI[0].Extra1");
    reveal_strlit("VideoEncodeROI[0].Extra2");
    reveal_strlit("VideoEncodeROI[0].Extra3");
    reveal_strlit("VideoEncodeROI[0].Snapshot");
    reveal_strlit("EncodeCrop[0].Extra1.Enable");
    reveal_strlit("EncodeCrop[0].Extra2.Enable");
}

proof fn lemma_exposure(value: Seq<char>)
    ensures
        marked(literal_views(EXPOSURE@).push(("VideoInOptions[0].SmartIRExposure"@, value)), 5),
{
    reveal_strlit("VideoInMode[0].Mode");
    reveal_strlit("VideoInMode[0].Config[0]");
    reveal_strlit("VideoInOptions[0].ExposureMode");
    reveal_strlit("VideoInOptions[0].ExposureSpeed");
    reveal_strlit("VideoInOptions[0].GainMin");
    reveal_strlit("VideoInOptions[0].GainMax");
    reveal_strlit("VideoInOptions[0].SlowShutter");
    reveal_strlit("VideoInOptions[0].SmartIRExposure");
}

proof fn lemma_image_control()
    ensures
        marked(literal_views(IMAGE_CONTROL@), 6),
{
    reveal_strlit("VideoImageControl[0].Flip");
    reveal_strlit("VideoImageControl[0].Freeze");
    reveal_strlit("VideoImageControl[0].Mirror");
    reveal_strlit("VideoImageControl[0].Rotate90");
    reveal_strlit("VideoImageControl[0].Stable");
}

// --- Keys of a picture profile ---

/// The tables and fields of a group of a picture profile.
spec fn fields(group: int) -> Seq<(Seq<char>, Seq<char>)> {
    if group == 0 {
        Seq::new(8, |p: int| (COLOR@[p].0@, COLOR@[p].1@))
    } else if group == 1 {
        Seq::new(7, |p: int| (DAY_NIGHT@[p].0@, DAY_NIGHT@[p].1@))
    } else if group == 2 {
        Seq::new(6, |p: int| (DENOISE@[p].0@, DENOISE@[p].1@))
    } else if group == 3 {
        seq![("Lighting"@, "Mode"@)] + Seq::new(4, |p: int| (LIGHTING@[p].0@, LIGHTING@[p].1@))
    } else {
        Seq::new(5, |p: int| (ROTATION@[p].0@, ROTATION@[p].1@))
    }
}

/// The group of a table within a picture profile, by its eighth letter and its
/// length.
spec fn table_number(name: Seq<char>) -> int {
    let eighth = name[7];
    if eighth == 'l' {
        0
    } else if eighth == 'B' || eighth == 'D' && name.len() != 14 {
        1
    } else if eighth == 'D' || eighth == 'S' || eighth == 'W' {
        2
    } else if eighth == 'g' {
        3
    } else {
        4
    }
}

/// What tells the fields of a group apart: the lengths of the two names and two of
/// the field's letters.
spec fn field_mark(name: Seq<char>, field: Seq<char>) -> (nat, nat, char, char) {
    (
        name.len(),
        field.len(),
        field[field.len() - 2],
        if field.len() >= 8 {
            field[field.len() - 8]
        } else {
            ' '
        },
    )
}

/// Whether a text is the name of a table of a picture profile's group.
spec fn is_table(name: Seq<char>, group: int) -> bool {
    &&& name.len() >= 8
    &&& group_number(name) == 7
    &&& table_number(name) == group
    &&& forall|i: int| 0 <= i < name.len() ==> #[trigger] name[i] != '['
}

/// That a group's tables are its own and its fields differ in their marks.
spec fn marked_fields(group: int) -> bool {
    let list = fields(group);
    &&& forall|p: int| 0 <= p < list.len() ==> is_table((#[trigger] list[p]).0, group)
    &&& forall|p: int, q: int|
        0 <= p < q < list.len() ==> field_mark((#[trigger] list[p]).0, list[p].1) != field_mark(
            (#[trigger] list[q]).0,
            list[q].1,
        )
}

proof fn lemma_color_fields()
    ensures
        marked_fields(0),
{
    reveal_strlit("VideoColor");
    reveal_strlit("Brightness");
    reveal_strlit("ChromaSuppress");
    reveal_strlit("Contrast");
    reveal_strlit("Gamma");
    reveal_strlit("Hue");
    reveal_strlit("Saturation");
    reveal_strlit("Style");
    reveal_strlit("TimeSection");
}

proof fn lemma_day_night_fields()
    ensures
        marked_fields(1),
{
    reveal_strlit("VideoInBacklight");
    reveal_strlit("Mode");
    reveal_strlit("VideoInDayNight");
    reveal_strlit("Type");
    reveal_strlit("Sensitivity");
    reveal_strlit("Delay");
    reveal_strlit("VideoInDefog");
    reveal_strlit("Intensity");
}

proof fn lemma_denoise_fields()
    ensures
        marked_fields(2),
{
    reveal_strlit("VideoInDenoise");
    reveal_strlit("3DType");
    reveal_strlit("3DAutoType.AutoLevel");
    reveal_strlit("3DManulType.SnfLevel");
    reveal_strlit("3DManulType.TnfLevel");
    reveal_strlit("VideoInSharpness");
    reveal_strlit("Sharpness");
    reveal_strlit("VideoInWhiteBalance");
    reveal_strlit("Mode");
}

proof fn lemma_lighting_fields()
    ensures
        marked_fields(3),
{
    reveal_strlit("Lighting");
    reveal_strlit("Mode");
    reveal_strlit("Correction");
    reveal_strlit("Sensitive");
    reveal_strlit("MiddleLight[0].Angle");
    reveal_strlit("MiddleLight[0].Light");
}

proof fn lemma_rotation_fields()
    ensures
        marked_fields(4),
{
    reveal_strlit("VideoInRotate");
    reveal_strlit("Flip");
    reveal_strlit("Freeze");
    reveal_strlit("Mirror");
    reveal_strlit("Rotate90");
    reveal_strlit("Stable");
}

/// A key of a picture profile has one table, one profile and one field.
proof fn lemma_numbered_key(
    a: Seq<char>,
    m: nat,
    f: Seq<char>,
    b: Seq<char>,
    n: nat,
    g: Seq<char>,
)
    requires
        m < 3,
        n < 3,
        forall|i: int| 0 <= i < a.len() ==> #[trigger] a[i] != '[',
        forall|i: int| 0 <= i < b.len() ==> #[trigger] b[i] != '[',
        numbered_key(a, m, f) == numbered_key(b, n, g),
    ensures
        a == b,
        m == n,
        f == g,
{
    reveal_strlit("[0][");
    reveal_strlit("].");
    let x = numbered_key(a, m, f);
    let y = numbered_key(b, n, g);
    assert(decimal(m) == seq![digit_char(m)]);
    assert(decimal(n) == seq![digit_char(n)]);
    assert(x[a.len() as int] == '[');
    assert(y[b.len() as int] == '[');
    if a.len() < b.len() {
        assert(y[a.len() as int] == b[a.len() as int]);
    }
    if b.len() < a.len() {
        assert(x[b.len() as int] == a[b.len() as int]);
    }
    let k = a.len() as int;
    assert(a =~= x.take(k));
    assert(b =~= y.take(k));
    assert(x[k + 4] == digit_char(m));
    assert(y[k + 4] == digit_char(n));
    assert(f =~= x.skip(k + 7));
    assert(g =~= y.skip(k + 7));
}

// --- The whole profile ---

/// What stands in a group of the media profile: keys written out, or those of a
/// picture profile.
proof fn lemma_group(ir_lighting: bool, i: int)
    requires
        0 <= i < 22,
    ensures
        i < 7 ==> marked(media_profile(ir_lighting)[i], i),
        i >= 7 ==> {
            let group = media_profile(ir_lighting)[i];
            let list = fields((i - 7) % 5);
            &&& marked_fields((i - 7) % 5)
            &&& group.len() == list.len()
            &&& forall|p: int|
                0 <= p < list.len() ==> (#[trigger] group[p]).0 == numbered_key(
                    list[p].0,
                    ((i - 7) / 5) as nat,
                    list[p].1,
                )
        },
{
    if i < 7 {
        lemma_audio_input();
        lemma_encoder_extras();
        lemma_main_audio();
        lemma_image_enhancement();
        lemma_regions_of_interest();
        lemma_exposure(smart_ir(ir_lighting));
        lemma_image_control();
    } else {
        let n = ((i - 7) / 5) as nat;
        let c = (i - 7) % 5;
        assert(media_profile(ir_lighting)[i] == picture_profile(ir_lighting, n)[c]);
        lemma_color_fields();
        lemma_day_night_fields();
        lemma_denoise_fields();
        lemma_lighting_fields();
        lemma_rotation_fields();
    }
}

/// A key stands in one place of the media profile.
proof fn lemma_one_place(ir_lighting: bool, i: int, p: int, j: int, q: int)
    requires
        0 <= i < 22,
        0 <= j < 22,
        0 <= p < media_profile(ir_lighting)[i].len(),
        0 <= q < media_profile(ir_lighting)[j].len(),
        media_profile(ir_lighting)[i][p].0 == media_profile(ir_lighting)[j][q].0,
    ensures
        i == j,
        p == q,
{
    lemma_group(ir_lighting, i);
    lemma_group(ir_lighting, j);
    let a = media_profile(ir_lighting)[i];
    let b = media_profile(ir_lighting)[j];
    if i >= 7 {
        let x = fields((i - 7) % 5)[p];
        assert(is_table(x.0, (i - 7) % 5));
        assert(group_number(a[p].0) == 7);
    }
    if j >= 7 {
        let y = fields((j - 7) % 5)[q];
        assert(is_table(y.0, (j - 7) % 5));
        assert(group_number(b[q].0) == 7);
    }
    if i < 7 {
        assert(group_number(a[p].0) == i);
    }
    if j < 7 {
        assert(group_number(b[q].0) == j);
    }
    if i >= 7 {
        let x = fields((i - 7) % 5)[p];
        let y = fields((j - 7) % 5)[q];
        lemma_numbered_key(
            x.0,
            ((i - 7) / 5) as nat,
            x.1,
            y.0,
            ((j - 7) / 5) as nat,
            y.1,
        );
        assert(table_number(x.0) == (i - 7) % 5);
        assert(table_number(y.0) == (j - 7) % 5);
    }
}

/// That no key stands in two places of a list of groups.
spec fn one_place(groups: Seq<Seq<SettingView>>) -> bool {
    forall|i: int, p: int, j: int, q: int|
        0 <= i < groups.len() && 0 <= j < groups.len() && 0 <= p < groups[i].len() && 0 <= q
            < groups[j].len() && (#[trigger] groups[i][p]).0 == (#[trigger] groups[j][q]).0 ==> i
            == j && p == q
}

proof fn lemma_flat_member(groups: Seq<Seq<SettingView>>, k: int) -> (place: (int, int))
    requires
        0 <= k < flat(groups).len(),
    ensures
        0 <= place.0 < groups.len(),
        0 <= place.1 < groups[place.0].len(),
        groups[place.0][place.1] == flat(groups)[k],
    decreases groups.len(),
{
    let before = flat(groups.drop_last());
    if k < before.len() {
        lemma_flat_member(groups.drop_last(), k)
    } else {
        (groups.len() - 1, k - before.len())
    }
}

proof fn lemma_flat_distinct(groups: Seq<Seq<SettingView>>)
    requires
        one_place(groups),
    ensures
        distinct_keys(flat(groups)),
    decreases groups.len(),
{
    if groups.len() > 0 {
        let shorter = groups.drop_last();
        let before = flat(shorter);
        assert(one_place(shorter)) by {
            assert forall|i: int, p: int, j: int, q: int|
                0 <= i < shorter.len() && 0 <= j < shorter.len() && 0 <= p < shorter[i].len() && 0
                    <= q < shorter[j].len() && (#[trigger] shorter[i][p]).0 == (
                #[trigger] shorter[j][q]).0 implies i == j && p == q by {
                assert(groups[i][p].0 == groups[j][q].0);
            }
        }
        lemma_flat_distinct(shorter);
        assert forall|i: int, j: int| 0 <= i < j < flat(groups).len() implies (
        #[trigger] flat(groups)[i]).0 != (#[trigger] flat(groups)[j]).0 by {
            let last = groups.len() - 1;
            if i >= before.len() {
                assert(flat(groups)[i] == groups[last][i - before.len()]);
                assert(flat(groups)[j] == groups[last][j - before.len()]);
            } else if j >= before.len() {
                let place = lemma_flat_member(shorter, i);
                assert(flat(groups)[i] == groups[place.0][place.1]);
                assert(flat(groups)[j] == groups[last][j - before.len()]);
            } else {
                assert(before[i].0 != before[j].0);
            }
        }
    }
}

/// What a setting of the media profile is with the illuminator and without it.
pub open spec fn illuminator_difference(with: SettingView, without: SettingView) -> bool {
    &&& with.0 == without.0
    &&& follows_illuminator(with.0) ==> if with.0 == "VideoInOptions[0].SmartIRExposure"@ {
        with.1 == "true"@ && without.1 == "false"@
    } else {
        with.1 == "Auto"@ && without.1 == "Off"@
    }
    &&& with.1 != without.1 <==> follows_illuminator(with.0)
}

proof fn lemma_flat_difference(a: Seq<Seq<SettingView>>, b: Seq<Seq<SettingView>>)
    requires
        a.len() == b.len(),
        forall|i: int| 0 <= i < a.len() ==> (#[trigger] a[i]).len() == b[i].len(),
        forall|i: int, p: int|
            0 <= i < a.len() && 0 <= p < a[i].len() ==> illuminator_difference(
                #[trigger] a[i][p],
                b[i][p],
            ),
    ensures
        flat(a).len() == flat(b).len(),
        forall|k: int|
            0 <= k < flat(a).len() ==> illuminator_difference(#[trigger] flat(a)[k], flat(b)[k]),
    decreases a.len(),
{
    if a.len() > 0 {
        let x = a.drop_last();
        let y = b.drop_last();
        assert forall|i: int, p: int| 0 <= i < x.len() && 0 <= p < x[i].len() implies
            illuminator_difference(#[trigger] x[i][p], y[i][p]) by {
            assert(illuminator_difference(a[i][p], b[i][p]));
        }
        lemma_flat_difference(x, y);
        let last = a.len() - 1;
        assert(a[last].len() == b[last].len());
        assert forall|k: int| 0 <= k < flat(a).len() implies illuminator_difference(
            #[trigger] flat(a)[k],
            flat(b)[k],
        ) by {
            if k < flat(x).len() {
                assert(illuminator_difference(flat(x)[k], flat(y)[k]));
            } else {
                assert(illuminator_difference(
                    a[last][k - flat(x).len()],
                    b[last][k - flat(x).len()],
                ));
            }
        }
    }
}

/// Where the keys that follow the illuminator stand.
spec fn illuminator_place(i: int, p: int) -> bool {
    ||| i == 5 && p == 7
    ||| p == 0 && (i == 10 || i == 15 || i == 20)
}

proof fn lemma_illuminator_place(ir_lighting: bool, i: int, p: int)
    requires
        0 <= i < 22,
        0 <= p < media_profile(ir_lighting)[i].len(),
    ensures
        follows_illuminator(media_profile(ir_lighting)[i][p].0) <==> illuminator_place(i, p),
        media_profile(ir_lighting)[i][p].0 == "VideoInOptions[0].SmartIRExposure"@ <==> i == 5 && p
            == 7,
{
    let profile = media_profile(ir_lighting);
    assert(profile[5][7].0 == "VideoInOptions[0].SmartIRExposure"@);
    assert(profile[10] == picture_profile(ir_lighting, 0)[3]);
    assert(profile[15] == picture_profile(ir_lighting, 1)[3]);
    assert(profile[20] == picture_profile(ir_lighting, 2)[3]);
    assert(profile[10][0].0 == numbered_key("Lighting"@, 0, "Mode"@));
    assert(profile[15][0].0 == numbered_key("Lighting"@, 1, "Mode"@));
    assert(profile[20][0].0 == numbered_key("Lighting"@, 2, "Mode"@));
    let key = profile[i][p].0;
    if key == profile[5][7].0 {
        lemma_one_place(ir_lighting, i, p, 5, 7);
    }
    if key == profile[10][0].0 {
        lemma_one_place(ir_lighting, i, p, 10, 0);
    }
    if key == profile[15][0].0 {
        lemma_one_place(ir_lighting, i, p, 15, 0);
    }
    if key == profile[20][0].0 {
        lemma_one_place(ir_lighting, i, p, 20, 0);
    }
}

/// The media profile sets each key once.
pub proof fn law_media_profile_sets_each_key_once(ir_lighting: bool)
    ensures
        distinct_keys(flat(media_profile(ir_lighting))),
{
    let profile = media_profile(ir_lighting);
    assert forall|i: int, p: int, j: int, q: int|
        0 <= i < profile.len() && 0 <= j < profile.len() && 0 <= p < profile[i].len() && 0 <= q
            < profile[j].len() && (#[trigger] profile[i][p]).0 == (#[trigger] profile[j][q]).0
        implies i == j && p == q by {
        lemma_one_place(ir_lighting, i, p, j, q);
    }
    lemma_flat_distinct(profile);
}

/// With the illuminator and without it the media profile sets the same keys in the
/// same order, and to the same values but for smart exposure, which is switched on
/// or off, and for the mode of the illuminator in the three picture profiles, which
/// is automatic or off.
pub proof fn law_illuminator_changes_four_settings()
    ensures
        flat(media_profile(true)).len() == flat(media_profile(false)).len(),
        forall|k: int|
            0 <= k < flat(media_profile(true)).len() ==> illuminator_difference(
                #[trigger] flat(media_profile(true))[k],
                flat(media_profile(false))[k],
            ),
{
    let a = media_profile(true);
    let b = media_profile(false);
    assert forall|i: int, p: int| 0 <= i < a.len() && 0 <= p < a[i].len() implies
        illuminator_difference(#[trigger] a[i][p], b[i][p]) by {
        lemma_illuminator_place(true, i, p);
        if i >= 7 {
            let n = ((i - 7) / 5) as nat;
            let c = (i - 7) % 5;
            assert(a[i] == picture_profile(true, n)[c]);
            assert(b[i] == picture_profile(false, n)[c]);
        }
        assert("true"@.len() != "false"@.len() && "Auto"@.len() != "Off"@.len()) by {
            reveal_strlit("true");
            reveal_strlit("false");
            reveal_strlit("Auto");
            reveal_strlit("Off");
        }
    }
    assert forall|i: int| 0 <= i < a.len() implies (#[trigger] a[i]).len() == b[i].len() by {
        lemma_group(true, i);
        lemma_group(false, i);
    }
    lemma_flat_difference(a, b);
}

} // verus!
