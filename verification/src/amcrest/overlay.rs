//! The picture overlay: a time stamp of the same apparent size on every stream, and
//! nothing else.

use vstd::prelude::*;
use vstd::string::*;
use super::config::{literal_views, setting_views, settings, SettingView};
use super::readback::{any_line_starts, line_prefix, prefix_of, some_line_starts};
use crate::text::{chars_of, contains, holds, join, joined, law_searching_finds_the_first_place, lines, lines_of, same, seq_views, starts, string_views};

verus! {

/// Font sizes in proportion to each stream's resolution, and the time shown.
pub const FONTS_AND_TIME: [(&'static str, &'static str); 10] = [
    ("VideoWidget[0].FontBorder", "true"),
    ("VideoWidget[0].FontSize", "36"),
    ("VideoWidget[0].FontSizeExtra1", "16"),
    ("VideoWidget[0].FontSizeExtra2", "24"),
    ("VideoWidget[0].FontSizeExtra3", "16"),
    ("VideoWidget[0].FontSizeSnapshot", "36"),
    ("VideoWidget[0].FontSizeScale", "1"),
    ("VideoWidget[0].TimeTitle.EncodeBlend", "true"),
    ("VideoWidget[0].TimeTitle.PreviewBlend", "true"),
    ("VideoWidget[0].TimeTitle.ShowWeek", "false"),
];

/// Colours and place of the time, and the titles that are not shown.
pub const TIME_AND_TITLES: [(&'static str, &'static str); 18] = [
    ("VideoWidget[0].TimeTitle.FrontColor[0]", "255"),
    ("VideoWidget[0].TimeTitle.FrontColor[1]", "255"),
    ("VideoWidget[0].TimeTitle.FrontColor[2]", "255"),
    ("VideoWidget[0].TimeTitle.FrontColor[3]", "0"),
    ("VideoWidget[0].TimeTitle.BackColor[0]", "0"),
    ("VideoWidget[0].TimeTitle.BackColor[1]", "0"),
    ("VideoWidget[0].TimeTitle.BackColor[2]", "0"),
    ("VideoWidget[0].TimeTitle.BackColor[3]", "128"),
    ("VideoWidget[0].TimeTitle.Rect[0]", "5319"),
    ("VideoWidget[0].TimeTitle.Rect[1]", "352"),
    ("VideoWidget[0].TimeTitle.Rect[2]", "7929"),
    ("VideoWidget[0].TimeTitle.Rect[3]", "769"),
    ("VideoWidget[0].ChannelTitle.EncodeBlend", "false"),
    ("VideoWidget[0].ChannelTitle.PreviewBlend", "false"),
    ("VideoWidget[0].OSDMobileState.EncodeBlend", "false"),
    ("VideoWidget[0].OSDMobileState.PreviewBlend", "false"),
    ("VideoWidget[0].PictureTitle.EncodeBlend", "false"),
    ("VideoWidget[0].PictureTitle.PreviewBlend", "false"),
];

/// Overlays that only some models have; none of them is shown.
pub const HIDDEN_OVERLAYS: [&'static str; 22] = [
    "PTZCoordinates",
    "PTZDirection",
    "PTZOSDMenu",
    "PTZOSDMenuViaApp",
    "PTZPreset",
    "PTZZoom",
    "PtzPattern",
    "PtzRS485Detect",
    "Temperature",
    "VoltageStatus",
    "CustomTitle[0]",
    "CustomTitle[1]",
    "CustomTitle[2]",
    "CustomTitle[3]",
    "UserDefinedTitle[0]",
    "UserDefinedTitle[1]",
    "UserDefinedTitle[2]",
    "UserDefinedTitle[3]",
    "Covers[0]",
    "Covers[1]",
    "Covers[2]",
    "Covers[3]",
];

/// Whether a printed configuration holds a text somewhere.
pub open spec fn mentions(body: Seq<char>, text: Seq<char>) -> bool {
    holds(body, text)
}

fn mentioned(body: &[char], text: &str) -> (r: bool)
    ensures
        r == mentions(body@, text@),
{
    let t = chars_of(text);
    contains(body, t.as_slice())
}

/// Where the weekday would stand: cameras differ in how they name that.
pub open spec fn week_position(body: Seq<char>) -> Seq<char> {
    if mentions(body, "table.VideoWidget[0].TimeTitle.WeekPosition=Right"@) || mentions(
        body,
        "table.VideoWidget[0].TimeTitle.WeekPosition=Left"@,
    ) {
        "Right"@
    } else {
        "0"@
    }
}

/// The settings of the time stamp and the common titles.
pub open spec fn overlay_settings(body: Seq<char>) -> Seq<SettingView> {
    literal_views(FONTS_AND_TIME@).push(
        ("VideoWidget[0].TimeTitle.WeekPosition"@, week_position(body)),
    ) + literal_views(TIME_AND_TITLES@)
}

/// Whether the camera has a setting and prints another value for it. The font scale
/// is printed in several ways.
pub open spec fn overlay_differs(body: Seq<char>, setting: SettingView) -> bool {
    some_line_starts(lines_of(body), line_prefix(setting.0)) && if setting.0
        == "VideoWidget[0].FontSizeScale"@ && setting.1 == "1"@ {
        !mentions(body, "table.VideoWidget[0].FontSizeScale=1\n"@) && !mentions(
            body,
            "table.VideoWidget[0].FontSizeScale=1\r\n"@,
        ) && !mentions(body, "table.VideoWidget[0].FontSizeScale=1.000000"@)
    } else {
        !mentions(body, line_prefix(setting.0) + setting.1)
    }
}

/// A text with its square brackets escaped for a query.
pub open spec fn escaped(s: Seq<char>) -> Seq<char>
    decreases s.len(),
{
    if s.len() == 0 {
        Seq::empty()
    } else {
        escaped(s.drop_last()) + (if s.last() == '[' {
            "%5B"@
        } else if s.last() == ']' {
            "%5D"@
        } else {
            seq![s.last()]
        })
    }
}

fn escape(s: &str) -> (r: String)
    ensures
        r@ == escaped(s@),
{
    let v = chars_of(s);
    let mut r = String::new();
    let mut i: usize = 0;
    assert(s@.take(0) =~= Seq::empty());
    while i < v.len()
        invariant
            v@ == s@,
            i <= v@.len(),
            r@ == escaped(s@.take(i as int)),
        decreases v@.len() - i,
    {
        let ghost before = r@;
        assert(s@.take(i + 1).drop_last() =~= s@.take(i as int));
        if v[i] == '[' {
            r.append("%5B");
        } else if v[i] == ']' {
            r.append("%5D");
        } else {
            r.push(v[i]);
            assert(r@ =~= before + seq![s@[i as int]]);
        }
        i = i + 1;
    }
    assert(s@.take(i as int) =~= s@);
    r
}

/// The assignments for the settings that differ, in their order.
pub open spec fn overlay_assignments(body: Seq<char>, wanted: Seq<SettingView>) -> Seq<Seq<char>>
    decreases wanted.len(),
{
    if wanted.len() == 0 {
        Seq::empty()
    } else {
        let before = overlay_assignments(body, wanted.drop_last());
        if overlay_differs(body, wanted.last()) {
            before.push(escaped(wanted.last().0) + "="@ + wanted.last().1)
        } else {
            before
        }
    }
}

/// Whether a camera has an optional overlay and does not print it as hidden.
pub open spec fn overlay_shown(body: Seq<char>, name: Seq<char>) -> bool {
    let encode = "table.VideoWidget[0]."@ + name + ".EncodeBlend"@;
    let preview = "table.VideoWidget[0]."@ + name + ".PreviewBlend"@;
    &&& mentions(body, encode + "="@)
    &&& mentions(body, preview + "="@)
    &&& !(mentions(body, encode + "=false"@) && mentions(body, preview + "=false"@))
}

/// The request that hides an optional overlay.
pub open spec fn hide_request(name: Seq<char>) -> Seq<char> {
    "VideoWidget%5B0%5D."@ + escaped(name) + ".EncodeBlend=false&VideoWidget%5B0%5D."@ + escaped(
        name,
    ) + ".PreviewBlend=false"@
}

/// The requests that hide the optional overlays that are shown.
pub open spec fn hide_requests(body: Seq<char>, names: Seq<&str>) -> Seq<Seq<char>>
    decreases names.len(),
{
    if names.len() == 0 {
        Seq::empty()
    } else {
        let before = hide_requests(body, names.drop_last());
        if overlay_shown(body, names.last()@) {
            before.push(hide_request(names.last()@))
        } else {
            before
        }
    }
}

/// The request that hides the menu overlay on an extra stream, where the camera
/// has it and does not print it as hidden.
pub open spec fn menu_requests(body: Seq<char>, suffix: Seq<char>) -> Seq<Seq<char>> {
    let key = "table.VideoWidget[0].PTZOSDMenuViaApp.EncodeBlend"@ + suffix;
    if mentions(body, key + "="@) && !mentions(body, key + "=false"@) {
        seq!["VideoWidget%5B0%5D.PTZOSDMenuViaApp.EncodeBlend"@ + suffix + "=false"@]
    } else {
        Seq::empty()
    }
}

/// The requests that bring the overlay about: one for the time stamp and titles,
/// where any of them differs, and one for each optional overlay to hide.
pub open spec fn overlay_request_views(body: Seq<char>) -> Seq<Seq<char>> {
    let core = overlay_assignments(body, overlay_settings(body));
    (if core.len() == 0 {
        Seq::empty()
    } else {
        seq![joined(core, "&"@)]
    }) + hide_requests(body, HIDDEN_OVERLAYS@) + menu_requests(body, "Extra1"@) + menu_requests(
        body,
        "Extra2"@,
    )
}

fn setting_shown_otherwise(
    body: &[char],
    all: &Vec<Vec<char>>,
    key: &str,
    value: &str,
) -> (r: bool)
    requires
        seq_views(all@) == lines_of(body@),
    ensures
        r == overlay_differs(body@, (key@, value@)),
{
    let prefix = prefix_of(key);
    if !any_line_starts(all, prefix.as_slice()) {
        return false;
    }
    if same(key, "VideoWidget[0].FontSizeScale") && same(value, "1") {
        return !(mentioned(body, "table.VideoWidget[0].FontSizeScale=1\n") || mentioned(
            body,
            "table.VideoWidget[0].FontSizeScale=1\r\n",
        ) || mentioned(body, "table.VideoWidget[0].FontSizeScale=1.000000"));
    }
    let mut text = prefix_of(key);
    let mut v = chars_of(value);
    text.append(&mut v);
    assert(text@ =~= line_prefix(key@) + value@);
    !contains(body, text.as_slice())
}

fn core_assignments(body: &[char], wanted: &[(String, String)]) -> (parts: Vec<String>)
    ensures
        string_views(parts@) == overlay_assignments(body@, setting_views(wanted@)),
{
    let all = lines(body);
    let ghost views = setting_views(wanted@);
    let mut parts: Vec<String> = Vec::new();
    let mut i: usize = 0;
    assert(views.take(0) =~= Seq::empty());
    assert(string_views(parts@) =~= Seq::empty());
    while i < wanted.len()
        invariant
            i <= wanted@.len(),
            views == setting_views(wanted@),
            seq_views(all@) == lines_of(body@),
            string_views(parts@) == overlay_assignments(body@, views.take(i as int)),
        decreases wanted@.len() - i,
    {
        let ghost done = string_views(parts@);
        assert(views.take(i + 1).drop_last() =~= views.take(i as int));
        assert(views.take(i + 1).last() == views[i as int]);
        if setting_shown_otherwise(body, &all, wanted[i].0.as_str(), wanted[i].1.as_str()) {
            let mut s = escape(wanted[i].0.as_str());
            s.append("=");
            s.append(wanted[i].1.as_str());
            let ghost text = s@;
            parts.push(s);
            assert(string_views(parts@) =~= done.push(text));
        }
        i = i + 1;
    }
    assert(views.take(i as int) =~= views);
    parts
}

fn is_shown(body: &[char], name: &str) -> (r: bool)
    ensures
        r == overlay_shown(body@, name@),
{
    let mut encode = String::from_str("table.VideoWidget[0].");
    encode.append(name);
    encode.append(".EncodeBlend");
    let mut preview = String::from_str("table.VideoWidget[0].");
    preview.append(name);
    preview.append(".PreviewBlend");
    let mut encode_set = encode.clone();
    encode_set.append("=");
    let mut preview_set = preview.clone();
    preview_set.append("=");
    let mut encode_off = encode.clone();
    encode_off.append("=false");
    let mut preview_off = preview.clone();
    preview_off.append("=false");
    mentioned(body, encode_set.as_str()) && mentioned(body, preview_set.as_str()) && !(mentioned(
        body,
        encode_off.as_str(),
    ) && mentioned(body, preview_off.as_str()))
}

fn push_hide_requests(body: &[char], requests: &mut Vec<String>)
    ensures
        string_views(final(requests)@) == string_views(old(requests)@) + hide_requests(
            body@,
            HIDDEN_OVERLAYS@,
        ),
{
    let names = HIDDEN_OVERLAYS;
    let ghost all = HIDDEN_OVERLAYS@;
    let ghost start = string_views(requests@);
    let mut i: usize = 0;
    assert(all.take(0) =~= Seq::empty());
    assert(start + Seq::<Seq<char>>::empty() =~= start);
    while i < 22
        invariant
            i <= 22,
            names@ == all,
            all.len() == 22,
            string_views(requests@) == start + hide_requests(body@, all.take(i as int)),
        decreases 22 - i,
    {
        let ghost done = string_views(requests@);
        let name: &str = names[i];
        assert(all.take(i + 1).drop_last() =~= all.take(i as int));
        assert(all.take(i + 1).last() == name);
        if is_shown(body, name) {
            let part = escape(name);
            let mut s = String::from_str("VideoWidget%5B0%5D.");
            s.append(part.as_str());
            s.append(".EncodeBlend=false&VideoWidget%5B0%5D.");
            s.append(part.as_str());
            s.append(".PreviewBlend=false");
            let ghost text = s@;
            requests.push(s);
            assert(string_views(requests@) =~= done.push(text));
            assert(start + hide_requests(body@, all.take(i as int)).push(text) =~= done.push(text));
        }
        i = i + 1;
    }
    assert(all.take(22) =~= all);
}

fn push_menu_requests(body: &[char], suffix: &str, requests: &mut Vec<String>)
    ensures
        string_views(final(requests)@) == string_views(old(requests)@) + menu_requests(
            body@,
            suffix@,
        ),
{
    let mut key = String::from_str("table.VideoWidget[0].PTZOSDMenuViaApp.EncodeBlend");
    key.append(suffix);
    let mut set = key.clone();
    set.append("=");
    let mut off = key.clone();
    off.append("=false");
    if mentioned(body, set.as_str()) && !mentioned(body, off.as_str()) {
        let mut s = String::from_str("VideoWidget%5B0%5D.PTZOSDMenuViaApp.EncodeBlend");
        s.append(suffix);
        s.append("=false");
        requests.push(s);
    }
    assert(string_views(requests@) =~= string_views(old(requests)@) + menu_requests(
        body@,
        suffix@,
    ));
}

/// The requests that bring the overlay about, from the camera's printed
/// configuration. They are kept small: a camera rejects a long one whole.
pub fn overlay_requests(body: &str) -> (requests: Vec<String>)
    ensures
        string_views(requests@) == overlay_request_views(body@),
{
    let text = chars_of(body);
    let b = text.as_slice();
    let right: bool = mentioned(b, "table.VideoWidget[0].TimeTitle.WeekPosition=Right") || mentioned(
        b,
        "table.VideoWidget[0].TimeTitle.WeekPosition=Left",
    );
    let week: &str = if right {
        "Right"
    } else {
        "0"
    };
    let mut wanted = settings(FONTS_AND_TIME.as_slice());
    let ghost first = setting_views(wanted@);
    wanted.push((String::from_str("VideoWidget[0].TimeTitle.WeekPosition"), String::from_str(week)));
    assert(setting_views(wanted@) =~= first.push(
        ("VideoWidget[0].TimeTitle.WeekPosition"@, week_position(body@)),
    ));
    let ghost middle = setting_views(wanted@);
    let mut rest = settings(TIME_AND_TITLES.as_slice());
    let ghost last = setting_views(rest@);
    wanted.append(&mut rest);
    assert(setting_views(wanted@) =~= middle + last);
    let parts = core_assignments(b, wanted.as_slice());
    let mut requests: Vec<String> = Vec::new();
    if parts.len() > 0 {
        requests.push(join(parts.as_slice(), "&"));
    }
    let ghost core = overlay_assignments(body@, overlay_settings(body@));
    assert(string_views(requests@) =~= if core.len() == 0 {
        Seq::empty()
    } else {
        seq![joined(core, "&"@)]
    });
    push_hide_requests(b, &mut requests);
    push_menu_requests(b, "Extra1", &mut requests);
    push_menu_requests(b, "Extra2", &mut requests);
    requests
}

// --- What is shown and what is hidden ---

/// The overlay is the time in white on a half transparent black ground, in fonts that fit
/// each stream, and no title.
pub proof fn law_only_the_time_is_shown(body: Seq<char>)
    ensures
        ({
            let wanted = overlay_settings(body);
            &&& wanted.len() == 29
            &&& wanted.contains(("VideoWidget[0].FontBorder"@, "true"@))
            &&& wanted.contains(("VideoWidget[0].FontSize"@, "36"@))
            &&& wanted.contains(("VideoWidget[0].FontSizeExtra1"@, "16"@))
            &&& wanted.contains(("VideoWidget[0].FontSizeExtra2"@, "24"@))
            &&& wanted.contains(("VideoWidget[0].FontSizeExtra3"@, "16"@))
            &&& wanted.contains(("VideoWidget[0].FontSizeSnapshot"@, "36"@))
            &&& wanted.contains(("VideoWidget[0].FontSizeScale"@, "1"@))
            &&& wanted.contains(("VideoWidget[0].TimeTitle.EncodeBlend"@, "true"@))
            &&& wanted.contains(("VideoWidget[0].TimeTitle.PreviewBlend"@, "true"@))
            &&& wanted.contains(("VideoWidget[0].TimeTitle.ShowWeek"@, "false"@))
            &&& wanted.contains(("VideoWidget[0].TimeTitle.WeekPosition"@, week_position(body)))
            &&& wanted.contains(("VideoWidget[0].TimeTitle.FrontColor[0]"@, "255"@))
            &&& wanted.contains(("VideoWidget[0].TimeTitle.FrontColor[1]"@, "255"@))
            &&& wanted.contains(("VideoWidget[0].TimeTitle.FrontColor[2]"@, "255"@))
            &&& wanted.contains(("VideoWidget[0].TimeTitle.FrontColor[3]"@, "0"@))
            &&& wanted.contains(("VideoWidget[0].TimeTitle.BackColor[0]"@, "0"@))
            &&& wanted.contains(("VideoWidget[0].TimeTitle.BackColor[1]"@, "0"@))
            &&& wanted.contains(("VideoWidget[0].TimeTitle.BackColor[2]"@, "0"@))
            &&& wanted.contains(("VideoWidget[0].TimeTitle.BackColor[3]"@, "128"@))
            &&& wanted.contains(("VideoWidget[0].TimeTitle.Rect[0]"@, "5319"@))
            &&& wanted.contains(("VideoWidget[0].TimeTitle.Rect[1]"@, "352"@))
            &&& wanted.contains(("VideoWidget[0].TimeTitle.Rect[2]"@, "7929"@))
            &&& wanted.contains(("VideoWidget[0].TimeTitle.Rect[3]"@, "769"@))
            &&& wanted.contains(("VideoWidget[0].ChannelTitle.EncodeBlend"@, "false"@))
            &&& wanted.contains(("VideoWidget[0].ChannelTitle.PreviewBlend"@, "false"@))
            &&& wanted.contains(("VideoWidget[0].OSDMobileState.EncodeBlend"@, "false"@))
            &&& wanted.contains(("VideoWidget[0].OSDMobileState.PreviewBlend"@, "false"@))
            &&& wanted.contains(("VideoWidget[0].PictureTitle.EncodeBlend"@, "false"@))
            &&& wanted.contains(("VideoWidget[0].PictureTitle.PreviewBlend"@, "false"@))
        }),
{
    let wanted = overlay_settings(body);
    assert(wanted[0] == ("VideoWidget[0].FontBorder"@, "true"@));
    assert(wanted[1] == ("VideoWidget[0].FontSize"@, "36"@));
    assert(wanted[2] == ("VideoWidget[0].FontSizeExtra1"@, "16"@));
    assert(wanted[3] == ("VideoWidget[0].FontSizeExtra2"@, "24"@));
    assert(wanted[4] == ("VideoWidget[0].FontSizeExtra3"@, "16"@));
    assert(wanted[5] == ("VideoWidget[0].FontSizeSnapshot"@, "36"@));
    assert(wanted[6] == ("VideoWidget[0].FontSizeScale"@, "1"@));
    assert(wanted[7] == ("VideoWidget[0].TimeTitle.EncodeBlend"@, "true"@));
    assert(wanted[8] == ("VideoWidget[0].TimeTitle.PreviewBlend"@, "true"@));
    assert(wanted[9] == ("VideoWidget[0].TimeTitle.ShowWeek"@, "false"@));
    assert(wanted[10] == ("VideoWidget[0].TimeTitle.WeekPosition"@, week_position(body)));
    assert(wanted[11] == ("VideoWidget[0].TimeTitle.FrontColor[0]"@, "255"@));
    assert(wanted[12] == ("VideoWidget[0].TimeTitle.FrontColor[1]"@, "255"@));
    assert(wanted[13] == ("VideoWidget[0].TimeTitle.FrontColor[2]"@, "255"@));
    assert(wanted[14] == ("VideoWidget[0].TimeTitle.FrontColor[3]"@, "0"@));
    assert(wanted[15] == ("VideoWidget[0].TimeTitle.BackColor[0]"@, "0"@));
    assert(wanted[16] == ("VideoWidget[0].TimeTitle.BackColor[1]"@, "0"@));
    assert(wanted[17] == ("VideoWidget[0].TimeTitle.BackColor[2]"@, "0"@));
    assert(wanted[18] == ("VideoWidget[0].TimeTitle.BackColor[3]"@, "128"@));
    assert(wanted[19] == ("VideoWidget[0].TimeTitle.Rect[0]"@, "5319"@));
    assert(wanted[20] == ("VideoWidget[0].TimeTitle.Rect[1]"@, "352"@));
    assert(wanted[21] == ("VideoWidget[0].TimeTitle.Rect[2]"@, "7929"@));
    assert(wanted[22] == ("VideoWidget[0].TimeTitle.Rect[3]"@, "769"@));
    assert(wanted[23] == ("VideoWidget[0].ChannelTitle.EncodeBlend"@, "false"@));
    assert(wanted[24] == ("VideoWidget[0].ChannelTitle.PreviewBlend"@, "false"@));
    assert(wanted[25] == ("VideoWidget[0].OSDMobileState.EncodeBlend"@, "false"@));
    assert(wanted[26] == ("VideoWidget[0].OSDMobileState.PreviewBlend"@, "false"@));
    assert(wanted[27] == ("VideoWidget[0].PictureTitle.EncodeBlend"@, "false"@));
    assert(wanted[28] == ("VideoWidget[0].PictureTitle.PreviewBlend"@, "false"@));
}

/// The place of the weekday is named as the camera names such places: by a word where its
/// report has one, else by a number.
pub proof fn law_the_weekday_is_placed_in_the_cameras_terms(body: Seq<char>)
    ensures
        ({
            let right = "table.VideoWidget[0].TimeTitle.WeekPosition=Right"@;
            let left = "table.VideoWidget[0].TimeTitle.WeekPosition=Left"@;
            let named = exists|i: int, j: int|
                #![trigger body.subrange(i, j)]
                0 <= i <= j <= body.len() && (body.subrange(i, j) == right || body.subrange(i, j)
                    == left);
            &&& named ==> week_position(body) == "Right"@
            &&& !named ==> week_position(body) == "0"@
        }),
{
    let right = "table.VideoWidget[0].TimeTitle.WeekPosition=Right"@;
    let left = "table.VideoWidget[0].TimeTitle.WeekPosition=Left"@;
    lemma_mentioned(body, right);
    lemma_mentioned(body, left);
}

proof fn lemma_mentioned(body: Seq<char>, text: Seq<char>)
    ensures
        mentions(body, text) <==> exists|i: int, j: int|
            #![trigger body.subrange(i, j)]
            0 <= i <= j <= body.len() && body.subrange(i, j) == text,
{
    law_searching_finds_the_first_place(body, text);
    if mentions(body, text) {
        let i = choose|i: int|
            0 <= i <= body.len() - text.len() && #[trigger] body.subrange(i, i + text.len()) == text;
        assert(body.subrange(i, i + text.len()) == text);
    }
    if exists|i: int, j: int|
        #![trigger body.subrange(i, j)]
        0 <= i <= j <= body.len() && body.subrange(i, j) == text {
        let (i, j) = choose|i: int, j: int|
            #![trigger body.subrange(i, j)]
            0 <= i <= j <= body.len() && body.subrange(i, j) == text;
        assert(j == i + text.len());
    }
}

/// In a query a square bracket is written as its code, and everything else as it is; no
/// bracket is left.
pub proof fn law_brackets_are_escaped(s: Seq<char>, c: char)
    ensures
        escaped(s.push('[')) == escaped(s) + seq!['%', '5', 'B'],
        escaped(s.push(']')) == escaped(s) + seq!['%', '5', 'D'],
        c != '[' && c != ']' ==> escaped(s.push(c)) == escaped(s).push(c),
        escaped(Seq::empty()) == Seq::<char>::empty(),
{
    reveal_strlit("%5B");
    reveal_strlit("%5D");
    assert("%5B"@ =~= seq!['%', '5', 'B']);
    assert("%5D"@ =~= seq!['%', '5', 'D']);
    assert(s.push('[').drop_last() =~= s);
    assert(s.push(']').drop_last() =~= s);
    assert(s.push(c).drop_last() =~= s);
    assert(escaped(s) + seq![c] =~= escaped(s).push(c));
}

/// A setting is asked for where the camera has it with another value, in the order of the
/// settings; else it is left alone.
pub proof fn law_only_differences_are_asked_for(
    body: Seq<char>,
    wanted: Seq<SettingView>,
    setting: SettingView,
)
    ensures
        overlay_differs(body, setting) ==> overlay_assignments(body, wanted.push(setting))
            == overlay_assignments(body, wanted).push(escaped(setting.0).push('=') + setting.1),
        !overlay_differs(body, setting) ==> overlay_assignments(body, wanted.push(setting))
            == overlay_assignments(body, wanted),
        overlay_assignments(body, Seq::empty()) == Seq::<Seq<char>>::empty(),
{
    reveal_strlit("=");
    assert("="@ =~= seq!['=']);
    assert(wanted.push(setting).drop_last() =~= wanted);
    assert(escaped(setting.0) + "="@ + setting.1 =~= escaped(setting.0).push('=') + setting.1);
}

/// A setting that the camera does not report never differs, and one that it reports with
/// the wanted value does not either, but for the font scale of 1, which is printed in
/// three ways.
pub proof fn law_reported_values_do_not_differ(body: Seq<char>, setting: SettingView)
    ensures
        (forall|i: int|
            0 <= i < lines_of(body).len() ==> !starts(
                #[trigger] lines_of(body)[i],
                line_prefix(setting.0),
            )) ==> !overlay_differs(body, setting),
        setting.0 != "VideoWidget[0].FontSizeScale"@ || setting.1 != "1"@ ==> (overlay_differs(
            body,
            setting,
        ) <==> (exists|i: int|
            0 <= i < lines_of(body).len() && starts(
                #[trigger] lines_of(body)[i],
                line_prefix(setting.0),
            )) && !mentions(body, line_prefix(setting.0) + setting.1)),
        setting.0 == "VideoWidget[0].FontSizeScale"@ && setting.1 == "1"@ && (mentions(
            body,
            "table.VideoWidget[0].FontSizeScale=1\n"@,
        ) || mentions(body, "table.VideoWidget[0].FontSizeScale=1\r\n"@) || mentions(
            body,
            "table.VideoWidget[0].FontSizeScale=1.000000"@,
        )) ==> !overlay_differs(body, setting),
{
}

/// An overlay is hidden where the camera reports both of its switches and not both of
/// them as off; it is hidden by turning both off.
pub proof fn law_shown_overlays_are_hidden(body: Seq<char>, names: Seq<&str>, name: &str)
    ensures
        ({
            let encode = "table.VideoWidget[0]."@ + name@ + ".EncodeBlend"@;
            let preview = "table.VideoWidget[0]."@ + name@ + ".PreviewBlend"@;
            let shown = mentions(body, encode + "="@) && mentions(body, preview + "="@) && (
            !mentions(body, encode + "=false"@) || !mentions(body, preview + "=false"@));
            let request = "VideoWidget%5B0%5D."@ + escaped(name@)
                + ".EncodeBlend=false&VideoWidget%5B0%5D."@ + escaped(name@)
                + ".PreviewBlend=false"@;
            &&& shown ==> hide_requests(body, names.push(name)) == hide_requests(body, names).push(
                request,
            )
            &&& !shown ==> hide_requests(body, names.push(name)) == hide_requests(body, names)
            &&& hide_requests(body, Seq::empty()) == Seq::<Seq<char>>::empty()
        }),
{
    assert(names.push(name).drop_last() =~= names);
}

/// The overlays that are hidden are those of cameras that move, of sensors, and the
/// titles and covers that a user can set.
pub proof fn law_which_overlays_are_hidden(i: int)
    requires
        0 <= i < HIDDEN_OVERLAYS@.len(),
    ensures
        HIDDEN_OVERLAYS@.len() == 22,
        i == 0 ==> HIDDEN_OVERLAYS@[i]@ == "PTZCoordinates"@,
        i == 1 ==> HIDDEN_OVERLAYS@[i]@ == "PTZDirection"@,
        i == 2 ==> HIDDEN_OVERLAYS@[i]@ == "PTZOSDMenu"@,
        i == 3 ==> HIDDEN_OVERLAYS@[i]@ == "PTZOSDMenuViaApp"@,
        i == 4 ==> HIDDEN_OVERLAYS@[i]@ == "PTZPreset"@,
        i == 5 ==> HIDDEN_OVERLAYS@[i]@ == "PTZZoom"@,
        i == 6 ==> HIDDEN_OVERLAYS@[i]@ == "PtzPattern"@,
        i == 7 ==> HIDDEN_OVERLAYS@[i]@ == "PtzRS485Detect"@,
        i == 8 ==> HIDDEN_OVERLAYS@[i]@ == "Temperature"@,
        i == 9 ==> HIDDEN_OVERLAYS@[i]@ == "VoltageStatus"@,
        i == 10 ==> HIDDEN_OVERLAYS@[i]@ == "CustomTitle[0]"@,
        i == 11 ==> HIDDEN_OVERLAYS@[i]@ == "CustomTitle[1]"@,
        i == 12 ==> HIDDEN_OVERLAYS@[i]@ == "CustomTitle[2]"@,
        i == 13 ==> HIDDEN_OVERLAYS@[i]@ == "CustomTitle[3]"@,
        i == 14 ==> HIDDEN_OVERLAYS@[i]@ == "UserDefinedTitle[0]"@,
        i == 15 ==> HIDDEN_OVERLAYS@[i]@ == "UserDefinedTitle[1]"@,
        i == 16 ==> HIDDEN_OVERLAYS@[i]@ == "UserDefinedTitle[2]"@,
        i == 17 ==> HIDDEN_OVERLAYS@[i]@ == "UserDefinedTitle[3]"@,
        i == 18 ==> HIDDEN_OVERLAYS@[i]@ == "Covers[0]"@,
        i == 19 ==> HIDDEN_OVERLAYS@[i]@ == "Covers[1]"@,
        i == 20 ==> HIDDEN_OVERLAYS@[i]@ == "Covers[2]"@,
        i == 21 ==> HIDDEN_OVERLAYS@[i]@ == "Covers[3]"@,
{
}

/// The menu is hidden on an extra stream where the camera reports its switch there and
/// not as off.
pub proof fn law_the_menu_is_hidden(body: Seq<char>, suffix: Seq<char>)
    ensures
        ({
            let key = "table.VideoWidget[0].PTZOSDMenuViaApp.EncodeBlend"@ + suffix;
            let shown = mentions(body, key + "="@) && !mentions(body, key + "=false"@);
            &&& shown ==> menu_requests(body, suffix) == seq![
                "VideoWidget%5B0%5D.PTZOSDMenuViaApp.EncodeBlend"@ + suffix + "=false"@,
            ]
            &&& !shown ==> menu_requests(body, suffix).len() == 0
        }),
{
}

/// All the changed settings go into one request, which comes first; each overlay that is
/// hidden has a request of its own, and the menus of the two extra streams come last.
pub proof fn law_requests_come_in_their_order(body: Seq<char>)
    ensures
        ({
            let core = overlay_assignments(body, overlay_settings(body));
            let rest = hide_requests(body, HIDDEN_OVERLAYS@) + menu_requests(body, "Extra1"@)
                + menu_requests(body, "Extra2"@);
            &&& core.len() == 0 ==> overlay_request_views(body) == rest
            &&& core.len() > 0 ==> overlay_request_views(body) == seq![joined(core, "&"@)] + rest
        }),
{
    let core = overlay_assignments(body, overlay_settings(body));
    let rest = hide_requests(body, HIDDEN_OVERLAYS@) + menu_requests(body, "Extra1"@)
        + menu_requests(body, "Extra2"@);
    if core.len() == 0 {
        assert(overlay_request_views(body) =~= rest);
    } else {
        assert(overlay_request_views(body) =~= seq![joined(core, "&"@)] + rest);
    }
}

} // verus!
