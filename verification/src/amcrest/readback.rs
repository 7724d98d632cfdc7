//! Configuration as the camera prints it: lines of `table.key=value`.

use vstd::prelude::*;
use vstd::string::*;
use super::config::{setting_views, SettingView};
use super::client::AmcrestClient;
use crate::text::{chars_of, lines, lines_of, same_chars, seq_views, starts, starts_with, string_views, trim, trimmed};

verus! {

/// How a line that gives the value of a key starts.
pub open spec fn line_prefix(key: Seq<char>) -> Seq<char> {
    "table."@ + key + "="@
}

/// Whether some line starts with a text.
pub open spec fn some_line_starts(lines: Seq<Seq<char>>, prefix: Seq<char>) -> bool {
    exists|i: int| 0 <= i < lines.len() && starts(#[trigger] lines[i], prefix)
}

/// Whether some line is a text, but for white space around it.
pub open spec fn some_line_is(lines: Seq<Seq<char>>, text: Seq<char>) -> bool {
    exists|i: int| 0 <= i < lines.len() && trimmed(#[trigger] lines[i]) == text
}

pub fn any_line_starts(all: &Vec<Vec<char>>, prefix: &[char]) -> (r: bool)
    ensures
        r == some_line_starts(seq_views(all@), prefix@),
{
    let ghost views = seq_views(all@);
    let mut i: usize = 0;
    while i < all.len()
        invariant
            i <= all@.len(),
            views == seq_views(all@),
            forall|j: int| 0 <= j < i ==> !starts(#[trigger] views[j], prefix@),
        decreases all@.len() - i,
    {
        if starts_with(all[i].as_slice(), prefix) {
            assert(starts(views[i as int], prefix@));
            return true;
        }
        i = i + 1;
    }
    false
}

fn any_line_is(all: &Vec<Vec<char>>, text: &[char]) -> (r: bool)
    ensures
        r == some_line_is(seq_views(all@), text@),
{
    let ghost views = seq_views(all@);
    let mut i: usize = 0;
    while i < all.len()
        invariant
            i <= all@.len(),
            views == seq_views(all@),
            forall|j: int| 0 <= j < i ==> trimmed(#[trigger] views[j]) != text@,
        decreases all@.len() - i,
    {
        let line = trim(all[i].as_slice());
        if same_chars(line.as_slice(), text) {
            assert(trimmed(views[i as int]) == text@);
            return true;
        }
        i = i + 1;
    }
    false
}

/// How a line that gives the value of a key starts.
pub fn prefix_of(key: &str) -> (r: Vec<char>)
    ensures
        r@ == line_prefix(key@),
{
    let mut s = String::from_str("table.");
    s.append(key);
    s.append("=");
    chars_of(s.as_str())
}

/// Whether a setting was reported and does not have its value now.
pub open spec fn is_refused(
    reported: Seq<char>,
    actual: Seq<char>,
    setting: SettingView,
) -> bool {
    some_line_starts(lines_of(reported), line_prefix(setting.0)) && !some_line_is(
        lines_of(actual),
        line_prefix(setting.0) + setting.1,
    )
}

/// The keys of the settings that were reported and do not have their value now, in
/// their order.
pub open spec fn refused(
    reported: Seq<char>,
    actual: Seq<char>,
    desired: Seq<SettingView>,
) -> Seq<Seq<char>>
    decreases desired.len(),
{
    if desired.len() == 0 {
        Seq::empty()
    } else {
        let before = refused(reported, actual, desired.drop_last());
        if is_refused(reported, actual, desired.last()) {
            before.push(desired.last().0)
        } else {
            before
        }
    }
}

impl AmcrestClient {
    /// The keys of the settings that a report holds and that do not have their value
    /// in it.
    pub fn unapplied_supported_settings(current: &str, desired: &[(String, String)]) -> (r: Vec<
        String,
    >)
        ensures
            string_views(r@) == refused(current@, current@, setting_views(desired@)),
    {
        AmcrestClient::unapplied_reported_settings(current, current, desired)
    }

    /// The keys of the settings that were reported and do not have their value now:
    /// it differs, or the camera does not report the setting any more.
    pub fn unapplied_reported_settings(
        reported: &str,
        actual: &str,
        desired: &[(String, String)],
    ) -> (r: Vec<String>)
        ensures
            string_views(r@) == refused(reported@, actual@, setting_views(desired@)),
    {
        let reported_text = chars_of(reported);
        let actual_text = chars_of(actual);
        let before = lines(reported_text.as_slice());
        let now = lines(actual_text.as_slice());
        let ghost views = setting_views(desired@);
        let mut r: Vec<String> = Vec::new();
        let mut i: usize = 0;
        assert(views.take(0) =~= Seq::empty());
        assert(string_views(r@) =~= Seq::empty());
        while i < desired.len()
            invariant
                i <= desired@.len(),
                views == setting_views(desired@),
                seq_views(before@) == lines_of(reported@),
                seq_views(now@) == lines_of(actual@),
                string_views(r@) == refused(reported@, actual@, views.take(i as int)),
            decreases desired@.len() - i,
        {
            let ghost done = r@;
            let key = &desired[i].0;
            let prefix = prefix_of(key.as_str());
            let mut expected = prefix_of(key.as_str());
            let mut value = chars_of(desired[i].1.as_str());
            expected.append(&mut value);
            assert(expected@ =~= line_prefix(key@) + desired@[i as int].1@);
            assert(views.take(i + 1).drop_last() =~= views.take(i as int));
            assert(views.take(i + 1).last() == views[i as int]);
            if any_line_starts(&before, prefix.as_slice()) && !any_line_is(
                &now,
                expected.as_slice(),
            ) {
                r.push(key.clone());
                assert(string_views(r@) =~= string_views(done).push(key@));
            }
            i = i + 1;
        }
        assert(views.take(i as int) =~= views);
        r
    }

    /// The keys of the detection settings that the camera did not keep, from its
    /// three tables read back.
    pub fn refused_smart_motion(analyse: &str, smart: &str, motion: &str) -> (r: Vec<String>)
        ensures
            string_views(r@) == refused(
                analyse@,
                analyse@,
                super::config::literal_views(super::profile::ANALYSE@),
            ) + refused(
                smart@,
                smart@,
                super::config::literal_views(super::profile::SMART_MOTION@),
            ) + refused(motion@, motion@, super::profile::motion_profile_views()),
    {
        let analyse_settings = super::config::settings(super::profile::ANALYSE.as_slice());
        let smart_settings = super::config::settings(super::profile::SMART_MOTION.as_slice());
        let motion_settings = super::profile::motion_profile();
        let mut r = AmcrestClient::unapplied_supported_settings(analyse, analyse_settings.as_slice());
        let mut more = AmcrestClient::unapplied_supported_settings(smart, smart_settings.as_slice());
        let mut rest = AmcrestClient::unapplied_supported_settings(
            motion,
            motion_settings.as_slice(),
        );
        let ghost a = r@;
        let ghost b = more@;
        let ghost c = rest@;
        r.append(&mut more);
        r.append(&mut rest);
        assert(string_views(r@) =~= string_views(a) + string_views(b) + string_views(c));
        r
    }
}

/// A report that holds every wanted value refuses none of the settings.
pub proof fn law_kept_settings_are_not_refused(
    reported: Seq<char>,
    actual: Seq<char>,
    desired: Seq<SettingView>,
)
    requires
        forall|i: int|
            0 <= i < desired.len() ==> some_line_is(
                lines_of(actual),
                line_prefix((#[trigger] desired[i]).0) + desired[i].1,
            ),
    ensures
        refused(reported, actual, desired) == Seq::<Seq<char>>::empty(),
    decreases desired.len(),
{
    if desired.len() > 0 {
        let front = desired.drop_last();
        assert forall|i: int| 0 <= i < front.len() implies some_line_is(
            lines_of(actual),
            line_prefix((#[trigger] front[i]).0) + front[i].1,
        ) by {
            assert(front[i] == desired[i]);
        }
        law_kept_settings_are_not_refused(reported, actual, front);
        assert(desired.last() == desired[desired.len() - 1]);
    }
}

/// A line of the report is `table.`, the key, an equals sign and the value.
pub proof fn law_a_line_has_a_key_and_a_value(key: Seq<char>, value: Seq<char>)
    ensures
        line_prefix(key) + value == seq!['t', 'a', 'b', 'l', 'e', '.'] + key.push('=') + value,
{
    reveal_strlit("table.");
    reveal_strlit("=");
    assert("table."@ =~= seq!['t', 'a', 'b', 'l', 'e', '.']);
    assert("="@ =~= seq!['=']);
    assert("table."@ + key + "="@ =~= seq!['t', 'a', 'b', 'l', 'e', '.'] + key.push('='));
}

/// The keys that are refused are those of the settings whose key was reported in some
/// line and that now have no line with the wanted value, and no others.
pub proof fn law_which_settings_are_refused(
    reported: Seq<char>,
    actual: Seq<char>,
    desired: Seq<SettingView>,
    key: Seq<char>,
)
    ensures
        refused(reported, actual, desired).contains(key) <==> exists|i: int|
            0 <= i < desired.len() && (#[trigger] desired[i]).0 == key && (exists|k: int|
                0 <= k < lines_of(reported).len() && starts(
                    #[trigger] lines_of(reported)[k],
                    line_prefix(key),
                )) && (forall|k: int|
                0 <= k < lines_of(actual).len() ==> trimmed(#[trigger] lines_of(actual)[k])
                    != line_prefix(key) + desired[i].1),
    decreases desired.len(),
{
    if desired.len() > 0 {
        let front = desired.drop_last();
        let last = desired[desired.len() - 1];
        law_which_settings_are_refused(reported, actual, front, key);
        let before = refused(reported, actual, front);
        let all = refused(reported, actual, desired);
        assert forall|i: int| 0 <= i < front.len() implies desired[i] == #[trigger] front[i] by {}
        if all.contains(key) {
            let k = choose|k: int| 0 <= k < all.len() && all[k] == key;
            if k < before.len() {
                assert(before[k] == key);
                assert(before.contains(key));
                let i = choose|i: int|
                    0 <= i < front.len() && (#[trigger] front[i]).0 == key && (exists|k: int|
                        0 <= k < lines_of(reported).len() && starts(
                            #[trigger] lines_of(reported)[k],
                            line_prefix(key),
                        )) && (forall|k: int|
                        0 <= k < lines_of(actual).len() ==> trimmed(#[trigger] lines_of(actual)[k])
                            != line_prefix(key) + front[i].1);
                assert(desired[i] == front[i]);
            } else {
                assert(is_refused(reported, actual, last) && last.0 == key);
                assert(desired[desired.len() - 1] == last);
            }
        }
        if exists|i: int|
            0 <= i < desired.len() && (#[trigger] desired[i]).0 == key && is_refused(
                reported,
                actual,
                desired[i],
            ) {
            let i = choose|i: int|
                0 <= i < desired.len() && (#[trigger] desired[i]).0 == key && is_refused(
                    reported,
                    actual,
                    desired[i],
                );
            if i < front.len() {
                assert(front[i] == desired[i]);
                assert(before.contains(key));
                let k = choose|k: int| 0 <= k < before.len() && before[k] == key;
                assert(all[k] == key);
            } else {
                assert(all[all.len() - 1] == key);
            }
        }
    }
}

} // verus!
