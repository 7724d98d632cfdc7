//! The camera's JSON tables: what they hold, and bringing them to wanted values.

use serde_json::{Number, Value};
use vstd::prelude::*;
use vstd::string::*;
use super::config::{config_key_pointer, key_pointer, setting_views, SettingView};
use crate::text::{chars_of, decimal, is_digit, law_numbers_are_read_by_their_digits, lemma_decimal, parse_signed, parse_unsigned, parsed_signed, parsed_unsigned, same, split_on, string_views};

verus! {

/// What stands at one place of a table.
#[derive(Debug, PartialEq)]
pub enum SettingValue {
    Null,
    Bool(bool),
    /// A whole number in the signed 64-bit range.
    Int(i64),
    /// A whole number above that range.
    UInt(u64),
    /// Any other number, as the bits of a binary64 number.
    Float(u64),
    Text(String),
    Array,
    Object,
}

/// The mathematical value of a [`SettingValue`].
pub ghost enum SettingContents {
    Null,
    Bool(bool),
    Int(i64),
    UInt(u64),
    Float(u64),
    Text(Seq<char>),
    Array,
    Object,
}

impl View for SettingValue {
    type V = SettingContents;

    open spec fn view(&self) -> SettingContents {
        match *self {
            SettingValue::Null => SettingContents::Null,
            SettingValue::Bool(b) => SettingContents::Bool(b),
            SettingValue::Int(i) => SettingContents::Int(i),
            SettingValue::UInt(u) => SettingContents::UInt(u),
            SettingValue::Float(f) => SettingContents::Float(f),
            SettingValue::Text(s) => SettingContents::Text(s@),
            SettingValue::Array => SettingContents::Array,
            SettingValue::Object => SettingContents::Object,
        }
    }
}

/// A configuration table: a JSON value of `serde_json`.
#[verifier::external_body]
#[derive(Debug)]
pub struct Table {
    json: serde_json::Value,
}

/// What a table holds: for the path to each place in it, what stands there.
pub uninterp spec fn table_contents(table: Table) -> Map<Seq<Seq<char>>, SettingContents>;

/// What a JSON text holds.
pub uninterp spec fn json_contents(text: Seq<char>) -> Option<
    Map<Seq<Seq<char>>, SettingContents>,
>;

/// The JSON text of a table.
pub uninterp spec fn json_text(contents: Map<Seq<Seq<char>>, SettingContents>) -> Seq<char>;

impl View for Table {
    type V = Map<Seq<Seq<char>>, SettingContents>;

    open spec fn view(&self) -> Map<Seq<Seq<char>>, SettingContents> {
        table_contents(*self)
    }
}

/// Calls `serde_json::from_str`. What the text holds is named [`json_contents`]; a
/// text that is no JSON holds nothing.
#[verifier::external_body]
fn read_json(text: &str) -> (r: Option<Table>)
    ensures
        match r {
            Some(t) => json_contents(text@) == Some(table_contents(t)),
            None => json_contents(text@) is None,
        },
{
    serde_json::from_str(text).ok().map(|json| Table { json })
}

/// Calls `serde_json::Value::to_string`. What comes out is a function of what the
/// table holds, named [`json_text`].
#[verifier::external_body]
fn write_json(table: &Table) -> (s: String)
    ensures
        s@ == json_text(table_contents(*table)),
{
    table.json.to_string()
}

/// What a JSON value that is a text holds.
pub open spec fn text_contents(s: Seq<char>) -> Map<Seq<Seq<char>>, SettingContents> {
    Map::empty().insert(Seq::empty(), SettingContents::Text(s))
}

/// Calls `serde_json::Value::from` on a text. The value is that text and nothing else.
#[verifier::external_body]
fn string_value(s: &str) -> (t: Table)
    ensures
        table_contents(t) == text_contents(s@),
{
    Table { json: Value::from(s) }
}

impl Table {
    /// A JSON value that is a text.
    pub fn text(s: &str) -> (t: Table)
        ensures
            t@ == text_contents(s@),
    {
        string_value(s)
    }

    /// The table in a JSON text.
    pub fn from_text(text: &str) -> (r: Option<Table>)
        ensures
            match r {
                Some(t) => json_contents(text@) == Some(t@),
                None => json_contents(text@) is None,
            },
    {
        read_json(text)
    }

    /// The table as a JSON text.
    pub fn to_text(&self) -> (s: String)
        ensures
            s@ == json_text(self@),
    {
        write_json(self)
    }

    /// What stands at the place that a JSON pointer leads to.
    pub fn get(&self, pointer: &str) -> (r: Option<SettingValue>)
        ensures
            match r {
                Some(v) => at_pointer(self@, pointer@) == Some(v@),
                None => at_pointer(self@, pointer@) is None,
            },
    {
        setting_at(self, pointer)
    }
}

/// What stands below a place of a table.
pub open spec fn below(
    contents: Map<Seq<Seq<char>>, SettingContents>,
    path: Seq<Seq<char>>,
) -> Map<Seq<Seq<char>>, SettingContents> {
    Map::new(
        |rest: Seq<Seq<char>>| contents.dom().contains(path + rest),
        |rest: Seq<Seq<char>>| contents[path + rest],
    )
}

/// What the member `key` of an object holds.
pub open spec fn member_of(
    contents: Map<Seq<Seq<char>>, SettingContents>,
    key: Seq<char>,
) -> Option<Map<Seq<Seq<char>>, SettingContents>> {
    if contents.dom().contains(Seq::empty()) && contents[Seq::empty()] is Object
        && contents.dom().contains(seq![key]) {
        Some(below(contents, seq![key]))
    } else {
        None
    }
}

/// Calls `serde_json::Value::get` with a text and copies the value that it finds: the
/// member of that name, where the value is an object that has one.
#[verifier::external_body]
fn member(table: &Table, key: &str) -> (r: Option<Table>)
    ensures
        match r {
            Some(t) => member_of(table_contents(*table), key@) == Some(table_contents(t)),
            None => member_of(table_contents(*table), key@) is None,
        },
{
    table.json.get(key).cloned().map(|json| Table { json })
}

/// The table in the camera's answer to a request for it.
pub open spec fn answered_table(answer: Map<Seq<Seq<char>>, SettingContents>) -> Option<
    Map<Seq<Seq<char>>, SettingContents>,
> {
    match member_of(answer, "params"@) {
        Some(params) => member_of(params, "table"@),
        None => None,
    }
}

/// The table in the camera's answer to a request for it, where it gives one.
pub fn config_table(answer: &Table) -> (r: Option<Table>)
    ensures
        match r {
            Some(t) => answered_table(answer@) == Some(t@),
            None => answered_table(answer@) is None,
        },
{
    match member(answer, "params") {
        Some(params) => member(&params, "table"),
        None => None,
    }
}

/// The finite binary64 number that a text spells, as its bits.
pub uninterp spec fn finite_number(text: Seq<char>) -> Option<u64>;

/// A text with each `~` followed by `mark` replaced by `c`.
pub open spec fn unescaped(s: Seq<char>, mark: char, c: char) -> Seq<char>
    decreases s.len(),
{
    if s.len() < 2 {
        s
    } else if s[0] == '~' && s[1] == mark {
        seq![c] + unescaped(s.skip(2), mark, c)
    } else {
        seq![s[0]] + unescaped(s.skip(1), mark, c)
    }
}

/// The path that a JSON pointer spells: its tokens, with `~1` for a slash and
/// `~0` for a tilde.
pub open spec fn pointer_path(pointer: Seq<char>) -> Option<Seq<Seq<char>>> {
    if pointer.len() == 0 {
        Some(Seq::empty())
    } else if pointer[0] != '/' {
        None
    } else {
        let tokens = split_on(pointer.skip(1), '/');
        Some(
            Seq::new(tokens.len(), |i: int| unescaped(unescaped(tokens[i], '1', '/'), '0', '~')),
        )
    }
}

/// What a pointer leads to.
pub open spec fn at_pointer(
    contents: Map<Seq<Seq<char>>, SettingContents>,
    pointer: Seq<char>,
) -> Option<SettingContents> {
    match pointer_path(pointer) {
        Some(path) => if contents.dom().contains(path) {
            Some(contents[path])
        } else {
            None
        },
        None => None,
    }
}

/// Whether something is a single value, and not a list or an object.
pub open spec fn is_scalar(v: SettingContents) -> bool {
    !(v is Array) && !(v is Object)
}

/// Calls `serde_json::Value::pointer` and tells what stands there: the kind of
/// value, and the value itself where it is a single one. A whole number counts as
/// signed where it fits.
#[verifier::external_body]
fn setting_at(table: &Table, pointer: &str) -> (r: Option<SettingValue>)
    ensures
        match pointer_path(pointer@) {
            Some(path) => match r {
                Some(v) => table_contents(*table).dom().contains(path) && table_contents(*table)[path]
                    == v@,
                None => !table_contents(*table).dom().contains(path),
            },
            None => r is None,
        },
{
    Some(match table.json.pointer(pointer)? {
        Value::Null => SettingValue::Null,
        Value::Bool(b) => SettingValue::Bool(*b),
        Value::Number(n) => match (n.as_i64(), n.as_u64()) {
            (Some(i), _) => SettingValue::Int(i),
            (None, Some(u)) => SettingValue::UInt(u),
            (None, None) => SettingValue::Float(n.as_f64()?.to_bits()),
        },
        Value::String(s) => SettingValue::Text(s.clone()),
        Value::Array(_) => SettingValue::Array,
        Value::Object(_) => SettingValue::Object,
    })
}

/// Calls `serde_json::Value::pointer_mut` and replaces the single value there by
/// another: nothing else in the table changes. A number that is not whole is
/// made again out of the text that spells it.
#[verifier::external_body]
fn put_setting(
    table: &mut Table,
    pointer: &str,
    value: &SettingValue,
    text: &str,
)
    requires
        pointer_path(pointer@) is Some,
        table_contents(*old(table)).dom().contains(pointer_path(pointer@)->0),
        is_scalar(table_contents(*old(table))[pointer_path(pointer@)->0]),
        is_scalar(value@),
        value@ matches SettingContents::Float(bits) ==> finite_number(text@) == Some(bits),
        value@ matches SettingContents::UInt(u) ==> u > i64::MAX,
    ensures
        table_contents(*final(table)) == table_contents(*old(table)).insert(
            pointer_path(pointer@)->0,
            value@,
        ),
{
    let new = match value {
        SettingValue::Bool(b) => Value::from(*b),
        SettingValue::Int(i) => Value::from(*i),
        SettingValue::UInt(u) => Value::from(*u),
        SettingValue::Float(_) => Value::Number(Number::from_f64(text.parse().unwrap()).unwrap()),
        SettingValue::Text(s) => Value::from(s.as_str()),
        _ => Value::Null,
    };
    if let Some(slot) = table.json.pointer_mut(pointer) {
        *slot = new;
    }
}

/// Reads a text as a binary64 number, as `str::parse` does, and calls
/// `serde_json::Number::from_f64`, which refuses what is not finite. The result is
/// a function of the text, named [`finite_number`].
#[verifier::external_body]
fn parse_number(text: &str) -> (r: Option<u64>)
    ensures
        r == finite_number(text@),
{
    Some(Number::from_f64(text.parse().ok()?)?.as_f64()?.to_bits())
}

/// The value that a text spells, of the kind that stands in the table already.
pub open spec fn value_like(current: SettingContents, desired: Seq<char>) -> Option<
    SettingContents,
> {
    match current {
        SettingContents::Bool(_) => if desired == "true"@ {
            Some(SettingContents::Bool(true))
        } else if desired == "false"@ {
            Some(SettingContents::Bool(false))
        } else {
            None
        },
        SettingContents::Int(_) => match parsed_signed(desired) {
            Some(i) => Some(SettingContents::Int(i as i64)),
            None => None,
        },
        SettingContents::UInt(_) => match parsed_unsigned(desired, u64::MAX as nat) {
            Some(n) => Some(whole_number(n)),
            None => None,
        },
        SettingContents::Float(_) => match finite_number(desired) {
            Some(bits) => Some(SettingContents::Float(bits)),
            None => None,
        },
        SettingContents::Text(_) => Some(SettingContents::Text(desired)),
        _ => None,
    }
}

pub open spec fn whole_number(n: nat) -> SettingContents {
    if n <= i64::MAX {
        SettingContents::Int(n as i64)
    } else {
        SettingContents::UInt(n as u64)
    }
}

/// Whether two values are equal. The two zeros of a binary64 number are.
pub open spec fn equal_values(a: SettingContents, b: SettingContents) -> bool {
    match (a, b) {
        (SettingContents::Float(x), SettingContents::Float(y)) => x == y || (x
            % 0x8000_0000_0000_0000 == 0 && y % 0x8000_0000_0000_0000 == 0),
        _ => a == b,
    }
}

/// The value that `desired` spells, of the same kind as `current`.
pub fn config_value_like(current: &SettingValue, desired: &str) -> (r: Option<SettingValue>)
    ensures
        match r {
            Some(v) => value_like(current@, desired@) == Some(v@),
            None => value_like(current@, desired@) is None,
        },
{
    match current {
        SettingValue::Bool(_) => if same(desired, "true") {
            Some(SettingValue::Bool(true))
        } else if same(desired, "false") {
            Some(SettingValue::Bool(false))
        } else {
            None
        },
        SettingValue::Int(_) => {
            let text = chars_of(desired);
            match parse_signed(text.as_slice()) {
                Some(i) => Some(SettingValue::Int(i)),
                None => None,
            }
        },
        SettingValue::UInt(_) => {
            let text = chars_of(desired);
            match parse_unsigned(text.as_slice(), u64::MAX) {
                Some(n) => if n <= i64::MAX as u64 {
                    Some(SettingValue::Int(n as i64))
                } else {
                    Some(SettingValue::UInt(n))
                },
                None => None,
            }
        },
        SettingValue::Float(_) => match parse_number(desired) {
            Some(bits) => Some(SettingValue::Float(bits)),
            None => None,
        },
        SettingValue::Text(_) => Some(SettingValue::Text(String::from_str(desired))),
        _ => None,
    }
}

/// Whether two values are equal.
pub fn same_value(a: &SettingValue, b: &SettingValue) -> (r: bool)
    ensures
        r == equal_values(a@, b@),
{
    match (a, b) {
        (SettingValue::Null, SettingValue::Null) => true,
        (SettingValue::Bool(x), SettingValue::Bool(y)) => *x == *y,
        (SettingValue::Int(x), SettingValue::Int(y)) => *x == *y,
        (SettingValue::UInt(x), SettingValue::UInt(y)) => *x == *y,
        (SettingValue::Float(x), SettingValue::Float(y)) => *x == *y || (*x % 0x8000_0000_0000_0000
            == 0 && *y % 0x8000_0000_0000_0000 == 0),
        (SettingValue::Text(x), SettingValue::Text(y)) => same(x.as_str(), y.as_str()),
        (SettingValue::Array, SettingValue::Array) => true,
        (SettingValue::Object, SettingValue::Object) => true,
        _ => false,
    }
}

/// What a table should hold for a setting, where it has that setting and its value
/// spells one of the kind there; and what it holds.
pub open spec fn wanted(
    name: Seq<char>,
    contents: Map<Seq<Seq<char>>, SettingContents>,
    setting: SettingView,
) -> Option<(SettingContents, SettingContents)> {
    match key_pointer(name, setting.0) {
        Some(pointer) => match at_pointer(contents, pointer) {
            Some(current) => match value_like(current, setting.1) {
                Some(value) => Some((value, current)),
                None => None,
            },
            None => None,
        },
        None => None,
    }
}

/// The wanted value of a setting that the table has.
pub open spec fn wanted_value(
    name: Seq<char>,
    contents: Map<Seq<Seq<char>>, SettingContents>,
    setting: SettingView,
) -> SettingContents {
    match wanted(name, contents, setting) {
        Some((value, current)) => value,
        None => arbitrary(),
    }
}

/// Whether a table has a setting and holds another value for it than the wanted.
pub open spec fn differs(
    name: Seq<char>,
    contents: Map<Seq<Seq<char>>, SettingContents>,
    setting: SettingView,
) -> bool {
    match wanted(name, contents, setting) {
        Some((value, current)) => !equal_values(current, value),
        None => false,
    }
}

/// The keys of the settings that a table has and holds another value for, in their
/// order.
pub open spec fn unapplied(
    name: Seq<char>,
    contents: Map<Seq<Seq<char>>, SettingContents>,
    desired: Seq<SettingView>,
) -> Seq<Seq<char>>
    decreases desired.len(),
{
    if desired.len() == 0 {
        Seq::empty()
    } else {
        let before = unapplied(name, contents, desired.drop_last());
        if differs(name, contents, desired.last()) {
            before.push(desired.last().0)
        } else {
            before
        }
    }
}

/// The keys of the settings that a table has and holds another value for.
pub fn unapplied_rpc_settings(
    name: &str,
    table: &Table,
    desired: &[(String, String)],
) -> (r: Vec<String>)
    ensures
        string_views(r@) == unapplied(name@, table_contents(*table), setting_views(desired@)),
{
    let ghost contents = table_contents(*table);
    let ghost views = setting_views(desired@);
    let mut r: Vec<String> = Vec::new();
    let mut i: usize = 0;
    assert(views.take(0) =~= Seq::empty());
    assert(string_views(r@) =~= Seq::empty());
    while i < desired.len()
        invariant
            i <= desired@.len(),
            contents == table_contents(*table),
            views == setting_views(desired@),
            string_views(r@) == unapplied(name@, contents, views.take(i as int)),
        decreases desired@.len() - i,
    {
        let ghost done = r@;
        let key = &desired[i].0;
        let changed: bool = setting_differs(name, table, key.as_str(), desired[i].1.as_str());
        if changed {
            r.push(key.clone());
            assert(string_views(r@) =~= string_views(done).push(key@));
        }
        proof {
            assert(views.take(i + 1).drop_last() =~= views.take(i as int));
            assert(views.take(i + 1).last() == views[i as int]);
        }
        i = i + 1;
    }
    assert(views.take(i as int) =~= views);
    r
}

fn setting_differs(name: &str, table: &Table, key: &str, desired: &str) -> (r: bool)
    ensures
        r == differs(name@, table_contents(*table), (key@, desired@)),
{
    match config_key_pointer(name, key) {
        Some(pointer) => match setting_at(table, pointer.as_str()) {
            Some(current) => match config_value_like(&current, desired) {
                Some(value) => !same_value(&current, &value),
                None => false,
            },
            None => false,
        },
        None => false,
    }
}

/// A table with one setting brought to its wanted value.
pub open spec fn with_setting(
    name: Seq<char>,
    contents: Map<Seq<Seq<char>>, SettingContents>,
    setting: SettingView,
) -> Map<Seq<Seq<char>>, SettingContents> {
    if differs(name, contents, setting) {
        contents.insert(
            pointer_path(key_pointer(name, setting.0)->0)->0,
            wanted_value(name, contents, setting),
        )
    } else {
        contents
    }
}

/// A table with settings brought to their wanted values one after another, and how
/// many of them changed it.
pub open spec fn with_settings(
    name: Seq<char>,
    contents: Map<Seq<Seq<char>>, SettingContents>,
    desired: Seq<SettingView>,
) -> (Map<Seq<Seq<char>>, SettingContents>, nat)
    decreases desired.len(),
{
    if desired.len() == 0 {
        (contents, 0)
    } else {
        let (before, count) = with_settings(name, contents, desired.drop_last());
        if differs(name, before, desired.last()) {
            (with_setting(name, before, desired.last()), count + 1)
        } else {
            (before, count)
        }
    }
}

/// Brings a table to the wanted values. Settings that the camera does not have are
/// left out. Returns how many values changed.
pub fn apply_settings(table: &mut Table, name: &str, desired: &[(String, String)]) -> (n:
    usize)
    ensures
        (table_contents(*final(table)), n as nat) == with_settings(
            name@,
            table_contents(*old(table)),
            setting_views(desired@),
        ),
{
    let ghost start = table_contents(*table);
    let ghost views = setting_views(desired@);
    let mut n: usize = 0;
    let mut i: usize = 0;
    assert(views.take(0) =~= Seq::empty());
    while i < desired.len()
        invariant
            i <= desired@.len(),
            n <= i,
            views == setting_views(desired@),
            (table_contents(*table), n as nat) == with_settings(name@, start, views.take(i as int)),
        decreases desired@.len() - i,
    {
        let ghost before = table_contents(*table);
        proof {
            assert(views.take(i + 1).drop_last() =~= views.take(i as int));
            assert(views.take(i + 1).last() == views[i as int]);
        }
        let changed: bool = apply_setting(table, name, desired[i].0.as_str(), desired[i].1.as_str());
        if changed {
            n = n + 1;
        }
        i = i + 1;
    }
    assert(views.take(i as int) =~= views);
    n
}

fn apply_setting(table: &mut Table, name: &str, key: &str, desired: &str) -> (r: bool)
    ensures
        r == differs(name@, table_contents(*old(table)), (key@, desired@)),
        table_contents(*final(table)) == with_setting(
            name@,
            table_contents(*old(table)),
            (key@, desired@),
        ),
{
    let pointer = match config_key_pointer(name, key) {
        Some(pointer) => pointer,
        None => return false,
    };
    let current = match setting_at(table, pointer.as_str()) {
        Some(current) => current,
        None => return false,
    };
    let value = match config_value_like(&current, desired) {
        Some(value) => value,
        None => return false,
    };
    if same_value(&current, &value) {
        return false;
    }
    put_setting(table, pointer.as_str(), &value, desired);
    true
}

// --- What bringing a table to its values comes to ---

/// The place in the table that a setting is about.
pub open spec fn place(name: Seq<char>, setting: SettingView) -> Option<Seq<Seq<char>>> {
    match key_pointer(name, setting.0) {
        Some(pointer) => pointer_path(pointer),
        None => None,
    }
}

/// Whether no two of the settings are about the same place.
pub open spec fn distinct_places(name: Seq<char>, desired: Seq<SettingView>) -> bool {
    forall|i: int, j: int|
        #![trigger desired[i], desired[j]]
        0 <= i < j < desired.len() && place(name, desired[i]) is Some ==> place(name, desired[i])
            != place(name, desired[j])
}

/// A wanted value is of its own kind: asking again gives the same.
proof fn lemma_value_like_stable(current: SettingContents, desired: Seq<char>)
    requires
        value_like(current, desired) is Some,
    ensures
        value_like(value_like(current, desired)->0, desired) == value_like(current, desired),
{
    match current {
        SettingContents::UInt(_) => {
            let n = parsed_unsigned(desired, u64::MAX as nat)->0;
            if n <= i64::MAX {
                assert(parsed_unsigned(desired, 0x7fff_ffff_ffff_ffff) == Some(n));
                if desired.len() > 0 && desired[0] == '-' {
                    assert(!crate::text::is_digit(desired[0]));
                    assert(false);
                }
            }
        },
        _ => {},
    }
}

/// Applying settings changes nothing but the places they are about.
pub proof fn law_other_settings_stay(
    name: Seq<char>,
    contents: Map<Seq<Seq<char>>, SettingContents>,
    desired: Seq<SettingView>,
    path: Seq<Seq<char>>,
)
    requires
        forall|i: int| 0 <= i < desired.len() ==> place(name, #[trigger] desired[i]) != Some(path),
    ensures
        ({
            let after = with_settings(name, contents, desired).0;
            after.dom().contains(path) == contents.dom().contains(path) && (contents.dom().contains(
                path,
            ) ==> after[path] == contents[path])
        }),
    decreases desired.len(),
{
    if desired.len() > 0 {
        let front = desired.drop_last();
        assert forall|i: int| 0 <= i < front.len() implies place(name, #[trigger] front[i]) != Some(
            path,
        ) by {
            assert(front[i] == desired[i]);
        }
        law_other_settings_stay(name, contents, front, path);
        assert(desired.last() == desired[desired.len() - 1]);
    }
}

proof fn lemma_applied(
    name: Seq<char>,
    contents: Map<Seq<Seq<char>>, SettingContents>,
    desired: Seq<SettingView>,
    i: int,
)
    requires
        distinct_places(name, desired),
        0 <= i < desired.len(),
    ensures
        !differs(name, with_settings(name, contents, desired).0, desired[i]),
    decreases desired.len(),
{
    let front = desired.drop_last();
    let last = desired.last();
    let before = with_settings(name, contents, front).0;
    let after = with_settings(name, contents, desired).0;
    if i == desired.len() - 1 {
        if differs(name, before, last) {
            if let Some((value, current)) = wanted(name, before, last) {
                lemma_value_like_stable(current, last.1);
            }
        }
    } else {
        assert(distinct_places(name, front)) by {
            assert forall|a: int, b: int|
                #![trigger front[a], front[b]]
                0 <= a < b < front.len() && place(name, front[a]) is Some implies place(
                name,
                front[a],
            ) != place(name, front[b]) by {
                assert(front[a] == desired[a] && front[b] == desired[b]);
            }
        }
        lemma_applied(name, contents, front, i);
        assert(front[i] == desired[i]);
        assert(desired[desired.len() - 1] == last);
        if differs(name, before, last) {
            assert(place(name, desired[i]) is Some ==> place(name, desired[i]) != place(name, last));
        }
    }
}

/// Once settings for different places are applied, none of them is left to apply.
pub proof fn law_applied_settings_are_kept(
    name: Seq<char>,
    contents: Map<Seq<Seq<char>>, SettingContents>,
    desired: Seq<SettingView>,
)
    requires
        distinct_places(name, desired),
    ensures
        unapplied(name, with_settings(name, contents, desired).0, desired) == Seq::<
            Seq<char>,
        >::empty(),
        with_settings(name, with_settings(name, contents, desired).0, desired) == (
            with_settings(name, contents, desired).0,
            0nat,
        ),
{
    let after = with_settings(name, contents, desired).0;
    assert forall|i: int| 0 <= i < desired.len() implies !differs(
        name,
        after,
        #[trigger] desired[i],
    ) by {
        lemma_applied(name, contents, desired, i);
    }
    lemma_nothing_left(name, after, desired);
}

proof fn lemma_nothing_left(
    name: Seq<char>,
    contents: Map<Seq<Seq<char>>, SettingContents>,
    desired: Seq<SettingView>,
)
    requires
        forall|i: int| 0 <= i < desired.len() ==> !differs(name, contents, #[trigger] desired[i]),
    ensures
        unapplied(name, contents, desired) == Seq::<Seq<char>>::empty(),
        with_settings(name, contents, desired) == (contents, 0nat),
    decreases desired.len(),
{
    if desired.len() > 0 {
        let front = desired.drop_last();
        assert forall|i: int| 0 <= i < front.len() implies !differs(
            name,
            contents,
            #[trigger] front[i],
        ) by {
            assert(front[i] == desired[i]);
        }
        lemma_nothing_left(name, contents, front);
        assert(desired.last() == desired[desired.len() - 1]);
    }
}

/// Applying settings changes a value exactly where some setting differs.
pub proof fn law_a_change_is_a_difference(
    name: Seq<char>,
    contents: Map<Seq<Seq<char>>, SettingContents>,
    desired: Seq<SettingView>,
)
    ensures
        with_settings(name, contents, desired).1 > 0 <==> exists|i: int|
            0 <= i < desired.len() && differs(name, contents, #[trigger] desired[i]),
{
    if with_settings(name, contents, desired).1 == 0 {
        lemma_nothing_changed(name, contents, desired);
    } else if forall|i: int|
        0 <= i < desired.len() ==> !differs(name, contents, #[trigger] desired[i]) {
        lemma_nothing_left(name, contents, desired);
    }
}

proof fn lemma_nothing_changed(
    name: Seq<char>,
    contents: Map<Seq<Seq<char>>, SettingContents>,
    desired: Seq<SettingView>,
)
    requires
        with_settings(name, contents, desired).1 == 0,
    ensures
        with_settings(name, contents, desired).0 == contents,
        forall|i: int| 0 <= i < desired.len() ==> !differs(name, contents, #[trigger] desired[i]),
    decreases desired.len(),
{
    if desired.len() > 0 {
        let front = desired.drop_last();
        lemma_nothing_changed(name, contents, front);
        assert forall|i: int| 0 <= i < desired.len() implies !differs(
            name,
            contents,
            #[trigger] desired[i],
        ) by {
            if i < front.len() {
                assert(front[i] == desired[i]);
            }
        }
    }
}

/// A setting is left to apply exactly where it differs.
pub proof fn law_nothing_is_left_where_nothing_differs(
    name: Seq<char>,
    contents: Map<Seq<Seq<char>>, SettingContents>,
    desired: Seq<SettingView>,
)
    ensures
        unapplied(name, contents, desired).len() == 0 <==> forall|i: int|
            0 <= i < desired.len() ==> !differs(name, contents, #[trigger] desired[i]),
    decreases desired.len(),
{
    if desired.len() > 0 {
        let front = desired.drop_last();
        law_nothing_is_left_where_nothing_differs(name, contents, front);
        assert(desired.last() == desired[desired.len() - 1]);
        if unapplied(name, contents, desired).len() == 0 {
            assert forall|i: int| 0 <= i < desired.len() implies !differs(
                name,
                contents,
                #[trigger] desired[i],
            ) by {
                if i < front.len() {
                    assert(front[i] == desired[i]);
                }
            }
        } else {
            assert(differs(name, contents, desired.last()) || exists|i: int|
                0 <= i < front.len() && differs(name, contents, #[trigger] front[i]));
            if !differs(name, contents, desired.last()) {
                let i = choose|i: int|
                    0 <= i < front.len() && differs(name, contents, #[trigger] front[i]);
                assert(front[i] == desired[i]);
            }
        }
    }
}

// --- Values, pointers and differences ---

/// A wanted value is of the kind that stands in the table: `true` and `false` for a
/// switch, a whole number for a whole number, and any text for a text. Nothing else is
/// brought to a wanted value.
pub proof fn law_a_value_keeps_its_kind(current: SettingContents, desired: Seq<char>, n: nat)
    ensures
        current is Bool ==> value_like(current, "true"@) == Some(SettingContents::Bool(true))
            && value_like(current, "false"@) == Some(SettingContents::Bool(false)),
        current is Bool && desired != "true"@ && desired != "false"@ ==> value_like(
            current,
            desired,
        ) is None,
        current is Int && n <= i64::MAX ==> value_like(current, decimal(n)) == Some(
            SettingContents::Int(n as i64),
        ),
        current is UInt && i64::MAX < n <= u64::MAX ==> value_like(current, decimal(n)) == Some(
            SettingContents::UInt(n as u64),
        ),
        current is UInt && n <= i64::MAX ==> value_like(current, decimal(n)) == Some(
            SettingContents::Int(n as i64),
        ),
        current is Int || current is UInt ==> value_like(current, Seq::empty()) is None,
        current is Text ==> value_like(current, desired) == Some(SettingContents::Text(desired)),
        current is Float ==> (value_like(current, desired) is Some <==> finite_number(
            desired,
        ) is Some),
        current is Float && finite_number(desired) is Some ==> value_like(current, desired) == Some(
            SettingContents::Float(finite_number(desired)->0),
        ),
        current is Null || current is Array || current is Object ==> value_like(
            current,
            desired,
        ) is None,
{
    reveal_strlit("true");
    reveal_strlit("false");
    assert("true"@.len() == 4 && "false"@.len() == 5);
    lemma_decimal(n);
    law_numbers_are_read_by_their_digits(decimal(n), u64::MAX as nat);
    law_numbers_are_read_by_their_digits(Seq::empty(), u64::MAX as nat);
    assert forall|i: int| 0 <= i < decimal(n).len() implies '0' <= #[trigger] decimal(n)[i]
        <= '9' by {
        assert(is_digit(decimal(n)[i]));
    }
}

/// Values are equal where they are of one kind and the same; of numbers that are not
/// whole also the two zeros.
pub proof fn law_equal_values_are_the_same(a: SettingContents, b: SettingContents)
    ensures
        equal_values(a, a),
        equal_values(a, b) == equal_values(b, a),
        !(a is Float) && equal_values(a, b) ==> a == b,
        a is Float && equal_values(a, b) ==> b is Float && (a == b || ((a->Float_0 == 0
            || a->Float_0 == 0x8000_0000_0000_0000) && (b->Float_0 == 0 || b->Float_0
            == 0x8000_0000_0000_0000))),
        equal_values(
            SettingContents::Float(0),
            SettingContents::Float(0x8000_0000_0000_0000),
        ),
{
}

/// The keys that are reported are those of the settings that differ, and no others.
pub proof fn law_what_differs_is_reported(
    name: Seq<char>,
    contents: Map<Seq<Seq<char>>, SettingContents>,
    desired: Seq<SettingView>,
    key: Seq<char>,
)
    ensures
        unapplied(name, contents, desired).contains(key) <==> exists|i: int|
            0 <= i < desired.len() && (#[trigger] desired[i]).0 == key && differs(
                name,
                contents,
                desired[i],
            ),
    decreases desired.len(),
{
    if desired.len() > 0 {
        let front = desired.drop_last();
        let last = desired[desired.len() - 1];
        law_what_differs_is_reported(name, contents, front, key);
        let before = unapplied(name, contents, front);
        let all = unapplied(name, contents, desired);
        if all.contains(key) {
            let k = choose|k: int| 0 <= k < all.len() && all[k] == key;
            if k < before.len() {
                assert(before[k] == key);
                assert(before.contains(key));
                let i = choose|i: int|
                    0 <= i < front.len() && (#[trigger] front[i]).0 == key && differs(
                        name,
                        contents,
                        front[i],
                    );
                assert(desired[i] == front[i]);
            }
        }
        if exists|i: int|
            0 <= i < desired.len() && (#[trigger] desired[i]).0 == key && differs(
                name,
                contents,
                desired[i],
            ) {
            let i = choose|i: int|
                0 <= i < desired.len() && (#[trigger] desired[i]).0 == key && differs(
                    name,
                    contents,
                    desired[i],
                );
            if i < front.len() {
                assert(front[i] == desired[i]);
                assert(before.contains(key));
                let k = choose|k: int| 0 <= k < before.len() && before[k] == key;
                assert(all[k] == key);
            } else {
                assert(all[all.len() - 1] == key);
            }
        }
    }
}

/// A table holds another value than the wanted one where it has the place of the key and
/// what stands there is not equal to the wanted value of its kind. Where it has no such
/// place, or no value of its kind is wanted, nothing differs.
pub proof fn law_what_a_difference_is(
    name: Seq<char>,
    contents: Map<Seq<Seq<char>>, SettingContents>,
    setting: SettingView,
)
    ensures
        key_pointer(name, setting.0) is None ==> !differs(name, contents, setting),
        key_pointer(name, setting.0) matches Some(pointer) ==> match at_pointer(contents, pointer) {
            Some(current) => differs(name, contents, setting) <==> value_like(
                current,
                setting.1,
            ) is Some && !equal_values(current, value_like(current, setting.1)->0),
            None => !differs(name, contents, setting),
        },
{
}

/// The table of an answer is what stands in it under `params` and there under `table`,
/// and there is none where either is missing.
pub proof fn law_the_table_is_in_the_answer(
    answer: Map<Seq<Seq<char>>, SettingContents>,
    path: Seq<Seq<char>>,
)
    ensures
        ({
            let params = seq!["params"@];
            let table = seq!["params"@, "table"@];
            let there = answer.dom().contains(Seq::empty()) && answer[Seq::empty()] is Object
                && answer.dom().contains(params) && answer[params] is Object
                && answer.dom().contains(table);
            &&& answered_table(answer) is Some <==> there
            &&& there ==> {
                let t = answered_table(answer)->0;
                &&& t.dom().contains(path) <==> answer.dom().contains(table + path)
                &&& t.dom().contains(path) ==> t[path] == answer[table + path]
            }
        }),
{
    let none = Seq::<Seq<char>>::empty();
    let first = seq!["params"@];
    let second = seq!["table"@];
    assert(first + none =~= first);
    assert(first + second =~= seq!["params"@, "table"@]);
    assert(first + (second + path) =~= seq!["params"@, "table"@] + path);
    let params = below(answer, first);
    assert(params.dom().contains(none) <==> answer.dom().contains(first + none));
    assert(params.dom().contains(second) <==> answer.dom().contains(first + second));
    let t = below(params, second);
    assert(t.dom().contains(path) <==> params.dom().contains(second + path));
    assert(params.dom().contains(second + path) <==> answer.dom().contains(
        first + (second + path),
    ));
}

proof fn lemma_nothing_escaped(s: Seq<char>, mark: char, c: char)
    requires
        !s.contains('~'),
    ensures
        unescaped(s, mark, c) == s,
    decreases s.len(),
{
    if s.len() >= 2 {
        assert(s.contains(s[0]));
        let rest = s.skip(1);
        if rest.contains('~') {
            let k = choose|k: int| 0 <= k < rest.len() && rest[k] == '~';
            assert(s[k + 1] == '~');
        }
        lemma_nothing_escaped(rest, mark, c);
        assert(seq![s[0]] + rest =~= s);
    }
}

/// A pointer leads step by step: each name behind a slash is one step. A pointer that
/// does not start with a slash leads nowhere, and an empty one to the whole.
pub proof fn law_a_pointer_leads_step_by_step(name: Seq<char>, rest: Seq<char>)
    requires
        !name.contains('/') && !name.contains('~'),
        rest.len() > 0 ==> rest[0] == '/',
    ensures
        pointer_path(rest) is Some,
        pointer_path(seq!['/'] + name + rest) == Some(seq![name] + pointer_path(rest)->0),
        pointer_path(Seq::empty()) == Some(Seq::<Seq<char>>::empty()),
        name.len() > 0 ==> pointer_path(name + rest) is None,
{
    let pointer = seq!['/'] + name + rest;
    let text = pointer.skip(1);
    assert(text =~= name + rest);
    lemma_nothing_escaped(name, '1', '/');
    lemma_nothing_escaped(name, '0', '~');
    text.index_of_first_ensures('/');
    let steps = pointer_path(pointer)->0;
    if rest.len() == 0 {
        assert(text =~= name);
        assert(split_on(text, '/') =~= seq![name]);
        assert(steps =~= seq![name] + pointer_path(rest)->0);
    } else {
        assert(text[name.len() as int] == '/');
        assert(text.contains('/'));
        let i = text.index_of_first('/')->0;
        if i < name.len() {
            assert(name[i] == '/');
            assert(name.contains('/'));
        }
        assert(i == name.len());
        assert(text.take(i) =~= name);
        assert(text.skip(i + 1) =~= rest.skip(1));
        let more = split_on(rest.skip(1), '/');
        assert(split_on(text, '/') =~= seq![name] + more);
        assert(steps =~= seq![name] + pointer_path(rest)->0);
    }
    if name.len() > 0 {
        assert((name + rest)[0] == name[0]);
        assert(name.contains(name[0]));
    }
}

/// In a name a tilde with a digit stands for another character, and everything else for
/// itself.
pub proof fn law_names_are_unescaped(mark: char, c: char, s: Seq<char>)
    ensures
        unescaped(seq!['~', mark] + s, mark, c) == seq![c] + unescaped(s, mark, c),
        unescaped(Seq::empty(), mark, c) == Seq::<char>::empty(),
{
    let text = seq!['~', mark] + s;
    assert(text.skip(2) =~= s);
}

/// Settings are applied one after the other, and those that change the table are counted;
/// without any the table stays and nothing is counted.
pub proof fn law_settings_are_applied_one_by_one(
    name: Seq<char>,
    contents: Map<Seq<Seq<char>>, SettingContents>,
    desired: Seq<SettingView>,
    setting: SettingView,
)
    ensures
        with_settings(name, contents, Seq::empty()) == (contents, 0nat),
        ({
            let (before, count) = with_settings(name, contents, desired);
            let (after, all) = with_settings(name, contents, desired.push(setting));
            if differs(name, before, setting) {
                after == with_setting(name, before, setting) && all == count + 1
            } else {
                after == before && all == count
            }
        }),
{
    assert(desired.push(setting).drop_last() =~= desired);
}

} // verus!
