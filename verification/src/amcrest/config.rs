//! The camera's configuration: flat keys such as `Encode[0].Video.FPS`, the JSON
//! tables they point into, and what has to change there.

use vstd::prelude::*;
use vstd::string::*;
use crate::text::{chars_of, is_digit, starts, string_of};

verus! {

/// A configuration key and the value wanted for it.
pub type SettingView = (Seq<char>, Seq<char>);

/// The texts of a list of settings.
pub open spec fn setting_views(settings: Seq<(String, String)>) -> Seq<SettingView> {
    Seq::new(settings.len(), |i: int| (settings[i].0@, settings[i].1@))
}

/// The texts of a list of literal settings.
pub open spec fn literal_views(settings: Seq<(&str, &str)>) -> Seq<SettingView> {
    Seq::new(settings.len(), |i: int| (settings[i].0@, settings[i].1@))
}

/// A list of settings out of literals.
pub fn settings(values: &[(&str, &str)]) -> (r: Vec<(String, String)>)
    ensures
        setting_views(r@) == literal_views(values@),
{
    let mut r: Vec<(String, String)> = Vec::new();
    let mut i: usize = 0;
    while i < values.len()
        invariant
            i <= values@.len(),
            r@.len() == i,
            forall|j: int|
                0 <= j < i ==> (#[trigger] r@[j]).0@ == values@[j].0@ && r@[j].1@ == values@[j].1@,
        decreases values@.len() - i,
    {
        r.push((String::from_str(values[i].0), String::from_str(values[i].1)));
        i = i + 1;
    }
    assert(setting_views(r@) =~= literal_views(values@));
    r
}

// --- Keys and pointers ---

/// How many characters stand before the next `.` or `[`.
pub open spec fn token_len(s: Seq<char>) -> nat
    decreases s.len(),
{
    if s.len() == 0 || s[0] == '.' || s[0] == '[' {
        0
    } else {
        1 + token_len(s.skip(1))
    }
}

/// How many digits a text starts with.
pub open spec fn digit_len(s: Seq<char>) -> nat
    decreases s.len(),
{
    if s.len() == 0 || !is_digit(s[0]) {
        0
    } else {
        1 + digit_len(s.skip(1))
    }
}

/// The JSON pointer that a path of `.field` and `[index]` steps stands for.
pub open spec fn pointer_of(path: Seq<char>) -> Option<Seq<char>>
    decreases path.len(),
{
    if path.len() == 0 {
        Some(Seq::empty())
    } else if path[0] == '.' {
        let n = token_len(path.skip(1)) as int;
        if n == 0 {
            None
        } else {
            proof {
                lemma_token_stops(path.skip(1));
            }
            prefixed(path.subrange(1, 1 + n), pointer_of(path.skip(1 + n)))
        }
    } else if path[0] == '[' {
        let n = digit_len(path.skip(1)) as int;
        if n == 0 || path.len() <= 1 + n || path[1 + n] != ']' {
            None
        } else {
            prefixed(path.subrange(1, 1 + n), pointer_of(path.skip(2 + n)))
        }
    } else {
        None
    }
}

/// A pointer with one more step in front.
pub open spec fn prefixed(token: Seq<char>, rest: Option<Seq<char>>) -> Option<Seq<char>> {
    match rest {
        Some(rest) => Some(seq!['/'] + token + rest),
        None => None,
    }
}

/// The pointer into the table `name` for a key that starts with that name.
pub open spec fn key_pointer(name: Seq<char>, key: Seq<char>) -> Option<Seq<char>> {
    if starts(key, name) {
        pointer_of(key.skip(name.len() as int))
    } else {
        None
    }
}

/// A pointer that continues `done`.
spec fn continued(done: Seq<char>, rest: Option<Seq<char>>) -> Option<Seq<char>> {
    match rest {
        Some(rest) => Some(done + rest),
        None => None,
    }
}

proof fn lemma_token_len(s: Seq<char>, n: int)
    requires
        0 <= n <= s.len(),
        forall|j: int| 0 <= j < n ==> s[j] != '.' && s[j] != '[',
        n < s.len() ==> s[n] == '.' || s[n] == '[',
    ensures
        token_len(s) == n,
    decreases n,
{
    if n > 0 {
        lemma_token_len(s.skip(1), n - 1);
    }
}

proof fn lemma_digit_len(s: Seq<char>, n: int)
    requires
        0 <= n <= s.len(),
        forall|j: int| 0 <= j < n ==> is_digit(#[trigger] s[j]),
        n < s.len() ==> !is_digit(s[n]),
    ensures
        digit_len(s) == n,
    decreases n,
{
    if n > 0 {
        lemma_digit_len(s.skip(1), n - 1);
    }
}

/// The JSON pointer for a flat key, within the table `name`.
pub fn config_key_pointer(name: &str, key: &str) -> (r: Option<String>)
    ensures
        match r {
            Some(p) => key_pointer(name@, key@) == Some(p@),
            None => key_pointer(name@, key@) is None,
        },
{
    let prefix = chars_of(name);
    let whole = chars_of(key);
    if !crate::text::starts_with(whole.as_slice(), prefix.as_slice()) {
        return None;
    }
    let path = &whole.as_slice()[prefix.len()..whole.len()];
    let ghost steps = path@;
    assert(steps =~= key@.skip(name@.len() as int));
    let mut pointer = String::new();
    let mut i: usize = 0;
    assert(steps.skip(0) =~= steps);
    assert(pointer_of(steps) == continued(pointer@, pointer_of(steps))) by {
        if let Some(p) = pointer_of(steps) {
            assert(pointer@ + p =~= p);
        }
    }
    while i < path.len()
        invariant
            i <= path@.len(),
            steps == path@,
            pointer_of(steps) == continued(pointer@, pointer_of(steps.skip(i as int))),
            key_pointer(name@, key@) == pointer_of(steps),
        decreases path@.len() - i,
    {
        let ghost rest = steps.skip(i as int);
        let ghost done = pointer@;
        let start: usize = i + 1;
        let mut end: usize = start;
        if path[i] == '.' {
            while end < path.len() && path[end] != '.' && path[end] != '['
                invariant
                    start <= end <= path@.len(),
                    forall|j: int| start <= j < end ==> path@[j] != '.' && path@[j] != '[',
                decreases path@.len() - end,
            {
                end = end + 1;
            }
            proof {
                assert forall|j: int| 0 <= j < end - start implies rest.skip(1)[j] != '.'
                    && rest.skip(1)[j] != '[' by {
                    assert(rest.skip(1)[j] == path@[start + j]);
                }
                lemma_token_len(rest.skip(1), end - start);
            }
            if start == end {
                return None;
            }
            proof {
                assert(rest.subrange(1, 1 + (end - start)) =~= path@.subrange(
                    start as int,
                    end as int,
                ));
                assert(rest.skip(1 + (end - start)) =~= steps.skip(end as int));
            }
        } else if path[i] == '[' {
            while end < path.len() && path[end] >= '0' && path[end] <= '9'
                invariant
                    start <= end <= path@.len(),
                    forall|j: int| start <= j < end ==> is_digit(#[trigger] path@[j]),
                decreases path@.len() - end,
            {
                end = end + 1;
            }
            proof {
                assert forall|j: int| 0 <= j < end - start implies is_digit(
                    #[trigger] rest.skip(1)[j],
                ) by {
                    assert(rest.skip(1)[j] == path@[start + j]);
                }
                lemma_digit_len(rest.skip(1), end - start);
            }
            if start == end || end >= path.len() || path[end] != ']' {
                return None;
            }
            proof {
                assert(rest.subrange(1, 1 + (end - start)) =~= path@.subrange(
                    start as int,
                    end as int,
                ));
                assert(rest.skip(2 + (end - start)) =~= steps.skip(end + 1));
            }
        } else {
            return None;
        }
        let token = string_of(&path[start..end]);
        pointer.push('/');
        pointer.append(token.as_str());
        let next: usize = if path[i] == '[' {
            end + 1
        } else {
            end
        };
        proof {
            let tail = pointer_of(steps.skip(next as int));
            assert(pointer_of(rest) == prefixed(token@, tail));
            if let Some(p) = tail {
                assert(done + (seq!['/'] + token@ + p) =~= pointer@ + p);
            }
        }
        i = next;
    }
    proof {
        assert(steps.skip(i as int) =~= Seq::empty());
        assert(pointer@ + Seq::<char>::empty() =~= pointer@);
    }
    Some(pointer)
}

/// The table that a key belongs to: what stands before its first step.
pub open spec fn key_name(key: Seq<char>) -> Option<Seq<char>> {
    if token_len(key) > 0 {
        Some(key.take(token_len(key) as int))
    } else {
        None
    }
}

/// The name of the table that a key belongs to.
pub fn config_name(key: &str) -> (r: Option<String>)
    ensures
        match r {
            Some(n) => key_name(key@) == Some(n@),
            None => key_name(key@) is None,
        },
{
    let whole = chars_of(key);
    let mut end: usize = 0;
    while end < whole.len() && whole[end] != '.' && whole[end] != '['
        invariant
            end <= whole@.len(),
            forall|j: int| 0 <= j < end ==> whole@[j] != '.' && whole@[j] != '[',
        decreases whole@.len() - end,
    {
        end = end + 1;
    }
    proof {
        lemma_token_len(whole@, end as int);
    }
    if end == 0 {
        None
    } else {
        let name = string_of(&whole.as_slice()[0..end]);
        assert(name@ =~= key@.take(end as int));
        Some(name)
    }
}

/// A key's pointer is taken within the table it names: what is left of the key
/// are the steps alone.
pub proof fn law_pointer_starts_behind_the_name(key: Seq<char>)
    requires
        key_name(key) is Some,
    ensures
        key_pointer(key_name(key)->0, key) == pointer_of(key.skip(token_len(key) as int)),
        key.len() > token_len(key) ==> key[token_len(key) as int] == '.' || key[token_len(key) as int]
            == '[',
{
    lemma_token_stops(key);
    assert(key.take(token_len(key) as int) =~= key_name(key)->0);
}

pub proof fn lemma_token_stops(s: Seq<char>)
    ensures
        token_len(s) <= s.len(),
        token_len(s) < s.len() ==> s[token_len(s) as int] == '.' || s[token_len(s) as int] == '[',
    decreases s.len(),
{
    if s.len() > 0 && s[0] != '.' && s[0] != '[' {
        lemma_token_stops(s.skip(1));
    }
}

/// A step `.name` of a key is a step `/name` of the pointer, up to the next step; a step
/// without a name is no step.
pub proof fn law_a_field_is_a_step(name: Seq<char>, rest: Seq<char>)
    requires
        !name.contains('.') && !name.contains('['),
        rest.len() > 0 ==> rest[0] == '.' || rest[0] == '[',
    ensures
        ({
            let path = seq!['.'] + name + rest;
            &&& name.len() == 0 ==> pointer_of(path) is None
            &&& name.len() > 0 ==> match pointer_of(rest) {
                Some(p) => pointer_of(path) == Some(seq!['/'] + name + p),
                None => pointer_of(path) is None,
            }
        }),
{
    let path = seq!['.'] + name + rest;
    let n = name.len() as int;
    assert(path.skip(1) =~= name + rest);
    lemma_name_len(name, rest);
    assert(path.subrange(1, 1 + n) =~= name);
    assert(path.skip(1 + n) =~= rest);
}

proof fn lemma_name_len(name: Seq<char>, rest: Seq<char>)
    requires
        !name.contains('.') && !name.contains('['),
        rest.len() > 0 ==> rest[0] == '.' || rest[0] == '[',
    ensures
        token_len(name + rest) == name.len(),
{
    let s = name + rest;
    assert forall|j: int| 0 <= j < name.len() implies s[j] != '.' && s[j] != '[' by {
        assert(name[j] == s[j]);
        assert(name.contains(name[j]));
    }
    lemma_token_len(s, name.len() as int);
}

/// A step `[number]` of a key is a step `/number` of the pointer. Without a number or
/// without the closing bracket it is no step.
pub proof fn law_an_index_is_a_step(digits: Seq<char>, rest: Seq<char>)
    requires
        forall|i: int| 0 <= i < digits.len() ==> '0' <= #[trigger] digits[i] <= '9',
    ensures
        ({
            let path = seq!['['] + digits + seq![']'] + rest;
            &&& digits.len() == 0 ==> pointer_of(path) is None
            &&& digits.len() > 0 ==> match pointer_of(rest) {
                Some(p) => pointer_of(path) == Some(seq!['/'] + digits + p),
                None => pointer_of(path) is None,
            }
        }),
        rest.len() > 0 && rest[0] != ']' && !('0' <= rest[0] <= '9') ==> pointer_of(
            seq!['['] + digits + rest,
        ) is None,
        pointer_of(seq!['['] + digits) is None,
{
    let n = digits.len() as int;
    let path = seq!['['] + digits + seq![']'] + rest;
    assert(path.skip(1) =~= digits + seq![']'] + rest);
    lemma_digit_len(path.skip(1), n);
    assert(path.subrange(1, 1 + n) =~= digits);
    assert(path.skip(2 + n) =~= rest);
    let open = seq!['['] + digits;
    assert(open.skip(1) =~= digits);
    lemma_digit_len(digits, n);
    if rest.len() > 0 && rest[0] != ']' && !('0' <= rest[0] <= '9') {
        let other = open + rest;
        assert(other.skip(1) =~= digits + rest);
        lemma_digit_len(other.skip(1), n);
    }
}

/// A path that starts with anything but a step has no pointer, and one without any step
/// points to the whole.
pub proof fn law_a_path_is_made_of_steps(path: Seq<char>)
    ensures
        path.len() == 0 ==> pointer_of(path) == Some(Seq::<char>::empty()),
        path.len() > 0 && path[0] != '.' && path[0] != '[' ==> pointer_of(path) is None,
{
}

/// A key names its table before its first step, and points into no other table.
pub proof fn law_a_key_belongs_to_its_table(name: Seq<char>, steps: Seq<char>, other: Seq<char>)
    requires
        !name.contains('.') && !name.contains('['),
        steps.len() > 0 ==> steps[0] == '.' || steps[0] == '[',
    ensures
        name.len() > 0 ==> key_name(name + steps) == Some(name),
        name.len() == 0 ==> key_name(name + steps) is None,
        key_pointer(name, name + steps) == pointer_of(steps),
        !starts(name + steps, other) ==> key_pointer(other, name + steps) is None,
{
    let key = name + steps;
    lemma_name_len(name, steps);
    assert(key.take(name.len() as int) =~= name);
    assert(key.skip(name.len() as int) =~= steps);
}

} // verus!
