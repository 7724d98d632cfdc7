//! The name that an accessory is announced under.

use vstd::prelude::*;
use vstd::string::*;
use crate::setup::is_letter_or_digit;
use crate::text::chars_of;

verus! {

/// A character of a host name: letters in lower case, digits, and a dash for
/// everything else.
pub open spec fn host_char(c: char) -> char {
    if 'A' <= c <= 'Z' {
        (c as u32 + 32) as char
    } else if is_letter_or_digit(c) {
        c
    } else {
        '-'
    }
}

/// The text without the dashes at its start.
pub open spec fn without_leading_dashes(s: Seq<char>) -> Seq<char>
    decreases s.len(),
{
    if s.len() > 0 && s[0] == '-' {
        without_leading_dashes(s.skip(1))
    } else {
        s
    }
}

/// The text without the dashes at its end.
pub open spec fn without_trailing_dashes(s: Seq<char>) -> Seq<char>
    decreases s.len(),
{
    if s.len() > 0 && s.last() == '-' {
        without_trailing_dashes(s.drop_last())
    } else {
        s
    }
}

/// The host name of an accessory.
pub open spec fn hostname(name: Seq<char>) -> Seq<char> {
    "hap-"@ + without_trailing_dashes(
        without_leading_dashes(name.map_values(|c: char| host_char(c))),
    ) + ".local"@
}

fn to_host_char(c: char) -> (r: char)
    ensures
        r == host_char(c),
{
    if 'A' <= c && c <= 'Z' {
        ((c as u8) + 32) as char
    } else if ('a' <= c && c <= 'z') || ('0' <= c && c <= '9') {
        c
    } else {
        '-'
    }
}

/// A host name unique to the accessory, derived from its name, so that it never
/// conflicts with the machine's own: "hap-frontyard.local" for "Frontyard".
pub fn accessory_hostname(name: &str) -> (s: String)
    ensures
        s@ == hostname(name@),
{
    let chars = chars_of(name);
    let mut slug: Vec<char> = Vec::new();
    let mut i: usize = 0;
    while i < chars.len()
        invariant
            i <= chars@.len(),
            slug@.len() == i,
            forall|j: int| 0 <= j < i ==> #[trigger] slug@[j] == host_char(chars@[j]),
        decreases chars@.len() - i,
    {
        slug.push(to_host_char(chars[i]));
        i = i + 1;
    }
    let ghost whole = name@.map_values(|c: char| host_char(c));
    assert(slug@ =~= whole);
    let mut start: usize = 0;
    assert(slug@.skip(0) =~= slug@);
    while start < slug.len() && slug[start] == '-'
        invariant
            start <= slug@.len(),
            without_leading_dashes(slug@) == without_leading_dashes(slug@.skip(start as int)),
        decreases slug@.len() - start,
    {
        assert(slug@.skip(start as int).skip(1) =~= slug@.skip(start + 1));
        start = start + 1;
    }
    let ghost front = without_leading_dashes(whole);
    assert(front == slug@.skip(start as int));
    let mut end: usize = slug.len();
    assert(slug@.subrange(start as int, end as int) =~= front);
    while end > start && slug[end - 1] == '-'
        invariant
            start <= end <= slug@.len(),
            without_trailing_dashes(front) == without_trailing_dashes(
                slug@.subrange(start as int, end as int),
            ),
        decreases end,
    {
        assert(slug@.subrange(start as int, end as int).drop_last() =~= slug@.subrange(
            start as int,
            end - 1,
        ));
        end = end - 1;
    }
    let ghost rest = slug@.subrange(start as int, end as int);
    assert(without_trailing_dashes(front) == rest);
    let mut s = String::from_str("hap-");
    let mut k: usize = start;
    while k < end
        invariant
            start <= k <= end <= slug@.len(),
            s@ == "hap-"@ + slug@.subrange(start as int, k as int),
        decreases end - k,
    {
        s.push(slug[k]);
        assert(s@ =~= "hap-"@ + slug@.subrange(start as int, k + 1));
        k = k + 1;
    }
    s.append(".local");
    s
}

/// A host name is `hap-`, the accessory's name and `.local`. In the name small letters
/// and digits stay, capitals become small and everything else a dash; dashes at its
/// ends are dropped, and nothing else is.
pub proof fn law_a_host_name_is_made_of_the_name(name: Seq<char>)
    ensures
        exists|a: int, b: int|
            #![trigger name.subrange(a, b)]
            0 <= a <= b <= name.len() && hostname(name) == "hap-"@ + name.subrange(a, b).map_values(
                |c: char| host_char(c),
            ) + ".local"@ && (forall|i: int|
                0 <= i < a || b <= i < name.len() ==> host_char(#[trigger] name[i]) == '-') && (a < b
                ==> host_char(name[a]) != '-' && host_char(name[b - 1]) != '-'),
        forall|c: char| 'a' <= c <= 'z' || '0' <= c <= '9' ==> #[trigger] host_char(c) == c,
        host_char('A') == 'a' && host_char('M') == 'm' && host_char('Z') == 'z',
        forall|c: char|
            'A' <= c <= 'Z' ==> #[trigger] host_char(c) as u32 == c as u32 + 32,
        forall|c: char|
            !('a' <= c <= 'z' || 'A' <= c <= 'Z' || '0' <= c <= '9') ==> #[trigger] host_char(c)
                == '-',
{
    let whole = name.map_values(|c: char| host_char(c));
    let a = lemma_leading(whole);
    let front = whole.skip(a);
    let n = lemma_trailing(front);
    let b = a + n;
    assert(front.take(n) =~= name.subrange(a, b).map_values(|c: char| host_char(c)));
    assert forall|i: int| 0 <= i < a || b <= i < name.len() implies host_char(#[trigger] name[i])
        == '-' by {
        if i >= b {
            assert(front[i - a] == whole[i]);
        }
        assert(whole[i] == host_char(name[i]));
    }
    if a < b {
        assert(whole[a] == host_char(name[a]));
        assert(front[n - 1] == whole[b - 1]);
    }
}

proof fn lemma_leading(s: Seq<char>) -> (a: int)
    ensures
        0 <= a <= s.len(),
        without_leading_dashes(s) == s.skip(a),
        forall|i: int| 0 <= i < a ==> #[trigger] s[i] == '-',
        a < s.len() ==> s[a] != '-',
    decreases s.len(),
{
    if s.len() > 0 && s[0] == '-' {
        let b = lemma_leading(s.skip(1));
        assert(s.skip(1).skip(b) =~= s.skip(b + 1));
        assert forall|i: int| 0 <= i < b + 1 implies #[trigger] s[i] == '-' by {
            if i > 0 {
                assert(s.skip(1)[i - 1] == s[i]);
            }
        }
        b + 1
    } else {
        assert(s.skip(0) =~= s);
        0
    }
}

proof fn lemma_trailing(s: Seq<char>) -> (n: int)
    ensures
        0 <= n <= s.len(),
        without_trailing_dashes(s) == s.take(n),
        forall|i: int| n <= i < s.len() ==> #[trigger] s[i] == '-',
        n > 0 ==> s[n - 1] != '-',
    decreases s.len(),
{
    if s.len() > 0 && s.last() == '-' {
        let front = s.drop_last();
        let n = lemma_trailing(front);
        assert(front.take(n) =~= s.take(n));
        assert forall|i: int| n <= i < s.len() implies #[trigger] s[i] == '-' by {
            if i < front.len() {
                assert(front[i] == s[i]);
            }
        }
        n
    } else {
        assert(s.take(s.len() as int) =~= s);
        s.len() as int
    }
}

} // verus!
