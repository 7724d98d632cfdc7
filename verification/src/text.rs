//! Strings as sequences of characters: comparison, conversion and numbers.

use vstd::prelude::*;
use vstd::string::*;
use vstd::utf8::{decode_utf8, encode_utf8, encode_utf8_decode_utf8, valid_utf8};

verus! {

/// `String::push` appends one character.
pub assume_specification[ std::string::String::push ](s: &mut std::string::String, c: char)
    ensures
        final(s)@ == old(s)@.push(c),
;

/// What `String::from_utf8_lossy` makes of bytes that are not UTF-8.
pub uninterp spec fn repaired_utf8(bytes: Seq<u8>) -> Seq<char>;

/// The text in `bytes`: their decoding where they are UTF-8, else what the
/// standard library's repair gives.
pub open spec fn text_of(bytes: Seq<u8>) -> Seq<char> {
    if valid_utf8(bytes) {
        decode_utf8(bytes)
    } else {
        repaired_utf8(bytes)
    }
}

/// Calls `String::from_utf8_lossy`, which keeps valid UTF-8 as it is. How it
/// replaces invalid sequences depends on the bytes alone; it is named
/// [`repaired_utf8`].
#[verifier::external_body]
pub(crate) fn lossy(bytes: &[u8]) -> (s: String)
    ensures
        valid_utf8(bytes@) ==> s@ == decode_utf8(bytes@),
        !valid_utf8(bytes@) ==> s@ == repaired_utf8(bytes@),
{
    String::from_utf8_lossy(bytes).into_owned()
}

/// Text written out as bytes reads back as that text.
pub proof fn lemma_text_roundtrip(s: Seq<char>)
    ensures
        text_of(encode_utf8(s)) == s,
{
    broadcast use vstd::utf8::encode_utf8_valid_utf8, vstd::utf8::encode_utf8_decode_utf8;

}

/// Whether two byte slices hold the same bytes.
pub fn same_bytes(a: &[u8], b: &[u8]) -> (r: bool)
    ensures
        r == (a@ == b@),
{
    if a.len() != b.len() {
        return false;
    }
    let mut i: usize = 0;
    while i < a.len()
        invariant
            i <= a@.len(),
            a@.len() == b@.len(),
            forall|j: int| 0 <= j < i ==> a@[j] == b@[j],
        decreases a@.len() - i,
    {
        if a[i] != b[i] {
            return false;
        }
        i = i + 1;
    }
    assert(a@ =~= b@);
    true
}

/// Whether two strings hold the same text.
pub fn same(a: &str, b: &str) -> (r: bool)
    ensures
        r == (a@ == b@),
{
    proof {
        encode_utf8_decode_utf8(a@);
        encode_utf8_decode_utf8(b@);
    }
    same_bytes(a.as_bytes(), b.as_bytes())
}

/// Whether `needle` stands in `hay` at position `i`.
pub open spec fn occurs_at<T>(hay: Seq<T>, needle: Seq<T>, i: int) -> bool {
    0 <= i && i + needle.len() <= hay.len() && hay.subrange(i, i + needle.len()) == needle
}

/// The first position from `from` on at which `needle` stands in `hay`.
pub open spec fn find_from<T>(hay: Seq<T>, needle: Seq<T>, from: int) -> Option<int>
    decreases hay.len() + 1 - from,
{
    if from < 0 || from + needle.len() > hay.len() {
        None
    } else if occurs_at(hay, needle, from) {
        Some(from)
    } else {
        find_from(hay, needle, from + 1)
    }
}

/// The first position of `needle` in `hay`.
pub fn find_bytes(hay: &[u8], needle: &[u8]) -> (r: Option<usize>)
    ensures
        match r {
            Some(i) => find_from(hay@, needle@, 0) == Some(i as int) && occurs_at(
                hay@,
                needle@,
                i as int,
            ),
            None => find_from(hay@, needle@, 0) is None,
        },
{
    let mut i: usize = 0;
    while hay.len() - i >= needle.len()
        invariant
            i <= hay@.len(),
            find_from(hay@, needle@, 0) == find_from(hay@, needle@, i as int),
        decreases hay@.len() - i,
    {
        let part = &hay[i..i + needle.len()];
        if same_bytes(part, needle) {
            return Some(i);
        }
        assert(needle@.len() == 0 ==> part@ =~= needle@);
        i = i + 1;
    }
    None
}

/// Whether `s` starts with `prefix`.
pub open spec fn starts<T>(s: Seq<T>, prefix: Seq<T>) -> bool {
    s.len() >= prefix.len() && s.take(prefix.len() as int) == prefix
}

/// Whether `s` ends with `suffix`.
pub open spec fn ends<T>(s: Seq<T>, suffix: Seq<T>) -> bool {
    s.len() >= suffix.len() && s.skip(s.len() - suffix.len()) == suffix
}

/// The contents of each of a list of vectors.
pub open spec fn seq_views<T>(parts: Seq<Vec<T>>) -> Seq<Seq<T>> {
    Seq::new(parts.len(), |i: int| parts[i]@)
}

/// The text of each of a list of strings.
pub open spec fn string_views(parts: Seq<String>) -> Seq<Seq<char>> {
    Seq::new(parts.len(), |i: int| parts[i]@)
}

/// The characters of a string.
pub fn chars_of(s: &str) -> (v: Vec<char>)
    ensures
        v@ == s@,
{
    let mut v: Vec<char> = Vec::new();
    for c in it: s.chars()
        invariant
            it.seq() == s@,
            v@ == s@.take(it.index() as int),
    {
        assert(s@.take(it.index() as int + 1) =~= s@.take(it.index() as int).push(c));
        v.push(c);
    }
    assert(s@.take(s@.len() as int) =~= s@);
    v
}

/// The string of some characters.
pub fn string_of(v: &[char]) -> (s: String)
    ensures
        s@ == v@,
{
    let mut s = String::new();
    let mut i: usize = 0;
    while i < v.len()
        invariant
            i <= v@.len(),
            s@ == v@.take(i as int),
        decreases v@.len() - i,
    {
        s.push(v[i]);
        i = i + 1;
        assert(v@.take(i as int) =~= v@.take(i - 1).push(v@[i - 1]));
    }
    assert(v@.take(v@.len() as int) =~= v@);
    s
}

/// A copy of some characters.
pub fn copy_chars(v: &[char]) -> (r: Vec<char>)
    ensures
        r@ == v@,
{
    let mut r: Vec<char> = Vec::new();
    let mut i: usize = 0;
    while i < v.len()
        invariant
            i <= v@.len(),
            r@ == v@.take(i as int),
        decreases v@.len() - i,
    {
        r.push(v[i]);
        i = i + 1;
        assert(v@.take(i as int) =~= v@.take(i - 1).push(v@[i - 1]));
    }
    assert(v@.take(v@.len() as int) =~= v@);
    r
}

/// Whether two character slices hold the same characters.
pub fn same_chars(a: &[char], b: &[char]) -> (r: bool)
    ensures
        r == (a@ == b@),
{
    if a.len() != b.len() {
        return false;
    }
    let mut i: usize = 0;
    while i < a.len()
        invariant
            i <= a@.len(),
            a@.len() == b@.len(),
            forall|j: int| 0 <= j < i ==> a@[j] == b@[j],
        decreases a@.len() - i,
    {
        if a[i] != b[i] {
            return false;
        }
        i = i + 1;
    }
    assert(a@ =~= b@);
    true
}

/// Whether some characters spell a given text.
pub fn spells(a: &[char], b: &str) -> (r: bool)
    ensures
        r == (a@ == b@),
{
    let b = chars_of(b);
    same_chars(a, b.as_slice())
}

/// Whether some characters start with a given text.
pub fn starts_with(s: &[char], prefix: &[char]) -> (r: bool)
    ensures
        r == starts(s@, prefix@),
{
    if s.len() < prefix.len() {
        return false;
    }
    let head = &s[0..prefix.len()];
    assert(head@ =~= s@.take(prefix@.len() as int));
    same_chars(head, prefix)
}

/// The first position of `needle` in `hay`.
pub fn find_chars(hay: &[char], needle: &[char]) -> (r: Option<usize>)
    ensures
        match r {
            Some(i) => find_from(hay@, needle@, 0) == Some(i as int) && occurs_at(
                hay@,
                needle@,
                i as int,
            ),
            None => find_from(hay@, needle@, 0) is None,
        },
{
    let mut i: usize = 0;
    while hay.len() - i >= needle.len()
        invariant
            i <= hay@.len(),
            find_from(hay@, needle@, 0) == find_from(hay@, needle@, i as int),
        decreases hay@.len() - i,
    {
        let part = &hay[i..i + needle.len()];
        if same_chars(part, needle) {
            return Some(i);
        }
        assert(needle@.len() == 0 ==> part@ =~= needle@);
        i = i + 1;
    }
    None
}

/// Whether `needle` stands somewhere in `hay`.
pub open spec fn holds<T>(hay: Seq<T>, needle: Seq<T>) -> bool {
    find_from(hay, needle, 0) is Some
}

/// Whether `needle` stands somewhere in `hay`.
pub fn contains(hay: &[char], needle: &[char]) -> (r: bool)
    ensures
        r == holds(hay@, needle@),
{
    find_chars(hay, needle).is_some()
}

/// The first position of `c` in `s`.
pub fn position_of(s: &[char], c: char) -> (r: Option<usize>)
    ensures
        match r {
            Some(i) => s@.index_of_first(c) == Some(i as int) && i < s@.len() && s@[i as int] == c,
            None => s@.index_of_first(c) is None && !s@.contains(c),
        },
{
    proof {
        s@.index_of_first_ensures(c);
    }
    let mut i: usize = 0;
    while i < s.len()
        invariant
            i <= s@.len(),
            forall|j: int| 0 <= j < i ==> s@[j] != c,
        decreases s@.len() - i,
    {
        if s[i] == c {
            assert(s@.contains(c)) by {
                assert(s@[i as int] == c);
            }
            proof {
                s@.index_of_first_ensures(c);
            }
            return Some(i);
        }
        i = i + 1;
    }
    None
}

/// The parts of `s` between the characters `c`.
pub open spec fn split_on(s: Seq<char>, c: char) -> Seq<Seq<char>>
    decreases s.len(),
{
    match s.index_of_first(c) {
        Some(i) => if 0 <= i < s.len() {
            seq![s.take(i)] + split_on(s.skip(i + 1), c)
        } else {
            arbitrary()
        },
        None => seq![s],
    }
}

/// The parts of `s` between the characters `c`.
pub fn split(s: &[char], c: char) -> (parts: Vec<Vec<char>>)
    ensures
        seq_views(parts@) == split_on(s@, c),
        parts@.len() > 0,
    decreases s@.len(),
{
    let mut parts: Vec<Vec<char>> = Vec::new();
    let mut from: usize = 0;
    assert(s@.skip(0) =~= s@);
    assert(seq_views(parts@) + split_on(s@, c) =~= split_on(s@, c));
    loop
        invariant
            from <= s@.len(),
            seq_views(parts@) + split_on(s@.skip(from as int), c) == split_on(s@, c),
        decreases s@.len() - from,
    {
        let rest = &s[from..s.len()];
        assert(rest@ =~= s@.skip(from as int));
        let ghost done = parts@;
        match position_of(rest, c) {
            Some(i) => {
                parts.push(copy_chars(&rest[0..i]));
                proof {
                    assert(rest@.subrange(0, i as int) =~= rest@.take(i as int));
                    assert(rest@.skip(i + 1) =~= s@.skip(from + i + 1));
                    assert(seq_views(parts@) =~= seq_views(done).push(rest@.take(i as int)));
                    assert(seq_views(done) + split_on(rest@, c) =~= seq_views(parts@) + split_on(
                        rest@.skip(i + 1),
                        c,
                    ));
                }
                from = from + i + 1;
            },
            None => {
                parts.push(copy_chars(rest));
                assert(seq_views(parts@) =~= seq_views(done) + split_on(rest@, c));
                return parts;
            },
        }
    }
}

/// What stands before and after the first `c`.
pub open spec fn cut_at(s: Seq<char>, c: char) -> Option<(Seq<char>, Seq<char>)> {
    match s.index_of_first(c) {
        Some(i) => Some((s.take(i), s.skip(i + 1))),
        None => None,
    }
}

/// What stands before and after the first `c`.
pub fn split_once(s: &[char], c: char) -> (r: Option<(Vec<char>, Vec<char>)>)
    ensures
        match r {
            Some((a, b)) => cut_at(s@, c) == Some((a@, b@)),
            None => cut_at(s@, c) is None,
        },
{
    match position_of(s, c) {
        Some(i) => {
            let a = copy_chars(&s[0..i]);
            let len: usize = s.len();
            let b = copy_chars(&s[i + 1..len]);
            assert(a@ =~= s@.take(i as int));
            assert(b@ =~= s@.skip(i + 1));
            Some((a, b))
        },
        None => None,
    }
}

/// A part of a text that a line feed ends, without the carriage return before it.
pub open spec fn without_return(line: Seq<char>) -> Seq<char> {
    if line.len() > 0 && line.last() == '\r' {
        line.drop_last()
    } else {
        line
    }
}

/// The lines of a text: what line feeds, or carriage return and line feed, end;
/// and what stands behind the last of them, if anything does.
pub open spec fn lines_of(s: Seq<char>) -> Seq<Seq<char>> {
    let parts = split_on(s, '\n');
    let last = parts.last();
    Seq::new((parts.len() - 1) as nat, |i: int| without_return(parts[i])) + (if last.len() == 0 {
        Seq::empty()
    } else {
        seq![last]
    })
}

/// The lines of a text.
pub fn lines(s: &[char]) -> (r: Vec<Vec<char>>)
    ensures
        seq_views(r@) == lines_of(s@),
{
    let parts = split(s, '\n');
    let ghost views = split_on(s@, '\n');
    let n: usize = parts.len();
    let mut r: Vec<Vec<char>> = Vec::new();
    let mut i: usize = 0;
    while i < n - 1
        invariant
            i <= n - 1,
            n == parts@.len(),
            n > 0,
            views == seq_views(parts@),
            seq_views(r@) == Seq::new(i as nat, |j: int| without_return(views[j])),
        decreases n - i,
    {
        let ghost done = r@;
        let line = parts[i].as_slice();
        let len: usize = line.len();
        if len > 0 && line[len - 1] == '\r' {
            let kept = copy_chars(&line[0..len - 1]);
            assert(kept@ =~= without_return(views[i as int]));
            r.push(kept);
        } else {
            r.push(copy_chars(line));
        }
        assert(seq_views(r@) =~= seq_views(done).push(without_return(views[i as int])));
        i = i + 1;
        assert(seq_views(r@) =~= Seq::new(i as nat, |j: int| without_return(views[j])));
    }
    let ghost done = r@;
    if parts[n - 1].len() > 0 {
        r.push(copy_chars(parts[n - 1].as_slice()));
        assert(seq_views(r@) =~= seq_views(done).push(views.last()));
    }
    assert(seq_views(r@) =~= lines_of(s@));
    r
}

/// Unicode's white space.
pub open spec fn is_space(c: char) -> bool {
    let n = c as u32;
    ||| 0x09 <= n <= 0x0d
    ||| n == 0x20
    ||| n == 0x85
    ||| n == 0xa0
    ||| n == 0x1680
    ||| 0x2000 <= n <= 0x200a
    ||| n == 0x2028
    ||| n == 0x2029
    ||| n == 0x202f
    ||| n == 0x205f
    ||| n == 0x3000
}

pub fn is_whitespace(c: char) -> (r: bool)
    ensures
        r == is_space(c),
{
    let n: u32 = c as u32;
    (n >= 0x09 && n <= 0x0d) || n == 0x20 || n == 0x85 || n == 0xa0 || n == 0x1680 || (n >= 0x2000
        && n <= 0x200a) || n == 0x2028 || n == 0x2029 || n == 0x202f || n == 0x205f || n == 0x3000
}

/// A text without the white space it starts with.
pub open spec fn trimmed_start(s: Seq<char>) -> Seq<char>
    decreases s.len(),
{
    if s.len() > 0 && is_space(s[0]) {
        trimmed_start(s.skip(1))
    } else {
        s
    }
}

/// A text without the white space it ends with.
pub open spec fn trimmed_end(s: Seq<char>) -> Seq<char>
    decreases s.len(),
{
    if s.len() > 0 && is_space(s.last()) {
        trimmed_end(s.drop_last())
    } else {
        s
    }
}

/// A text without the white space around it.
pub open spec fn trimmed(s: Seq<char>) -> Seq<char> {
    trimmed_end(trimmed_start(s))
}

/// A text without the white space around it.
pub fn trim(s: &[char]) -> (r: Vec<char>)
    ensures
        r@ == trimmed(s@),
{
    let mut from: usize = 0;
    assert(s@.skip(0) =~= s@);
    while from < s.len() && is_whitespace(s[from])
        invariant
            from <= s@.len(),
            trimmed_start(s@.skip(from as int)) == trimmed_start(s@),
        decreases s@.len() - from,
    {
        assert(s@.skip(from as int).skip(1) =~= s@.skip(from + 1));
        from = from + 1;
    }
    let mut to: usize = s.len();
    assert(s@.subrange(from as int, to as int) =~= s@.skip(from as int));
    while to > from && is_whitespace(s[to - 1])
        invariant
            from <= to <= s@.len(),
            trimmed_end(s@.subrange(from as int, to as int)) == trimmed(s@),
        decreases to,
    {
        assert(s@.subrange(from as int, to as int).drop_last() =~= s@.subrange(
            from as int,
            to - 1,
        ));
        to = to - 1;
    }
    copy_chars(&s[from..to])
}

/// What follows `prefix` in a text that starts with it.
pub fn strip_prefix(s: &[char], prefix: &str) -> (r: Option<Vec<char>>)
    ensures
        match r {
            Some(rest) => starts(s@, prefix@) && rest@ == s@.skip(prefix@.len() as int),
            None => !starts(s@, prefix@),
        },
{
    let head = chars_of(prefix);
    if starts_with(s, head.as_slice()) {
        let rest = copy_chars(&s[head.len()..s.len()]);
        assert(rest@ =~= s@.skip(prefix@.len() as int));
        Some(rest)
    } else {
        None
    }
}

// --- Numbers ---

pub open spec fn is_digit(c: char) -> bool {
    '0' <= c <= '9'
}

pub open spec fn digit_value(c: char) -> nat {
    (c as u32 - 48) as nat
}

pub open spec fn digit_char(d: nat) -> char {
    (48 + d) as char
}

/// The decimal digits of a number.
pub open spec fn decimal(n: nat) -> Seq<char>
    decreases n,
{
    if n < 10 {
        seq![digit_char(n)]
    } else {
        decimal(n / 10).push(digit_char(n % 10))
    }
}

/// Appends a number's decimal digits.
pub fn push_decimal(out: &mut String, n: u64)
    ensures
        final(out)@ == old(out)@ + decimal(n as nat),
    decreases n,
{
    if n >= 10 {
        push_decimal(out, n / 10);
    }
    let digit: char = (48 + (n % 10) as u8) as char;
    out.push(digit);
    assert(out@ =~= old(out)@ + decimal(n as nat));
}

/// A number in decimal.
pub fn decimal_string(n: u64) -> (s: String)
    ensures
        s@ == decimal(n as nat),
{
    let mut s = String::new();
    push_decimal(&mut s, n);
    assert(s@ =~= decimal(n as nat));
    s
}

/// The number that decimal digits stand for, most significant first.
pub open spec fn digits_value(s: Seq<char>) -> nat
    decreases s.len(),
{
    if s.len() == 0 {
        0
    } else {
        10 * digits_value(s.drop_last()) + digit_value(s.last())
    }
}

pub open spec fn all_digits(s: Seq<char>) -> bool {
    forall|i: int| 0 <= i < s.len() ==> is_digit(#[trigger] s[i])
}

/// The number that decimal digits spell, where there is at least one digit and
/// the number is at most `max`.
pub open spec fn parsed_digits(s: Seq<char>, max: nat) -> Option<nat> {
    if s.len() > 0 && all_digits(s) && digits_value(s) <= max {
        Some(digits_value(s))
    } else {
        None
    }
}

/// The unsigned number that a text spells, as the standard library reads it: a
/// plus sign may stand in front.
pub open spec fn parsed_unsigned(s: Seq<char>, max: nat) -> Option<nat> {
    if s.len() > 0 && s[0] == '+' {
        parsed_digits(s.skip(1), max)
    } else {
        parsed_digits(s, max)
    }
}

/// The signed 64-bit number that a text spells.
pub open spec fn parsed_signed(s: Seq<char>) -> Option<int> {
    if s.len() > 0 && s[0] == '-' {
        match parsed_digits(s.skip(1), 0x8000_0000_0000_0000) {
            Some(n) => Some(-(n as int)),
            None => None,
        }
    } else {
        match parsed_unsigned(s, 0x7fff_ffff_ffff_ffff) {
            Some(n) => Some(n as int),
            None => None,
        }
    }
}

proof fn lemma_digits_value_grows(s: Seq<char>, i: int)
    requires
        0 <= i <= s.len(),
    ensures
        digits_value(s.take(i)) <= digits_value(s),
    decreases s.len() - i,
{
    if i < s.len() {
        lemma_digits_value_grows(s, i + 1);
        assert(s.take(i + 1).drop_last() =~= s.take(i));
    } else {
        assert(s.take(i) =~= s);
    }
}

fn parse_digits(s: &[char], max: u64) -> (r: Option<u64>)
    ensures
        match r {
            Some(n) => parsed_digits(s@, max as nat) == Some(n as nat) && n <= max,
            None => parsed_digits(s@, max as nat) is None,
        },
{
    if s.len() == 0 {
        return None;
    }
    let mut n: u64 = 0;
    let mut i: usize = 0;
    while i < s.len()
        invariant
            i <= s@.len(),
            s@.len() > 0,
            n == digits_value(s@.take(i as int)),
            n <= max,
            forall|j: int| 0 <= j < i ==> is_digit(#[trigger] s@[j]),
        decreases s@.len() - i,
    {
        let c: char = s[i];
        if c < '0' || c > '9' {
            assert(!is_digit(s@[i as int]));
            return None;
        }
        let d: u64 = (c as u32 - 48) as u64;
        proof {
            assert(s@.take(i + 1).drop_last() =~= s@.take(i as int));
            lemma_digits_value_grows(s@, i + 1);
        }
        if n > max / 10 {
            return None;
        }
        if d > max - 10 * n {
            return None;
        }
        n = 10 * n + d;
        i = i + 1;
    }
    assert(s@.take(i as int) =~= s@);
    Some(n)
}

/// The unsigned number, at most `max`, that a text spells.
pub fn parse_unsigned(s: &[char], max: u64) -> (r: Option<u64>)
    ensures
        match r {
            Some(n) => parsed_unsigned(s@, max as nat) == Some(n as nat) && n <= max,
            None => parsed_unsigned(s@, max as nat) is None,
        },
{
    if s.len() > 0 && s[0] == '+' {
        let rest = &s[1..s.len()];
        assert(rest@ =~= s@.skip(1));
        parse_digits(rest, max)
    } else {
        parse_digits(s, max)
    }
}

/// The signed 64-bit number that a text spells.
pub fn parse_signed(s: &[char]) -> (r: Option<i64>)
    ensures
        match r {
            Some(n) => parsed_signed(s@) == Some(n as int),
            None => parsed_signed(s@) is None,
        },
{
    if s.len() > 0 && s[0] == '-' {
        let rest = &s[1..s.len()];
        assert(rest@ =~= s@.skip(1));
        match parse_digits(rest, 0x8000_0000_0000_0000) {
            Some(n) => if n == 0x8000_0000_0000_0000 {
                Some(i64::MIN)
            } else {
                Some(-(n as i64))
            },
            None => None,
        }
    } else {
        match parse_unsigned(s, 0x7fff_ffff_ffff_ffff) {
            Some(n) => Some(n as i64),
            None => None,
        }
    }
}

proof fn lemma_digit_char(d: nat)
    requires
        d < 10,
    ensures
        is_digit(digit_char(d)),
        digit_value(digit_char(d)) == d,
{
}

/// A number written in decimal is read back as itself.
pub proof fn law_decimal_reads_back(n: nat, max: nat)
    requires
        n <= max,
    ensures
        parsed_unsigned(decimal(n), max) == Some(n),
{
    lemma_decimal(n);
    assert(decimal(n)[0] != '+') by {
        assert(is_digit(decimal(n)[0]));
    }
}

pub proof fn lemma_decimal(n: nat)
    ensures
        decimal(n).len() > 0,
        all_digits(decimal(n)),
        digits_value(decimal(n)) == n,
    decreases n,
{
    if n < 10 {
        lemma_digit_char(n);
        assert(decimal(n).drop_last() =~= Seq::empty());
        assert(digits_value(Seq::<char>::empty()) == 0);
    } else {
        lemma_decimal(n / 10);
        lemma_digit_char(n % 10);
        assert(decimal(n).drop_last() =~= decimal(n / 10));
    }
}

/// The pieces of a text put together with `sep` between them.
pub open spec fn joined(parts: Seq<Seq<char>>, sep: Seq<char>) -> Seq<char>
    decreases parts.len(),
{
    if parts.len() == 0 {
        Seq::empty()
    } else if parts.len() == 1 {
        parts[0]
    } else {
        joined(parts.drop_last(), sep) + sep + parts.last()
    }
}

/// Puts pieces of text together with `sep` between them.
pub fn join(parts: &[String], sep: &str) -> (s: String)
    ensures
        s@ == joined(string_views(parts@), sep@),
{
    let mut s = String::new();
    let mut i: usize = 0;
    assert(string_views(parts@).take(0) =~= Seq::empty());
    while i < parts.len()
        invariant
            i <= parts@.len(),
            s@ == joined(string_views(parts@).take(i as int), sep@),
        decreases parts@.len() - i,
    {
        let ghost views = string_views(parts@);
        if i > 0 {
            s.append(sep);
        }
        s.append(parts[i].as_str());
        proof {
            assert(views.take(i + 1).drop_last() =~= views.take(i as int));
            assert(s@ =~= joined(views.take(i + 1), sep@));
        }
        i = i + 1;
    }
    assert(string_views(parts@).take(i as int) =~= string_views(parts@));
    s
}

// --- What searching, cutting and counting come to ---

/// The first place at which a text stands: it stands there, and nowhere before. There
/// is none where it stands nowhere.
pub proof fn law_searching_finds_the_first_place<T>(hay: Seq<T>, needle: Seq<T>)
    ensures
        match find_from(hay, needle, 0) {
            Some(p) => 0 <= p <= hay.len() - needle.len() && hay.subrange(p, p + needle.len())
                == needle && forall|i: int| 0 <= i < p ==> #[trigger] hay.subrange(
                i,
                i + needle.len(),
            ) != needle,
            None => forall|i: int|
                0 <= i <= hay.len() - needle.len() ==> #[trigger] hay.subrange(i, i + needle.len())
                    != needle,
        },
        holds(hay, needle) <==> exists|i: int|
            0 <= i <= hay.len() - needle.len() && #[trigger] hay.subrange(i, i + needle.len())
                == needle,
{
    lemma_find_from(hay, needle, 0);
}

proof fn lemma_find_from<T>(hay: Seq<T>, needle: Seq<T>, from: int)
    requires
        0 <= from,
    ensures
        match find_from(hay, needle, from) {
            Some(p) => from <= p <= hay.len() - needle.len() && hay.subrange(p, p + needle.len())
                == needle && forall|i: int| from <= i < p ==> #[trigger] hay.subrange(
                i,
                i + needle.len(),
            ) != needle,
            None => forall|i: int|
                from <= i <= hay.len() - needle.len() ==> #[trigger] hay.subrange(
                    i,
                    i + needle.len(),
                ) != needle,
        },
    decreases hay.len() + 1 - from,
{
    if from + needle.len() <= hay.len() && !occurs_at(hay, needle, from) {
        lemma_find_from(hay, needle, from + 1);
        assert(hay.subrange(from, from + needle.len()) != needle);
    }
}

/// The parts of a text, put together again with the separator between them, are the
/// text; and no part holds the separator.
pub proof fn law_parts_make_up_the_text(s: Seq<char>, c: char)
    ensures
        split_on(s, c).len() > 0,
        joined_by(split_on(s, c), c) == s,
        forall|i: int| 0 <= i < split_on(s, c).len() ==> !(#[trigger] split_on(s, c)[i]).contains(c),
    decreases s.len(),
{
    s.index_of_first_ensures(c);
    match s.index_of_first(c) {
        Some(i) => {
            let rest = s.skip(i + 1);
            law_parts_make_up_the_text(rest, c);
            let parts = split_on(s, c);
            assert(parts.skip(1) =~= split_on(rest, c));
            assert(s =~= s.take(i).push(c) + rest);
            assert forall|k: int| 0 <= k < parts.len() implies !(#[trigger] parts[k]).contains(
                c,
            ) by {
                if k > 0 {
                    assert(parts[k] == split_on(rest, c)[k - 1]);
                }
            }
        },
        None => {},
    }
}

/// Parts with a character between them.
pub open spec fn joined_by(parts: Seq<Seq<char>>, c: char) -> Seq<char>
    decreases parts.len(),
{
    if parts.len() == 0 {
        Seq::empty()
    } else if parts.len() == 1 {
        parts[0]
    } else {
        parts[0].push(c) + joined_by(parts.skip(1), c)
    }
}

/// A trimmed text is what is left of a text once white space is taken off both of
/// its ends: nothing but white space was taken off, and none is left there.
pub proof fn law_trimming_takes_white_space_off(s: Seq<char>)
    ensures
        trimmed(s).len() > 0 ==> !is_space(trimmed(s)[0]) && !is_space(trimmed(s).last()),
        exists|a: int, b: int|
            #![trigger s.subrange(a, b)]
            0 <= a <= b <= s.len() && trimmed(s) == s.subrange(a, b) && (forall|i: int|
                0 <= i < a || b <= i < s.len() ==> is_space(#[trigger] s[i])),
        forall|c: char|
            c == ' ' || c == '\t' || c == '\n' || c == '\r' ==> #[trigger] is_space(c),
        forall|c: char| '!' <= c <= '~' ==> !#[trigger] is_space(c),
{
    let a = lemma_trimmed_start(s);
    let front = s.skip(a);
    let n = lemma_trimmed_end(front);
    assert(trimmed(s) =~= s.subrange(a, a + n));
    assert forall|i: int| 0 <= i < a || a + n <= i < s.len() implies is_space(
        #[trigger] s[i],
    ) by {
        if i >= a + n {
            assert(front[i - a] == s[i]);
        }
    }
}

proof fn lemma_trimmed_start(s: Seq<char>) -> (a: int)
    ensures
        0 <= a <= s.len(),
        trimmed_start(s) == s.skip(a),
        forall|i: int| 0 <= i < a ==> is_space(#[trigger] s[i]),
        a < s.len() ==> !is_space(s[a]),
    decreases s.len(),
{
    if s.len() > 0 && is_space(s[0]) {
        let b = lemma_trimmed_start(s.skip(1));
        assert(s.skip(1).skip(b) =~= s.skip(b + 1));
        assert forall|i: int| 0 <= i < b + 1 implies is_space(#[trigger] s[i]) by {
            if i > 0 {
                assert(s.skip(1)[i - 1] == s[i]);
            }
        }
        b + 1
    } else {
        assert(s.skip(0) =~= s);
        0
    }
}

proof fn lemma_trimmed_end(s: Seq<char>) -> (n: int)
    ensures
        0 <= n <= s.len(),
        trimmed_end(s) == s.take(n),
        forall|i: int| n <= i < s.len() ==> is_space(#[trigger] s[i]),
        n > 0 ==> !is_space(s[n - 1]),
    decreases s.len(),
{
    if s.len() > 0 && is_space(s.last()) {
        let front = s.drop_last();
        let n = lemma_trimmed_end(front);
        assert(front.take(n) =~= s.take(n));
        assert forall|i: int| n <= i < s.len() implies is_space(#[trigger] s[i]) by {
            if i < front.len() {
                assert(front[i] == s[i]);
            }
        }
        n
    } else {
        assert(s.take(s.len() as int) =~= s);
        s.len() as int
    }
}

/// Decimal digits count in tens: a number below ten is one of the digits from `0` to
/// `9`, and another digit behind a number multiplies it by ten and adds itself.
pub proof fn law_decimal_counts_in_tens(n: nat, d: nat)
    requires
        d < 10,
    ensures
        decimal(d) == seq![('0' as u32 + d) as char],
        n > 0 ==> decimal(10 * n + d) == decimal(n).push(('0' as u32 + d) as char),
        digits_value(decimal(d)) == d,
        digits_value(decimal(n).push(('0' as u32 + d) as char)) == 10 * n + d,
{
    lemma_decimal(n);
    lemma_decimal(d);
    assert((10 * n + d) / 10 == n);
    assert((10 * n + d) % 10 == d);
    let grown = decimal(n).push(('0' as u32 + d) as char);
    assert(grown.drop_last() =~= decimal(n));
}

/// A number is read out of its digits alone: a text without digits, or with anything
/// else in it but a sign in front, is none; a minus sign turns it round, and nothing
/// is read that does not fit.
pub proof fn law_numbers_are_read_by_their_digits(digits: Seq<char>, max: nat)
    ensures
        parsed_unsigned(digits, max) matches Some(n) ==> n <= max,
        digits.len() > 0 && (forall|i: int| 0 <= i < digits.len() ==> '0' <= #[trigger] digits[i]
            <= '9') && digits_value(digits) <= max ==> parsed_unsigned(digits, max) == Some(
            digits_value(digits),
        ) && parsed_unsigned(seq!['+'] + digits, max) == Some(digits_value(digits)),
        digits.len() > 0 && (forall|i: int| 0 <= i < digits.len() ==> '0' <= #[trigger] digits[i]
            <= '9') && digits_value(digits) <= 0x7fff_ffff_ffff_ffff ==> parsed_signed(digits)
            == Some(digits_value(digits) as int) && parsed_signed(seq!['-'] + digits) == Some(
            -(digits_value(digits) as int),
        ),
        digits.len() == 0 ==> parsed_unsigned(digits, max) is None && parsed_signed(digits) is None,
        forall|i: int|
            0 < i < digits.len() && !('0' <= #[trigger] digits[i] <= '9') ==> parsed_unsigned(
                digits,
                max,
            ) is None && parsed_signed(digits) is None,
{
    assert((seq!['+'] + digits).skip(1) =~= digits);
    assert((seq!['-'] + digits).skip(1) =~= digits);
    assert forall|i: int| 0 < i < digits.len() && !('0' <= #[trigger] digits[i] <= '9') implies
        parsed_unsigned(digits, max) is None && parsed_signed(digits) is None by {
        assert(digits.skip(1)[i - 1] == digits[i]);
        assert(!is_digit(digits[i]));
    }
}

// --- Arguments of a program ---

/// Whether `flag` stands at place `i` of a list of arguments; the one at place `input`
/// is the name of an input, whatever it is.
pub open spec fn option_at(args: Seq<Seq<char>>, input: int, flag: Seq<char>, i: int) -> bool {
    0 <= i < args.len() && i != input && args[i] == flag
}

/// How often `flag` stands among the first `n` arguments.
pub open spec fn times_given(
    args: Seq<Seq<char>>,
    input: int,
    flag: Seq<char>,
    n: nat,
) -> nat
    decreases n,
{
    if n == 0 {
        0
    } else {
        times_given(args, input, flag, (n - 1) as nat) + if option_at(args, input, flag, n - 1) {
            1nat
        } else {
            0
        }
    }
}

/// Whether a list of arguments gives a program an option once, with this value.
pub open spec fn gives_option(
    args: Seq<Seq<char>>,
    input: int,
    flag: Seq<char>,
    value: Seq<char>,
) -> bool {
    &&& times_given(args, input, flag, args.len()) == 1
    &&& exists|i: int|
        #[trigger] option_at(args, input, flag, i) && i + 1 < args.len() && args[i + 1] == value
}

/// Whether a list of arguments holds a text.
pub open spec fn has_argument(args: Seq<Seq<char>>, text: Seq<char>) -> bool {
    exists|i: int| 0 <= i < args.len() && #[trigger] args[i] == text
}

// --- Labels and values in a text ---

/// Whether a value stands in a text directly behind a label, and no digit behind the
/// value.
pub open spec fn shows(text: Seq<char>, label: Seq<char>, value: Seq<char>) -> bool {
    exists|a: Seq<char>, b: Seq<char>|
        #![trigger a + label + value + b]
        text == a + label + value + b && (b.len() == 0 || !('0' <= b[0] <= '9'))
}

/// Texts one after the other.
pub open spec fn flat(pieces: Seq<Seq<char>>) -> Seq<char>
    decreases pieces.len(),
{
    if pieces.len() == 0 {
        Seq::empty()
    } else {
        flat(pieces.drop_last()) + pieces.last()
    }
}

pub proof fn lemma_flat_push(pieces: Seq<Seq<char>>, piece: Seq<char>)
    ensures
        flat(pieces.push(piece)) == flat(pieces) + piece,
{
    assert(pieces.push(piece).drop_last() =~= pieces);
}

proof fn lemma_flat_cut(pieces: Seq<Seq<char>>, k: int)
    requires
        0 <= k <= pieces.len(),
    ensures
        flat(pieces) == flat(pieces.take(k)) + flat(pieces.skip(k)),
    decreases pieces.len(),
{
    if k == pieces.len() {
        assert(pieces.take(k) =~= pieces);
        assert(pieces.skip(k) =~= Seq::empty());
        assert(flat(pieces) + Seq::<char>::empty() =~= flat(pieces));
    } else {
        let front = pieces.drop_last();
        lemma_flat_cut(front, k);
        assert(front.take(k) =~= pieces.take(k));
        assert(pieces.skip(k).drop_last() =~= front.skip(k));
        assert(pieces.skip(k).last() == pieces.last());
        assert(flat(pieces.take(k)) + flat(front.skip(k)) + pieces.last() =~= flat(pieces.take(k))
            + (flat(front.skip(k)) + pieces.last()));
    }
}

/// A label and the value behind it show in the text that they are part of.
pub proof fn lemma_shown(pieces: Seq<Seq<char>>, k: int)
    requires
        0 <= k < pieces.len() - 1,
        k + 2 < pieces.len() ==> pieces[k + 2].len() > 0 && !('0' <= pieces[k + 2][0] <= '9'),
    ensures
        shows(flat(pieces), pieces[k], pieces[k + 1]),
{
    let a = flat(pieces.take(k));
    let b = flat(pieces.skip(k + 2));
    lemma_flat_cut(pieces, k);
    let rest = pieces.skip(k);
    lemma_flat_cut(rest, 2);
    assert(rest.skip(2) =~= pieces.skip(k + 2));
    let two = rest.take(2);
    assert(two.drop_last().drop_last() =~= Seq::empty());
    assert(two.last() == pieces[k + 1] && two.drop_last().last() == pieces[k]);
    reveal_with_fuel(flat, 3);
    assert(flat(two) =~= pieces[k] + pieces[k + 1]);
    assert(flat(pieces) =~= a + pieces[k] + pieces[k + 1] + b);
    if k + 2 < pieces.len() {
        let end = pieces.skip(k + 2);
        lemma_flat_cut(end, 1);
        let one = end.take(1);
        assert(one.drop_last() =~= Seq::empty());
        assert(one.last() == pieces[k + 2]);
        assert(flat(one) =~= pieces[k + 2]);
        assert(b =~= pieces[k + 2] + flat(end.skip(1)));
    }
}

/// Parts are joined with one separator between each two and none around them.
pub proof fn law_separators_stand_between_parts(
    parts: Seq<Seq<char>>,
    part: Seq<char>,
    sep: Seq<char>,
)
    ensures
        joined(Seq::empty(), sep) == Seq::<char>::empty(),
        joined(seq![part], sep) == part,
        parts.len() > 0 ==> joined(parts.push(part), sep) == joined(parts, sep) + sep + part,
{
    assert(parts.push(part).drop_last() =~= parts);
}

/// A line ends with a line feed, and a carriage return before it does not count. What
/// follows the last line feed is a line where it is not empty.
pub proof fn law_lines_end_with_line_feeds(line: Seq<char>, rest: Seq<char>)
    requires
        !line.contains('\n'),
    ensures
        ({
            let kept = if line.len() > 0 && line.last() == '\r' {
                line.drop_last()
            } else {
                line
            };
            &&& lines_of(line.push('\n') + rest) == seq![kept] + lines_of(rest)
            &&& line.len() > 0 ==> lines_of(line) == seq![line]
            &&& lines_of(Seq::empty()) == Seq::<Seq<char>>::empty()
        }),
{
    let s = line.push('\n') + rest;
    assert(s[line.len() as int] == '\n');
    assert(s.contains('\n'));
    s.index_of_first_ensures('\n');
    let i = s.index_of_first('\n')->0;
    if i < line.len() {
        assert(line[i] == s[i]);
        assert(line.contains('\n'));
    }
    assert(i == line.len());
    assert(s.take(i) =~= line);
    assert(s.skip(i + 1) =~= rest);
    let parts = split_on(s, '\n');
    let more = split_on(rest, '\n');
    law_parts_make_up_the_text(rest, '\n');
    assert(parts =~= seq![line] + more);
    assert(parts.last() == more.last());
    assert(without_return(line) =~= if line.len() > 0 && line.last() == '\r' {
        line.drop_last()
    } else {
        line
    });
    assert(lines_of(s) =~= seq![without_return(line)] + lines_of(rest));
    line.index_of_first_ensures('\n');
    assert(split_on(line, '\n') =~= seq![line]);
    assert(line.len() > 0 ==> lines_of(line) =~= seq![line]);
    let none = Seq::<char>::empty();
    none.index_of_first_ensures('\n');
    assert(split_on(none, '\n') =~= seq![none]);
    assert(lines_of(none) =~= Seq::empty());
}

/// White space is what Unicode calls so: the space, the tab, the line feed and their
/// kind, and no letter, digit or sign.
pub proof fn law_what_white_space_is(c: char)
    ensures
        (c as u32) < 0x80 ==> (is_space(c) <==> c == ' ' || '\t' <= c <= '\r'),
        0x80 <= (c as u32) < 0x1680 ==> (is_space(c) <==> c as u32 == 0x85 || c as u32 == 0xa0),
        (c as u32) >= 0x1680 ==> (is_space(c) <==> c as u32 == 0x1680 || 0x2000 <= c as u32 <= 0x200a
            || c as u32 == 0x2028 || c as u32 == 0x2029 || c as u32 == 0x202f || c as u32 == 0x205f
            || c as u32 == 0x3000),
{
}

/// Signed numbers reach from the least to the greatest that 64 bits hold.
pub proof fn law_signed_numbers_have_their_range(digits: Seq<char>)
    requires
        digits.len() > 0,
        all_digits(digits),
    ensures
        digits_value(digits) <= 0x7fff_ffff_ffff_ffff ==> parsed_signed(digits) == Some(
            digits_value(digits) as int,
        ),
        digits_value(digits) > 0x7fff_ffff_ffff_ffff ==> parsed_signed(digits) is None,
        digits_value(digits) <= 0x8000_0000_0000_0000 ==> parsed_signed(seq!['-'] + digits) == Some(
            -(digits_value(digits) as int),
        ),
        digits_value(digits) > 0x8000_0000_0000_0000 ==> parsed_signed(
            seq!['-'] + digits,
        ) is None,
{
    assert((seq!['-'] + digits).skip(1) =~= digits);
    assert(is_digit(digits[0]));
}

/// A text starts with what stands in front of the rest of it, and ends with what stands
/// behind; it neither starts nor ends with anything longer.
pub proof fn law_texts_start_and_end_with_their_parts<T>(a: Seq<T>, b: Seq<T>, other: Seq<T>)
    ensures
        starts(a + b, a),
        ends(a + b, b),
        starts(a, other) ==> a == other + a.skip(other.len() as int),
        ends(a, other) ==> a == a.take(a.len() - other.len()) + other,
        other.len() > a.len() ==> !starts(a, other) && !ends(a, other),
{
    assert((a + b).take(a.len() as int) =~= a);
    assert((a + b).skip((a + b).len() - b.len()) =~= b);
    if starts(a, other) {
        assert(a =~= a.take(other.len() as int) + a.skip(other.len() as int));
    }
    if ends(a, other) {
        assert(a =~= a.take(a.len() - other.len()) + a.skip(a.len() - other.len()));
    }
}

/// A text is cut at the first of a character, which goes to neither part; without it the
/// text is not cut.
pub proof fn law_a_text_is_cut_at_the_first(a: Seq<char>, c: char, b: Seq<char>)
    requires
        !a.contains(c),
    ensures
        cut_at(a.push(c) + b, c) == Some((a, b)),
        cut_at(a, c) is None,
{
    let s = a.push(c) + b;
    assert(s[a.len() as int] == c);
    assert(s.contains(c));
    s.index_of_first_ensures(c);
    a.index_of_first_ensures(c);
    let i = s.index_of_first(c)->0;
    if i < a.len() {
        assert(a[i] == s[i]);
        assert(a.contains(c));
    }
    assert(i == a.len());
    assert(s.take(i) =~= a);
    assert(s.skip(i + 1) =~= b);
}

} // verus!
