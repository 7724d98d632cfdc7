//! Setting an accessory up: its setup code, the names derived from the camera's
//! name, and whether its shape has changed since it was last announced.

use rand::Rng;
use vstd::prelude::*;
use vstd::string::*;
use crate::text::{chars_of, digit_char, digit_value, is_digit, same, string_of};

verus! {

/// The setup codes that HomeKit does not take.
pub open spec fn too_easy(digits: Seq<u8>) -> bool {
    ||| digits == seq![1u8, 2u8, 3u8, 4u8, 5u8, 6u8, 7u8, 8u8]
    ||| digits == seq![8u8, 7u8, 6u8, 5u8, 4u8, 3u8, 2u8, 1u8]
    ||| forall|i: int, j: int| 0 <= i < j < digits.len() ==> digits[i] == digits[j]
}

/// Whether these are the digits of a setup code.
pub open spec fn valid_pin(digits: Seq<u8>) -> bool {
    &&& digits.len() == 8
    &&& forall|i: int| 0 <= i < 8 ==> digits[i] <= 9
    &&& !too_easy(digits)
}

/// Why a text or a row of digits is no setup code.
#[derive(Clone, Copy, Debug, PartialEq, Eq, Structural)]
pub enum PinError {
    /// It does not hold exactly eight digits.
    NotEightDigits,
    /// HomeKit does not take it.
    TooEasy,
    /// A digit is larger than nine.
    InvalidDigit,
}

/// What is wrong with a text given as a setup code.
pub open spec fn pin_error_text(e: PinError, pin: Seq<char>) -> Seq<char> {
    match e {
        PinError::NotEightDigits => "PIN must contain exactly 8 digits: "@ + pin,
        PinError::TooEasy => "PIN is too easy: "@ + pin,
        PinError::InvalidDigit => "PIN holds an invalid digit: "@ + pin,
    }
}

impl PinError {
    /// The error in words, for the text that was given.
    pub fn message(&self, pin: &str) -> (s: String)
        ensures
            s@ == pin_error_text(*self, pin@),
            *self is NotEightDigits ==> s@ == "PIN must contain exactly 8 digits: "@ + pin@,
            *self is TooEasy ==> s@ == "PIN is too easy: "@ + pin@,
            *self is InvalidDigit ==> s@ == "PIN holds an invalid digit: "@ + pin@,
    {
        let mut s = match *self {
            PinError::NotEightDigits => String::from_str("PIN must contain exactly 8 digits: "),
            PinError::TooEasy => String::from_str("PIN is too easy: "),
            PinError::InvalidDigit => String::from_str("PIN holds an invalid digit: "),
        };
        s.append(pin);
        s
    }
}

/// A setup code.
#[derive(Clone, Copy, Debug, PartialEq, Eq)]
pub struct Pin {
    digits: [u8; 8],
}

impl View for Pin {
    type V = Seq<u8>;

    closed spec fn view(&self) -> Seq<u8> {
        self.digits@
    }
}

fn is_too_easy(digits: &[u8; 8]) -> (r: bool)
    ensures
        r == too_easy(digits@),
{
    let up: [u8; 8] = [1, 2, 3, 4, 5, 6, 7, 8];
    let down: [u8; 8] = [8, 7, 6, 5, 4, 3, 2, 1];
    let mut ascending: bool = true;
    let mut descending: bool = true;
    let mut equal: bool = true;
    let mut i: usize = 0;
    while i < 8
        invariant
            i <= 8,
            ascending == (forall|j: int| 0 <= j < i ==> digits@[j] == up@[j]),
            descending == (forall|j: int| 0 <= j < i ==> digits@[j] == down@[j]),
            equal == (forall|j: int, k: int| 0 <= j < k < i ==> digits@[j] == digits@[k]),
        decreases 8 - i,
    {
        if digits[i] != up[i] {
            ascending = false;
        }
        if digits[i] != down[i] {
            descending = false;
        }
        if digits[i] != digits[0] {
            equal = false;
            assert(digits@[0] != digits@[i as int]);
        }
        i = i + 1;
    }
    assert(up@ =~= seq![1u8, 2u8, 3u8, 4u8, 5u8, 6u8, 7u8, 8u8]);
    assert(down@ =~= seq![8u8, 7u8, 6u8, 5u8, 4u8, 3u8, 2u8, 1u8]);
    assert(ascending == (digits@ =~= up@));
    assert(descending == (digits@ =~= down@));
    ascending || descending || equal
}

impl Pin {
    /// Whether the digits are those of a setup code.
    pub open spec fn wf(&self) -> bool {
        valid_pin(self@)
    }

    /// The setup code with these digits.
    pub fn new(digits: [u8; 8]) -> (r: Result<Self, PinError>)
        ensures
            match r {
                Ok(pin) => pin@ == digits@ && valid_pin(digits@),
                Err(PinError::TooEasy) => too_easy(digits@),
                Err(PinError::InvalidDigit) => !too_easy(digits@) && exists|i: int|
                    0 <= i < 8 && digits@[i] > 9,
                Err(PinError::NotEightDigits) => false,
            },
    {
        if is_too_easy(&digits) {
            return Err(PinError::TooEasy);
        }
        let mut i: usize = 0;
        while i < 8
            invariant
                i <= 8,
                !too_easy(digits@),
                forall|j: int| 0 <= j < i ==> digits@[j] <= 9,
            decreases 8 - i,
        {
            if digits[i] > 9 {
                assert(digits@[i as int] > 9);
                return Err(PinError::InvalidDigit);
            }
            i = i + 1;
        }
        Ok(Pin { digits })
    }
}

/// The digits in a text.
pub open spec fn digits_in(s: Seq<char>) -> Seq<u8>
    decreases s.len(),
{
    if s.len() == 0 {
        Seq::empty()
    } else if is_digit(s.last()) {
        digits_in(s.drop_last()).push(digit_value(s.last()) as u8)
    } else {
        digits_in(s.drop_last())
    }
}

/// What a text says as a setup code: the digits in it, whatever stands between
/// them.
pub open spec fn pin_in(s: Seq<char>) -> Result<Seq<u8>, PinError> {
    if digits_in(s).len() != 8 {
        Err(PinError::NotEightDigits)
    } else if too_easy(digits_in(s)) {
        Err(PinError::TooEasy)
    } else {
        Ok(digits_in(s))
    }
}

/// The setup code in a text.
pub fn parse_pin(pin: &str) -> (r: Result<Pin, PinError>)
    ensures
        match r {
            Ok(p) => pin_in(pin@) == Ok::<Seq<u8>, PinError>(p@) && p.wf(),
            Err(e) => pin_in(pin@) == Err::<Seq<u8>, PinError>(e),
        },
{
    let chars = chars_of(pin);
    let mut digits: Vec<u8> = Vec::new();
    let mut i: usize = 0;
    assert(chars@.take(0) =~= Seq::empty());
    while i < chars.len()
        invariant
            i <= chars@.len(),
            digits@ == digits_in(chars@.take(i as int)),
            forall|j: int| 0 <= j < digits@.len() ==> digits@[j] <= 9,
        decreases chars@.len() - i,
    {
        let c = chars[i];
        proof {
            assert(chars@.take(i + 1).drop_last() =~= chars@.take(i as int));
            assert(chars@.take(i + 1).last() == c);
        }
        if '0' <= c && c <= '9' {
            digits.push((c as u32 - 48) as u8);
        }
        i = i + 1;
    }
    assert(chars@.take(i as int) =~= chars@);
    if digits.len() != 8 {
        return Err(PinError::NotEightDigits);
    }
    let row: [u8; 8] = [
        digits[0],
        digits[1],
        digits[2],
        digits[3],
        digits[4],
        digits[5],
        digits[6],
        digits[7],
    ];
    assert(row@ =~= digits@);
    Pin::new(row)
}

/// How a setup code is shown: four digits, a dash, four digits.
pub open spec fn setup_code(digits: Seq<u8>) -> Seq<char> {
    Seq::new(4, |i: int| digit_char(digits[i] as nat)) + seq!['-'] + Seq::new(
        4,
        |i: int| digit_char(digits[i + 4] as nat),
    )
}

/// How a setup code is shown.
pub fn format_setup_code(pin: &Pin) -> (s: String)
    requires
        pin.wf(),
    ensures
        s@ == setup_code(pin@),
{
    let mut s = String::new();
    let mut i: usize = 0;
    while i < 8
        invariant
            i <= 8,
            pin.wf(),
            s@ == setup_code(pin@).take(
                if i <= 4 {
                    i as int
                } else {
                    i + 1
                },
            ),
        decreases 8 - i,
    {
        let ghost before = s@;
        if i == 4 {
            s.push('-');
        }
        assert(pin@[i as int] <= 9);
        s.push((48 + pin.digits[i]) as char);
        proof {
            assert(s@ =~= setup_code(pin@).take(
                if i + 1 <= 4 {
                    i + 1
                } else {
                    i + 2
                },
            ));
        }
        i = i + 1;
    }
    assert(setup_code(pin@).take(9) =~= setup_code(pin@));
    s
}

/// The text that shows a setup code is read as that setup code.
pub proof fn law_a_shown_code_is_read_back(digits: Seq<u8>)
    requires
        valid_pin(digits),
    ensures
        pin_in(setup_code(digits)) == Ok::<Seq<u8>, PinError>(digits),
{
    let s = setup_code(digits);
    assert forall|i: int| 0 <= i < 8 implies #[trigger] digits[i] <= 9 by {}
    assert(s.take(0) =~= Seq::empty());
    lemma_digits_in_step(s, 0);
    lemma_digits_in_step(s, 1);
    lemma_digits_in_step(s, 2);
    lemma_digits_in_step(s, 3);
    lemma_digits_in_step(s, 4);
    lemma_digits_in_step(s, 5);
    lemma_digits_in_step(s, 6);
    lemma_digits_in_step(s, 7);
    lemma_digits_in_step(s, 8);
    assert(s.take(9) =~= s);
    assert(digits_in(s) =~= digits);
}

proof fn lemma_digits_in_step(s: Seq<char>, i: int)
    requires
        0 <= i < s.len(),
    ensures
        digits_in(s.take(i + 1)) == if is_digit(s[i]) {
            digits_in(s.take(i)).push(digit_value(s[i]) as u8)
        } else {
            digits_in(s.take(i))
        },
{
    assert(s.take(i + 1).drop_last() =~= s.take(i));
}

/// Calls `rand::Rng::gen_range` of the thread's generator for a digit.
#[verifier::external_body]
fn random_digit() -> (d: u8)
    ensures
        d <= 9,
{
    rand::thread_rng().gen_range(0..=9)
}

/// How often eight digits are drawn for a setup code.
pub const PIN_DRAWS: u8 = 100;

fn draw() -> (digits: [u8; 8])
    ensures
        forall|i: int| 0 <= i < 8 ==> digits@[i] <= 9,
{
    [
        random_digit(),
        random_digit(),
        random_digit(),
        random_digit(),
        random_digit(),
        random_digit(),
        random_digit(),
        random_digit(),
    ]
}

/// The setup code with these digits; or where HomeKit does not take them, with the
/// last digit one higher, zero behind nine.
pub fn nearby_pin(digits: [u8; 8]) -> (pin: Pin)
    requires
        forall|i: int| 0 <= i < 8 ==> digits@[i] <= 9,
    ensures
        pin.wf(),
        pin@ == if too_easy(digits@) {
            digits@.update(7, ((digits@[7] + 1) % 10) as u8)
        } else {
            digits@
        },
{
    if !is_too_easy(&digits) {
        return Pin { digits };
    }
    let mut other = digits;
    other[7] = (digits[7] + 1) % 10;
    proof {
        let last = other@[7];
        assert(last != digits@[7]);
        if other@ == seq![1u8, 2u8, 3u8, 4u8, 5u8, 6u8, 7u8, 8u8] {
            assert(digits@[0] == 1 && digits@[1] == 2 && last == 8);
        }
        if other@ == seq![8u8, 7u8, 6u8, 5u8, 4u8, 3u8, 2u8, 1u8] {
            assert(digits@[0] == 8 && digits@[1] == 7 && last == 1);
        }
        assert(other@[0] == digits@[0] && other@[1] == digits@[1] && other@[6] == digits@[6]);
        assert(other@[0] != other@[1] || other@[6] != other@[7]);
    }
    Pin { digits: other }
}

/// Draws eight digits until they are those of a setup code. Where none of
/// [`PIN_DRAWS`] draws gives one, the code nearest to another draw is taken.
pub fn generate_pin() -> (pin: Pin)
    ensures
        pin.wf(),
{
    let mut i: u8 = 0;
    while i < PIN_DRAWS
        decreases PIN_DRAWS - i,
    {
        if let Ok(pin) = Pin::new(draw()) {
            return pin;
        }
        i = i + 1;
    }
    nearby_pin(draw())
}

/// The setup code that every camera had before codes were generated.
pub fn legacy_default_pin() -> (pin: Pin)
    ensures
        pin.wf(),
        pin@ == seq![1u8, 1u8, 1u8, 2u8, 2u8, 3u8, 3u8, 3u8],
{
    let digits: [u8; 8] = [1, 1, 1, 2, 2, 3, 3, 3];
    assert(digits@ =~= seq![1u8, 1u8, 1u8, 2u8, 2u8, 3u8, 3u8, 3u8]);
    assert(digits@[0] != digits@[3]);
    assert(digits@[1] != 2);
    assert(digits@[0] != 8);
    Pin { digits }
}

/// What becomes of the setup code at a start.
#[derive(Clone, Copy, Debug, PartialEq, Eq)]
pub enum PinChoice {
    Keep(Pin),
    Use(Pin),
    Generate,
}

/// Chooses the setup code: one that was given, else the stored one, unless that
/// is the legacy default; else one has to be generated.
pub fn choose_pin(given: Option<&str>, stored: Option<Pin>) -> (r: Result<PinChoice, PinError>)
    ensures
        match given {
            Some(text) => match pin_in(text@) {
                Ok(digits) => r matches Ok(PinChoice::Use(p)) && p@ == digits && p.wf(),
                Err(e) => r == Err::<PinChoice, PinError>(e),
            },
            None => match stored {
                Some(p) if p@ != seq![1u8, 1u8, 1u8, 2u8, 2u8, 3u8, 3u8, 3u8] => r == Ok::<
                    PinChoice,
                    PinError,
                >(PinChoice::Keep(p)),
                _ => r == Ok::<PinChoice, PinError>(PinChoice::Generate),
            },
        },
{
    match given {
        Some(text) => match parse_pin(text) {
            Ok(pin) => Ok(PinChoice::Use(pin)),
            Err(e) => Err(e),
        },
        None => match stored {
            Some(pin) => if pin_eq(&pin, &legacy_default_pin()) {
                Ok(PinChoice::Generate)
            } else {
                Ok(PinChoice::Keep(pin))
            },
            None => Ok(PinChoice::Generate),
        },
    }
}

fn pin_eq(a: &Pin, b: &Pin) -> (r: bool)
    ensures
        r == (a@ == b@),
{
    let mut i: usize = 0;
    while i < 8
        invariant
            i <= 8,
            forall|j: int| 0 <= j < i ==> a@[j] == b@[j],
        decreases 8 - i,
    {
        if a.digits[i] != b.digits[i] {
            assert(a@[i as int] != b@[i as int]);
            return false;
        }
        i = i + 1;
    }
    assert(a@ =~= b@);
    true
}

pub open spec fn is_letter_or_digit(c: char) -> bool {
    ||| 'a' <= c <= 'z'
    ||| 'A' <= c <= 'Z'
    ||| '0' <= c <= '9'
}

/// The name of the file that a camera's latest snapshot is saved to.
pub open spec fn filename_of(name: Seq<char>) -> Seq<char> {
    name.map_values(
        |c: char|
            if is_letter_or_digit(c) || c == '-' || c == '_' {
                c
            } else {
                '_'
            },
    ) + ".jpg"@
}

/// The name of the file that a camera's latest snapshot is saved to.
pub fn snapshot_filename(camera_name: &str) -> (s: String)
    ensures
        s@ == filename_of(camera_name@),
{
    let chars = chars_of(camera_name);
    let mut out: Vec<char> = Vec::new();
    let mut i: usize = 0;
    while i < chars.len()
        invariant
            i <= chars@.len(),
            out@.len() == i,
            forall|j: int|
                0 <= j < i ==> #[trigger] out@[j] == if is_letter_or_digit(chars@[j]) || chars@[j]
                    == '-' || chars@[j] == '_' {
                    chars@[j]
                } else {
                    '_'
                },
        decreases chars@.len() - i,
    {
        let c = chars[i];
        if ('a' <= c && c <= 'z') || ('A' <= c && c <= 'Z') || ('0' <= c && c <= '9') || c == '-'
            || c == '_' {
            out.push(c);
        } else {
            out.push('_');
        }
        i = i + 1;
    }
    let mut s = string_of(&out);
    s.append(".jpg");
    assert(s@ =~= filename_of(camera_name@));
    s
}

/// A camera's name as it can stand in an HTTP header.
pub open spec fn printable(name: Seq<char>) -> Seq<char> {
    name.map_values(
        |c: char|
            if ' ' <= c <= '~' {
                c
            } else {
                '_'
            },
    )
}

/// A camera's name as it can stand in an HTTP header: ASCII without control
/// characters.
pub fn printable_name(camera_name: &str) -> (s: String)
    ensures
        s@ == printable(camera_name@),
{
    let chars = chars_of(camera_name);
    let mut out: Vec<char> = Vec::new();
    let mut i: usize = 0;
    while i < chars.len()
        invariant
            i <= chars@.len(),
            out@.len() == i,
            forall|j: int|
                0 <= j < i ==> #[trigger] out@[j] == if ' ' <= chars@[j] <= '~' {
                    chars@[j]
                } else {
                    '_'
                },
        decreases chars@.len() - i,
    {
        let c = chars[i];
        if ' ' <= c && c <= '~' {
            out.push(c);
        } else {
            out.push('_');
        }
        i = i + 1;
    }
    let s = string_of(&out);
    assert(s@ =~= printable(camera_name@));
    s
}

/// The FNV-1a hash of some bytes.
pub open spec fn fnv1a(bytes: Seq<u8>) -> u64
    decreases bytes.len(),
{
    if bytes.len() == 0 {
        0xcbf2_9ce4_8422_2325
    } else {
        (fnv1a(bytes.drop_last()) ^ (bytes.last() as u64)).wrapping_mul(0x100_0000_01b3)
    }
}

/// A small stable hash (FNV-1a), only used to detect changes.
pub fn md5_like_hash(bytes: &[u8]) -> (hash: u64)
    ensures
        hash == fnv1a(bytes@),
{
    let mut hash: u64 = 0xcbf2_9ce4_8422_2325;
    let mut i: usize = 0;
    assert(bytes@.take(0) =~= Seq::empty());
    while i < bytes.len()
        invariant
            i <= bytes@.len(),
            hash == fnv1a(bytes@.take(i as int)),
        decreases bytes@.len() - i,
    {
        hash = hash ^ (bytes[i] as u64);
        hash = hash.wrapping_mul(0x100_0000_01b3);
        assert(bytes@.take(i + 1).drop_last() =~= bytes@.take(i as int));
        i = i + 1;
    }
    assert(bytes@.take(i as int) =~= bytes@);
    hash
}

pub open spec fn hex_char(d: nat) -> char {
    if d < 10 {
        (48 + d) as char
    } else {
        (87 + d) as char
    }
}

/// A number in hexadecimal, without leading zeros.
pub open spec fn hexadecimal(n: nat) -> Seq<char>
    decreases n,
{
    if n < 16 {
        seq![hex_char(n)]
    } else {
        hexadecimal(n / 16).push(hex_char(n % 16))
    }
}

fn push_hexadecimal(s: &mut String, n: u64)
    ensures
        final(s)@ == old(s)@ + hexadecimal(n as nat),
    decreases n,
{
    if n >= 16 {
        push_hexadecimal(s, n / 16);
    }
    let d: u8 = (n % 16) as u8;
    if d < 10 {
        s.push((48 + d) as char);
    } else {
        s.push((87 + d) as char);
    }
    assert(s@ =~= old(s)@ + hexadecimal(n as nat));
}

/// Compares an accessory's shape with what is stored of the one before. A changed
/// shape gives the text to store; the configuration number then goes up by one.
pub fn changed_shape(shape: &[u8], stored: Option<&str>) -> (r: Option<String>)
    ensures
        match r {
            Some(text) => text@ == hexadecimal(fnv1a(shape@) as nat) && (stored is None
                || stored->0@ != text@),
            None => stored is Some && stored->0@ == hexadecimal(fnv1a(shape@) as nat),
        },
{
    let mut text = String::new();
    push_hexadecimal(&mut text, md5_like_hash(shape));
    assert(text@ =~= hexadecimal(fnv1a(shape@) as nat));
    match stored {
        Some(old_text) => if same(old_text, text.as_str()) {
            None
        } else {
            Some(text)
        },
        None => Some(text),
    }
}

/// Whether a snapshot may be served. The reason is 0 for a periodic snapshot and 1
/// for one of an event; without a reason, or with another one, both kinds have to
/// be enabled.
pub open spec fn snapshot_allowed(reason: Option<i64>, periodic_ok: bool, event_ok: bool) -> bool {
    match reason {
        Some(0) => periodic_ok,
        Some(1) => event_ok,
        _ => periodic_ok && event_ok,
    }
}

/// Whether a snapshot may be served; the error is the HAP status of the refusal:
/// insufficient privileges where there is no reason, else not allowed in the
/// current state.
pub fn gate_snapshot(reason: Option<i64>, periodic_ok: bool, event_ok: bool) -> (r: Result<(), i32>)
    ensures
        r == if snapshot_allowed(reason, periodic_ok, event_ok) {
            Ok::<(), i32>(())
        } else if reason is None {
            Err::<(), i32>(-70401i32)
        } else {
            Err::<(), i32>(-70412i32)
        },
{
    let allowed: bool = match reason {
        Some(0) => periodic_ok,
        Some(1) => event_ok,
        _ => periodic_ok && event_ok,
    };
    if allowed {
        Ok(())
    } else if reason.is_none() {
        Err(-70401)
    } else {
        Err(-70412)
    }
}

// --- What codes, names and hashes come to ---

/// A setup code is read from the digits of a text alone, in their order: anything else
/// in it counts for nothing, and each digit for its value.
pub proof fn law_a_code_is_read_from_its_digits(a: Seq<char>, c: char, b: Seq<char>)
    ensures
        digits_in(Seq::empty()) == Seq::<u8>::empty(),
        '0' <= c <= '9' ==> digits_in(a.push(c) + b) == digits_in(a).push(
            (c as u32 - '0' as u32) as u8,
        ) + digits_in(b),
        !('0' <= c <= '9') ==> digits_in(a.push(c) + b) == digits_in(a) + digits_in(b),
    decreases b.len(),
{
    if b.len() == 0 {
        assert(a.push(c) + b =~= a.push(c));
        assert(a.push(c).drop_last() =~= a);
        assert(digits_in(b) =~= Seq::empty());
        assert(digits_in(a) + digits_in(b) =~= digits_in(a));
        assert(digits_in(a.push(c)) + digits_in(b) =~= digits_in(a.push(c)));
    } else {
        let front = b.drop_last();
        law_a_code_is_read_from_its_digits(a, c, front);
        let whole = a.push(c) + b;
        assert(whole.drop_last() =~= a.push(c) + front);
        assert(whole.last() == b.last());
        if is_digit(b.last()) {
            let d = digit_value(b.last()) as u8;
            assert((digits_in(a) + digits_in(front)).push(d) =~= digits_in(a) + digits_in(
                front,
            ).push(d));
            assert((digits_in(a).push((c as u32 - '0' as u32) as u8) + digits_in(front)).push(d)
                =~= digits_in(a).push((c as u32 - '0' as u32) as u8) + digits_in(front).push(d));
        }
    }
}

/// A text is a setup code where it holds eight digits that are neither all the same nor
/// 12345678 or 87654321.
pub proof fn law_which_codes_are_taken(s: Seq<char>)
    ensures
        ({
            let d = digits_in(s);
            let same = d[0] == d[1] && d[1] == d[2] && d[2] == d[3] && d[3] == d[4] && d[4] == d[5]
                && d[5] == d[6] && d[6] == d[7];
            let up = d[0] == 1 && d[1] == 2 && d[2] == 3 && d[3] == 4 && d[4] == 5 && d[5] == 6
                && d[6] == 7 && d[7] == 8;
            let down = d[0] == 8 && d[1] == 7 && d[2] == 6 && d[3] == 5 && d[4] == 4 && d[5] == 3
                && d[6] == 2 && d[7] == 1;
            &&& d.len() != 8 ==> pin_in(s) == Err::<Seq<u8>, PinError>(PinError::NotEightDigits)
            &&& d.len() == 8 && (same || up || down) ==> pin_in(s) == Err::<Seq<u8>, PinError>(
                PinError::TooEasy,
            )
            &&& d.len() == 8 && !same && !up && !down ==> pin_in(s) == Ok::<Seq<u8>, PinError>(d)
        }),
{
    let d = digits_in(s);
    if d.len() == 8 {
        let up = seq![1u8, 2u8, 3u8, 4u8, 5u8, 6u8, 7u8, 8u8];
        let down = seq![8u8, 7u8, 6u8, 5u8, 4u8, 3u8, 2u8, 1u8];
        assert(d =~= up <==> d[0] == 1 && d[1] == 2 && d[2] == 3 && d[3] == 4 && d[4] == 5 && d[5]
            == 6 && d[6] == 7 && d[7] == 8);
        assert(d =~= down <==> d[0] == 8 && d[1] == 7 && d[2] == 6 && d[3] == 5 && d[4] == 4 && d[5]
            == 3 && d[6] == 2 && d[7] == 1);
    }
}

/// A setup code is shown as four digits, a dash and four digits, in their order.
pub proof fn law_codes_are_shown_in_two_groups(digits: Seq<u8>, i: int)
    requires
        valid_pin(digits),
        0 <= i < 4,
    ensures
        setup_code(digits).len() == 9,
        setup_code(digits)[i] == ('0' as u32 + digits[i]) as char,
        setup_code(digits)[4] == '-',
        setup_code(digits)[5 + i] == ('0' as u32 + digits[4 + i]) as char,
{
}

/// A file name keeps the letters, digits, dashes and underscores of a camera's name and
/// has underscores for the rest, and ends in `.jpg`; a name in a header keeps printable
/// ASCII. No character is lost.
pub proof fn law_names_keep_their_characters(name: Seq<char>, i: int)
    requires
        0 <= i < name.len(),
    ensures
        filename_of(name).len() == name.len() + 4,
        filename_of(name).skip(name.len() as int) == ".jpg"@,
        'a' <= name[i] <= 'z' || 'A' <= name[i] <= 'Z' || '0' <= name[i] <= '9' || name[i] == '-'
            || name[i] == '_' ==> filename_of(name)[i] == name[i],
        !('a' <= name[i] <= 'z' || 'A' <= name[i] <= 'Z' || '0' <= name[i] <= '9' || name[i] == '-')
            ==> filename_of(name)[i] == '_',
        printable(name).len() == name.len(),
        ' ' <= name[i] <= '~' ==> printable(name)[i] == name[i],
        !(' ' <= name[i] <= '~') ==> printable(name)[i] == '_',
{
    reveal_strlit(".jpg");
    assert(".jpg"@.len() == 4);
    assert(filename_of(name).skip(name.len() as int) =~= ".jpg"@);
}

/// The hash is FNV-1a on 64 bits: it starts at the offset basis, and each byte is mixed
/// in and then multiplied by the prime.
pub proof fn law_the_hash_is_fnv1a(bytes: Seq<u8>, b: u8)
    ensures
        fnv1a(Seq::empty()) == 0xcbf29ce484222325u64,
        fnv1a(bytes.push(b)) == (fnv1a(bytes) ^ (b as u64)).wrapping_mul(0x00000100000001b3u64),
{
    assert(bytes.push(b).drop_last() =~= bytes);
}

/// Hexadecimal digits count in sixteens, in lower case.
pub proof fn law_hexadecimal_counts_in_sixteens(n: nat, d: nat)
    requires
        d < 16,
    ensures
        d < 10 ==> hexadecimal(d) == seq![('0' as u32 + d) as char],
        d >= 10 ==> hexadecimal(d) == seq![('a' as u32 + d - 10) as char],
        n > 0 ==> hexadecimal(16 * n + d) == hexadecimal(n) + hexadecimal(d),
{
    assert((16 * n + d) / 16 == n);
    assert((16 * n + d) % 16 == d);
    if n > 0 {
        assert(hexadecimal(16 * n + d) =~= hexadecimal(n) + hexadecimal(d));
    }
}

/// A periodic snapshot is served where those are allowed, one for an event where those
/// are; one for another reason or for none only where both are.
pub proof fn law_snapshots_are_gated_by_their_reason(
    reason: i64,
    periodic_ok: bool,
    event_ok: bool,
)
    ensures
        snapshot_allowed(Some(0), periodic_ok, event_ok) == periodic_ok,
        snapshot_allowed(Some(1), periodic_ok, event_ok) == event_ok,
        reason != 0 && reason != 1 ==> snapshot_allowed(Some(reason), periodic_ok, event_ok) == (
        periodic_ok && event_ok),
        snapshot_allowed(None, periodic_ok, event_ok) == (periodic_ok && event_ok),
{
}

} // verus!
