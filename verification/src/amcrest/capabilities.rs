//! What a camera's encoder can do, as it reports it.

use vstd::prelude::*;
use vstd::string::*;
use crate::text::{all_digits, chars_of, contains, cut_at, decimal, digits_value, holds, is_digit, joined, law_decimal_reads_back, law_searching_finds_the_first_place, lemma_decimal, lines, lines_of, parse_unsigned, parsed_digits, parsed_unsigned, seq_views, spells, split, split_on, split_once, starts, starts_with, trim, trimmed};

verus! {

/// A video mode of a stream.
#[derive(Clone, Copy, Debug, PartialEq, Eq, Structural)]
pub struct VideoProfile {
    pub width: u16,
    pub height: u16,
    pub fps: u8,
    pub bitrate_kbps: u32,
}

/// The encoder modes that a camera reports.
#[derive(Clone, Debug, PartialEq, Eq)]
pub struct EncoderCapabilities {
    pub main_resolutions: Vec<(u16, u16)>,
    pub extra_resolutions: Vec<(u16, u16)>,
    pub snapshot_resolutions: Vec<(u16, u16)>,
    pub main_bitrate_range: Option<(u32, u32)>,
    pub extra_bitrate_range: Option<(u32, u32)>,
    pub main_fps_max: Option<u8>,
    pub extra_fps_max: Option<u8>,
}

impl Default for EncoderCapabilities {
    fn default() -> (c: Self)
        ensures
            c.main_resolutions@.len() == 0,
            c.extra_resolutions@.len() == 0,
            c.snapshot_resolutions@.len() == 0,
            c.main_bitrate_range is None,
            c.extra_bitrate_range is None,
            c.main_fps_max is None,
            c.extra_fps_max is None,
    {
        EncoderCapabilities {
            main_resolutions: Vec::new(),
            extra_resolutions: Vec::new(),
            snapshot_resolutions: Vec::new(),
            main_bitrate_range: None,
            extra_bitrate_range: None,
            main_fps_max: None,
            extra_fps_max: None,
        }
    }
}

/// The recording modes offered to HomeKit, the best first.
pub open spec fn recording_candidates() -> Seq<(u16, u16, u8)> {
    seq![(3840u16, 2160u16, 15u8), (2688u16, 1520u16, 15u8), (1920u16, 1080u16, 15u8), (1280u16, 720u16, 15u8)]
}

/// The recording modes offered for a camera that reports none of the candidates.
pub open spec fn recording_fallback() -> Seq<(u16, u16, u8)> {
    seq![(1920u16, 1080u16, 15u8), (1280u16, 720u16, 15u8)]
}

/// Whether a camera with these resolutions and this highest frame rate has a mode.
pub open spec fn mode_supported(
    resolutions: Seq<(u16, u16)>,
    fps_max: Option<u8>,
    mode: (u16, u16, u8),
) -> bool {
    resolutions.contains((mode.0, mode.1)) && (fps_max matches Some(max) ==> mode.2 <= max)
}

/// The modes of a list that a camera has, in their order.
pub open spec fn supported_modes(
    resolutions: Seq<(u16, u16)>,
    fps_max: Option<u8>,
    modes: Seq<(u16, u16, u8)>,
) -> Seq<(u16, u16, u8)>
    decreases modes.len(),
{
    if modes.len() == 0 {
        Seq::empty()
    } else {
        let before = supported_modes(resolutions, fps_max, modes.drop_last());
        if mode_supported(resolutions, fps_max, modes.last()) {
            before.push(modes.last())
        } else {
            before
        }
    }
}

/// The recording modes for a camera.
pub open spec fn recording_modes(resolutions: Seq<(u16, u16)>, fps_max: Option<u8>) -> Seq<
    (u16, u16, u8),
> {
    let supported = supported_modes(resolutions, fps_max, recording_candidates());
    if supported.len() == 0 {
        recording_fallback()
    } else {
        supported
    }
}

fn has_resolution(resolutions: &Vec<(u16, u16)>, width: u16, height: u16) -> (r: bool)
    ensures
        r == resolutions@.contains((width, height)),
{
    let mut i: usize = 0;
    while i < resolutions.len()
        invariant
            i <= resolutions@.len(),
            forall|j: int| 0 <= j < i ==> resolutions@[j] != (width, height),
        decreases resolutions@.len() - i,
    {
        if resolutions[i].0 == width && resolutions[i].1 == height {
            assert(resolutions@[i as int] == (width, height));
            return true;
        }
        i = i + 1;
    }
    false
}

/// The number of pixels of a resolution.
pub open spec fn area(resolution: (u16, u16)) -> int {
    resolution.0 * resolution.1
}

impl EncoderCapabilities {
    /// The recording modes offered to HomeKit for this camera, the best first.
    pub fn recording_attributes(&self) -> (r: Vec<(u16, u16, u8)>)
        ensures
            r@ == recording_modes(self.main_resolutions@, self.main_fps_max),
            r@.len() > 0,
    {
        let candidates: [(u16, u16, u8); 4] = [
            (3840, 2160, 15),
            (2688, 1520, 15),
            (1920, 1080, 15),
            (1280, 720, 15),
        ];
        assert(candidates@ =~= recording_candidates());
        let mut r: Vec<(u16, u16, u8)> = Vec::new();
        let mut i: usize = 0;
        assert(candidates@.take(0) =~= Seq::empty());
        while i < 4
            invariant
                i <= 4,
                candidates@ == recording_candidates(),
                candidates@.len() == 4,
                r@ == supported_modes(
                    self.main_resolutions@,
                    self.main_fps_max,
                    candidates@.take(i as int),
                ),
            decreases 4 - i,
        {
            let (width, height, fps) = candidates[i];
            let fits: bool = match self.main_fps_max {
                Some(max) => fps <= max,
                None => true,
            };
            assert(candidates@.take(i + 1).drop_last() =~= candidates@.take(i as int));
            if has_resolution(&self.main_resolutions, width, height) && fits {
                r.push((width, height, fps));
            }
            i = i + 1;
        }
        assert(candidates@.take(4) =~= candidates@);
        if r.len() == 0 {
            r.push((1920, 1080, 15));
            r.push((1280, 720, 15));
            assert(r@ =~= recording_fallback());
        }
        r
    }

    /// The largest resolution for snapshots; the last of them where several are
    /// equally large.
    pub fn best_snapshot_resolution(&self) -> (r: Option<(u16, u16)>)
        ensures
            match r {
                Some(best) => exists|i: int|
                    #![trigger self.snapshot_resolutions@[i]]
                    0 <= i < self.snapshot_resolutions@.len() && self.snapshot_resolutions@[i] == best
                        && (forall|j: int|
                        0 <= j < self.snapshot_resolutions@.len() ==> area(
                            #[trigger] self.snapshot_resolutions@[j],
                        ) <= area(best) && (j > i ==> area(self.snapshot_resolutions@[j]) < area(
                            best,
                        ))),
                None => self.snapshot_resolutions@.len() == 0,
            },
    {
        if self.snapshot_resolutions.len() == 0 {
            return None;
        }
        let mut best: usize = 0;
        let mut i: usize = 1;
        while i < self.snapshot_resolutions.len()
            invariant
                best < i <= self.snapshot_resolutions@.len(),
                forall|j: int|
                    0 <= j < i ==> area(#[trigger] self.snapshot_resolutions@[j]) <= area(
                        self.snapshot_resolutions@[best as int],
                    ) && (j > best ==> area(self.snapshot_resolutions@[j]) < area(
                        self.snapshot_resolutions@[best as int],
                    )),
            decreases self.snapshot_resolutions@.len() - i,
        {
            let (w, h) = self.snapshot_resolutions[i];
            let (bw, bh) = self.snapshot_resolutions[best];
            proof {
                assert(w * h <= 0xffff * 0xffff) by (nonlinear_arith)
                    requires
                        w <= 0xffff,
                        h <= 0xffff,
                ;
                assert(bw * bh <= 0xffff * 0xffff) by (nonlinear_arith)
                    requires
                        bw <= 0xffff,
                        bh <= 0xffff,
                ;
            }
            if w as u32 * h as u32 >= bw as u32 * bh as u32 {
                best = i;
            }
            i = i + 1;
        }
        Some(self.snapshot_resolutions[best])
    }
}

/// Of two recording modes that are offered the first has the more pixels.
pub proof fn law_recording_modes_are_best_first(
    resolutions: Seq<(u16, u16)>,
    fps_max: Option<u8>,
    i: int,
    j: int,
)
    requires
        0 <= i < j < recording_modes(resolutions, fps_max).len(),
    ensures
        area(
            (
                recording_modes(resolutions, fps_max)[i].0,
                recording_modes(resolutions, fps_max)[i].1,
            ),
        ) > area(
            (
                recording_modes(resolutions, fps_max)[j].0,
                recording_modes(resolutions, fps_max)[j].1,
            ),
        ),
{
    lemma_supported_descend(resolutions, fps_max, recording_candidates());
}

pub open spec fn descending(modes: Seq<(u16, u16, u8)>) -> bool {
    forall|i: int, j: int|
        #![trigger modes[i], modes[j]]
        0 <= i < j < modes.len() ==> area((modes[i].0, modes[i].1)) > area(
            (modes[j].0, modes[j].1),
        )
}

proof fn lemma_supported_descend(
    resolutions: Seq<(u16, u16)>,
    fps_max: Option<u8>,
    modes: Seq<(u16, u16, u8)>,
)
    requires
        descending(modes),
    ensures
        descending(supported_modes(resolutions, fps_max, modes)),
        forall|k: int|
            0 <= k < supported_modes(resolutions, fps_max, modes).len() ==> modes.contains(
                #[trigger] supported_modes(resolutions, fps_max, modes)[k],
            ),
    decreases modes.len(),
{
    if modes.len() > 0 {
        let front = modes.drop_last();
        assert(descending(front)) by {
            assert forall|i: int, j: int|
                #![trigger front[i], front[j]]
                0 <= i < j < front.len() implies area((front[i].0, front[i].1)) > area(
                (front[j].0, front[j].1),
            ) by {
                assert(front[i] == modes[i] && front[j] == modes[j]);
            }
        }
        lemma_supported_descend(resolutions, fps_max, front);
        let before = supported_modes(resolutions, fps_max, front);
        let after = supported_modes(resolutions, fps_max, modes);
        assert forall|k: int| 0 <= k < after.len() implies modes.contains(#[trigger] after[k]) by {
            if k < before.len() {
                assert(front.contains(before[k]));
                let m = choose|m: int| 0 <= m < front.len() && front[m] == before[k];
                assert(modes[m] == before[k]);
            } else {
                assert(modes[modes.len() - 1] == after[k]);
            }
        }
        assert forall|i: int, j: int|
            #![trigger after[i], after[j]]
            0 <= i < j < after.len() implies area((after[i].0, after[i].1)) > area(
            (after[j].0, after[j].1),
        ) by {
            if j < before.len() {
                assert(after[i] == before[i] && after[j] == before[j]);
            } else {
                assert(front.contains(before[i]));
                let m = choose|m: int| 0 <= m < front.len() && front[m] == before[i];
                assert(modes[m] == after[i]);
                assert(modes[modes.len() - 1] == after[j]);
            }
        }
    }
}

// --- Reading what a camera reports ---

/// Whether a reported key is the documented one, one of its indexed entries, or
/// holds the form that other firmware uses.
pub open spec fn key_matches(key: Seq<char>, documented: Seq<char>, indexed: Seq<char>) -> bool {
    key == documented || starts(key, documented + "["@) || holds(key, indexed)
}

/// The value that a line gives for a capability.
pub open spec fn capability_value(
    line: Seq<char>,
    documented: Seq<char>,
    indexed: Seq<char>,
) -> Option<Seq<char>> {
    match cut_at(trimmed(line), '=') {
        Some((key, value)) => if key_matches(key, documented, indexed) {
            Some(trimmed(value))
        } else {
            None
        },
        None => None,
    }
}

/// The values that lines give for a capability, in their order.
pub open spec fn line_values(
    lines: Seq<Seq<char>>,
    documented: Seq<char>,
    indexed: Seq<char>,
) -> Seq<Seq<char>>
    decreases lines.len(),
{
    if lines.len() == 0 {
        Seq::empty()
    } else {
        let before = line_values(lines.drop_last(), documented, indexed);
        match capability_value(lines.last(), documented, indexed) {
            Some(value) => before.push(value),
            None => before,
        }
    }
}

/// The values that a report gives for a capability, with commas between them.
pub open spec fn reported_values(
    body: Seq<char>,
    documented: Seq<char>,
    indexed: Seq<char>,
) -> Option<Seq<char>> {
    let values = line_values(lines_of(body), documented, indexed);
    if values.len() == 0 {
        None
    } else {
        Some(joined(values, ","@))
    }
}

fn value_in_line(line: &[char], documented: &str, indexed: &str) -> (r: Option<Vec<char>>)
    ensures
        match r {
            Some(v) => capability_value(line@, documented@, indexed@) == Some(v@),
            None => capability_value(line@, documented@, indexed@) is None,
        },
{
    let line = trim(line);
    match split_once(line.as_slice(), '=') {
        Some((key, value)) => {
            let mut prefix = chars_of(documented);
            prefix.push('[');
            proof {
                reveal_strlit("[");
                assert(prefix@ =~= documented@ + "["@);
            }
            let part = chars_of(indexed);
            if spells(key.as_slice(), documented) || starts_with(
                key.as_slice(),
                prefix.as_slice(),
            ) || contains(key.as_slice(), part.as_slice()) {
                Some(trim(value.as_slice()))
            } else {
                None
            }
        },
        None => None,
    }
}

/// The values that a report gives for a capability, with commas between them.
pub fn capability_values(body: &str, documented: &str, indexed: &str) -> (r: Option<Vec<char>>)
    ensures
        match r {
            Some(v) => reported_values(body@, documented@, indexed@) == Some(v@),
            None => reported_values(body@, documented@, indexed@) is None,
        },
{
    let text = chars_of(body);
    let all = lines(text.as_slice());
    let ghost views = lines_of(body@);
    let mut r: Vec<char> = Vec::new();
    let mut found: bool = false;
    let mut i: usize = 0;
    assert(views.take(0) =~= Seq::empty());
    while i < all.len()
        invariant
            i <= all@.len(),
            views == seq_views(all@),
            found == (line_values(views.take(i as int), documented@, indexed@).len() > 0),
            r@ == joined(line_values(views.take(i as int), documented@, indexed@), ","@),
        decreases all@.len() - i,
    {
        let ghost before = line_values(views.take(i as int), documented@, indexed@);
        proof {
            reveal_strlit(",");
            assert(views.take(i + 1).drop_last() =~= views.take(i as int));
        }
        match value_in_line(all[i].as_slice(), documented, indexed) {
            Some(mut value) => {
                let ghost v = value@;
                if found {
                    r.push(',');
                }
                let ghost head = r@;
                r.append(&mut value);
                proof {
                    assert(before.push(v).drop_last() =~= before);
                    if before.len() > 0 {
                        assert(r@ =~= joined(before, ","@) + ","@ + v);
                    } else {
                        assert(r@ =~= v);
                    }
                }
                found = true;
            },
            None => {},
        }
        i = i + 1;
    }
    assert(views.take(i as int) =~= views);
    if found {
        Some(r)
    } else {
        None
    }
}

/// A character with its lower-case ASCII letter made upper-case.
pub open spec fn ascii_upper(c: char) -> char {
    if 'a' <= c <= 'z' {
        (c as u32 - 32) as char
    } else {
        c
    }
}

/// A resolution's text in upper case and without spaces.
pub open spec fn compact_upper(s: Seq<char>) -> Seq<char>
    decreases s.len(),
{
    if s.len() == 0 {
        Seq::empty()
    } else {
        let before = compact_upper(s.drop_last());
        if s.last() == ' ' {
            before
        } else {
            before.push(ascii_upper(s.last()))
        }
    }
}

fn compacted(s: &[char]) -> (r: Vec<char>)
    ensures
        r@ == compact_upper(s@),
{
    let mut r: Vec<char> = Vec::new();
    let mut i: usize = 0;
    assert(s@.take(0) =~= Seq::empty());
    while i < s.len()
        invariant
            i <= s@.len(),
            r@ == compact_upper(s@.take(i as int)),
        decreases s@.len() - i,
    {
        assert(s@.take(i + 1).drop_last() =~= s@.take(i as int));
        let c: char = s[i];
        if c != ' ' {
            let up: char = if c >= 'a' && c <= 'z' {
                (c as u8 - 32) as char
            } else {
                c
            };
            r.push(up);
        }
        i = i + 1;
    }
    assert(s@.take(i as int) =~= s@);
    r
}

/// The resolution that a name stands for.
pub open spec fn named_resolution(name: Seq<char>) -> Option<(u16, u16)> {
    if name == "QFHD"@ || name == "4K"@ {
        Some((3840u16, 2160u16))
    } else if name == "1080"@ || name == "1080P"@ {
        Some((1920u16, 1080u16))
    } else if name == "720"@ || name == "720P"@ {
        Some((1280u16, 720u16))
    } else if name == "D1"@ {
        Some((704u16, 480u16))
    } else if name == "VGA"@ {
        Some((640u16, 480u16))
    } else if name == "CIF"@ {
        Some((352u16, 240u16))
    } else {
        None
    }
}

/// How many digits a text ends with.
pub open spec fn trailing_digits(s: Seq<char>) -> nat
    decreases s.len(),
{
    if s.len() == 0 || !is_digit(s.last()) {
        0
    } else {
        1 + trailing_digits(s.drop_last())
    }
}

/// The 16-bit numbers that stand in a text, in their order: its runs of digits,
/// but for those of larger numbers.
pub open spec fn numbers_in(s: Seq<char>) -> Seq<u16>
    decreases s.len(),
{
    if s.len() == 0 {
        Seq::empty()
    } else {
        let n = trailing_digits(s) as int;
        if n == 0 {
            numbers_in(s.drop_last())
        } else {
            proof {
                lemma_trailing_digits(s);
            }
            let before = numbers_in(s.take(s.len() - n));
            match parsed_digits(s.skip(s.len() - n), u16::MAX as nat) {
                Some(v) => before.push(v as u16),
                None => before,
            }
        }
    }
}

pub proof fn lemma_trailing_digits(s: Seq<char>)
    ensures
        trailing_digits(s) <= s.len(),
        all_digits(s.skip(s.len() - trailing_digits(s))),
        trailing_digits(s) < s.len() ==> !is_digit(s[s.len() - trailing_digits(s) - 1]),
    decreases s.len(),
{
    if s.len() > 0 && is_digit(s.last()) {
        let front = s.drop_last();
        lemma_trailing_digits(front);
        let n = trailing_digits(s) as int;
        let run = s.skip(s.len() - n);
        assert forall|i: int| 0 <= i < run.len() implies is_digit(#[trigger] run[i]) by {
            if i < run.len() - 1 {
                assert(front.skip(front.len() - (n - 1))[i] == run[i]);
            } else {
                assert(run[i] == s.last());
            }
        }
    }
}

proof fn lemma_trailing_is(s: Seq<char>, n: int)
    requires
        0 <= n <= s.len(),
        all_digits(s.skip(s.len() - n)),
        n < s.len() ==> !is_digit(s[s.len() - n - 1]),
    ensures
        trailing_digits(s) == n,
    decreases n,
{
    if n > 0 {
        let front = s.drop_last();
        assert(s.skip(s.len() - n)[n - 1] == s.last());
        assert forall|i: int| 0 <= i < n - 1 implies is_digit(
            #[trigger] front.skip(front.len() - (n - 1))[i],
        ) by {
            assert(s.skip(s.len() - n)[i] == front.skip(front.len() - (n - 1))[i]);
        }
        lemma_trailing_is(front, n - 1);
    }
}

fn numbers(s: &[char]) -> (r: Vec<u16>)
    ensures
        r@ == numbers_in(s@),
{
    let mut r: Vec<u16> = Vec::new();
    let mut i: usize = 0;
    assert(s@.take(0) =~= Seq::empty());
    while i < s.len()
        invariant
            i <= s@.len(),
            i > 0 && i < s@.len() ==> !is_digit(s@[i - 1]) || !is_digit(s@[i as int]),
            r@ == numbers_in(s@.take(i as int)),
        decreases s@.len() - i,
    {
        let start: usize = i;
        if s[i] < '0' || s[i] > '9' {
            i = i + 1;
            proof {
                let seen = s@.take(i as int);
                assert(seen.last() == s@[start as int]);
                assert(seen.drop_last() =~= s@.take(start as int));
            }
        } else {
            while i < s.len() && s[i] >= '0' && s[i] <= '9'
                invariant
                    start <= i <= s@.len(),
                    forall|j: int| start <= j < i ==> is_digit(#[trigger] s@[j]),
                decreases s@.len() - i,
            {
                i = i + 1;
            }
            let run = &s[start..i];
            proof {
                let seen = s@.take(i as int);
                let n = i - start;
                assert(seen.skip(seen.len() - n) =~= run@);
                assert forall|j: int| 0 <= j < run@.len() implies is_digit(#[trigger] run@[j]) by {
                    assert(run@[j] == s@[start + j]);
                }
                lemma_trailing_is(seen, n);
                assert(seen.take(seen.len() - n) =~= s@.take(start as int));
            }
            assert(is_digit(run@[0]));
            match parse_unsigned(run, 65535) {
                Some(v) => r.push(v as u16),
                None => {},
            }
        }
    }
    assert(s@.take(i as int) =~= s@);
    r
}

/// The resolution that a text spells: by name, or by its first two numbers.
pub open spec fn parsed_resolution(raw: Seq<char>) -> Option<(u16, u16)> {
    let text = compact_upper(trimmed(raw));
    match named_resolution(text) {
        Some(r) => Some(r),
        None => {
            let n = numbers_in(text);
            if n.len() >= 2 {
                Some((n[0], n[1]))
            } else {
                None
            }
        },
    }
}

fn parse_resolution(raw: &[char]) -> (r: Option<(u16, u16)>)
    ensures
        r == parsed_resolution(raw@),
{
    let part = trim(raw);
    let text = compacted(part.as_slice());
    let t = text.as_slice();
    if spells(t, "QFHD") || spells(t, "4K") {
        Some((3840, 2160))
    } else if spells(t, "1080") || spells(t, "1080P") {
        Some((1920, 1080))
    } else if spells(t, "720") || spells(t, "720P") {
        Some((1280, 720))
    } else if spells(t, "D1") {
        Some((704, 480))
    } else if spells(t, "VGA") {
        Some((640, 480))
    } else if spells(t, "CIF") {
        Some((352, 240))
    } else {
        let n = numbers(t);
        if n.len() >= 2 {
            Some((n[0], n[1]))
        } else {
            None
        }
    }
}

/// The resolutions that a list of texts spells, each once, where it comes first.
pub open spec fn distinct_resolutions(parts: Seq<Seq<char>>) -> Seq<(u16, u16)>
    decreases parts.len(),
{
    if parts.len() == 0 {
        Seq::empty()
    } else {
        let before = distinct_resolutions(parts.drop_last());
        match parsed_resolution(parts.last()) {
            Some(r) => if before.contains(r) {
                before
            } else {
                before.push(r)
            },
            None => before,
        }
    }
}

/// The resolutions in a comma-separated list, each once.
pub fn parse_resolutions(value: &[char]) -> (r: Vec<(u16, u16)>)
    ensures
        r@ == distinct_resolutions(split_on(value@, ',')),
{
    let parts = split(value, ',');
    let ghost views = split_on(value@, ',');
    let mut r: Vec<(u16, u16)> = Vec::new();
    let mut i: usize = 0;
    assert(views.take(0) =~= Seq::empty());
    while i < parts.len()
        invariant
            i <= parts@.len(),
            views == seq_views(parts@),
            r@ == distinct_resolutions(views.take(i as int)),
        decreases parts@.len() - i,
    {
        assert(views.take(i + 1).drop_last() =~= views.take(i as int));
        match parse_resolution(parts[i].as_slice()) {
            Some((w, h)) => if !has_resolution(&r, w, h) {
                r.push((w, h));
            },
            None => {},
        }
        i = i + 1;
    }
    assert(views.take(i as int) =~= views);
    r
}

/// No resolution is listed twice.
pub proof fn law_resolutions_are_distinct(parts: Seq<Seq<char>>)
    ensures
        distinct_resolutions(parts).no_duplicates(),
    decreases parts.len(),
{
    if parts.len() > 0 {
        law_resolutions_are_distinct(parts.drop_last());
    }
}

/// The numbers that the parts of a list spell, in their order; what spells none is
/// skipped.
pub open spec fn rates_in(parts: Seq<Seq<char>>) -> Seq<u32>
    decreases parts.len(),
{
    if parts.len() == 0 {
        Seq::empty()
    } else {
        let before = rates_in(parts.drop_last());
        match parsed_unsigned(trimmed(parts.last()), u32::MAX as nat) {
            Some(n) => before.push(n as u32),
            None => before,
        }
    }
}

/// The first two numbers in a comma-separated list.
pub open spec fn parsed_range(value: Seq<char>) -> Option<(u32, u32)> {
    let rates = rates_in(split_on(value, ','));
    if rates.len() >= 2 {
        Some((rates[0], rates[1]))
    } else {
        None
    }
}

/// The first two numbers in a comma-separated list.
pub fn parse_bitrate_range(value: &[char]) -> (r: Option<(u32, u32)>)
    ensures
        r == parsed_range(value@),
{
    let parts = split(value, ',');
    let ghost views = split_on(value@, ',');
    let mut rates: Vec<u32> = Vec::new();
    let mut i: usize = 0;
    assert(views.take(0) =~= Seq::empty());
    while i < parts.len()
        invariant
            i <= parts@.len(),
            views == seq_views(parts@),
            rates@ == rates_in(views.take(i as int)),
        decreases parts@.len() - i,
    {
        assert(views.take(i + 1).drop_last() =~= views.take(i as int));
        let part = trim(parts[i].as_slice());
        match parse_unsigned(part.as_slice(), 0xffff_ffff) {
            Some(n) => rates.push(n as u32),
            None => {},
        }
        i = i + 1;
    }
    assert(views.take(i as int) =~= views);
    if rates.len() >= 2 {
        Some((rates[0], rates[1]))
    } else {
        None
    }
}

/// The frame rate that a comma-separated list starts with.
pub open spec fn parsed_fps(value: Seq<char>) -> Option<u8> {
    match parsed_unsigned(split_on(value, ',')[0], u8::MAX as nat) {
        Some(n) => Some(n as u8),
        None => None,
    }
}

fn parse_fps(value: &[char]) -> (r: Option<u8>)
    ensures
        r == parsed_fps(value@),
{
    let parts = split(value, ',');
    assert(seq_views(parts@)[0] == parts@[0]@);
    match parse_unsigned(parts[0].as_slice(), 255) {
        Some(n) => Some(n as u8),
        None => None,
    }
}

/// The resolutions that a report gives for a stream.
pub open spec fn reported_resolutions(
    body: Seq<char>,
    documented: Seq<char>,
    indexed: Seq<char>,
) -> Seq<(u16, u16)> {
    match reported_values(body, documented, indexed) {
        Some(value) => distinct_resolutions(split_on(value, ',')),
        None => Seq::empty(),
    }
}

pub open spec fn reported_range(
    body: Seq<char>,
    documented: Seq<char>,
    indexed: Seq<char>,
) -> Option<(u32, u32)> {
    match reported_values(body, documented, indexed) {
        Some(value) => parsed_range(value),
        None => None,
    }
}

pub open spec fn reported_fps(
    body: Seq<char>,
    documented: Seq<char>,
    indexed: Seq<char>,
) -> Option<u8> {
    match reported_values(body, documented, indexed) {
        Some(value) => parsed_fps(value),
        None => None,
    }
}

fn resolutions_of(body: &str, documented: &str, indexed: &str) -> (r: Vec<(u16, u16)>)
    ensures
        r@ == reported_resolutions(body@, documented@, indexed@),
{
    match capability_values(body, documented, indexed) {
        Some(value) => parse_resolutions(value.as_slice()),
        None => Vec::new(),
    }
}

fn range_of(body: &str, documented: &str, indexed: &str) -> (r: Option<(u32, u32)>)
    ensures
        r == reported_range(body@, documented@, indexed@),
{
    match capability_values(body, documented, indexed) {
        Some(value) => parse_bitrate_range(value.as_slice()),
        None => None,
    }
}

fn fps_of(body: &str, documented: &str, indexed: &str) -> (r: Option<u8>)
    ensures
        r == reported_fps(body@, documented@, indexed@),
{
    match capability_values(body, documented, indexed) {
        Some(value) => parse_fps(value.as_slice()),
        None => None,
    }
}

/// The encoder modes in a camera's report, which comes in one of two forms.
pub fn parse_encoder_capabilities(body: &str) -> (c: EncoderCapabilities)
    ensures
        c.main_resolutions@ == reported_resolutions(
            body@,
            "headMain.Video.ResolutionTypes"@,
            ".MainFormat[0].Video.ResolutionTypes"@,
        ),
        c.extra_resolutions@ == reported_resolutions(
            body@,
            "headExtra.Video.ResolutionTypes"@,
            ".ExtraFormat[1].Video.ResolutionTypes"@,
        ),
        c.snapshot_resolutions@ == reported_resolutions(
            body@,
            "headSnap.Video.ResolutionTypes"@,
            ".SnapFormat[0].Video.ResolutionTypes"@,
        ),
        c.main_bitrate_range == reported_range(
            body@,
            "headMain.Video.BitRateOptions"@,
            ".MainFormat[0].Video.BitRateOptions"@,
        ),
        c.extra_bitrate_range == reported_range(
            body@,
            "headExtra.Video.BitRateOptions"@,
            ".ExtraFormat[1].Video.BitRateOptions"@,
        ),
        c.main_fps_max == reported_fps(
            body@,
            "headMain.Video.FPSMax"@,
            ".MainFormat[0].Video.FPSMax"@,
        ),
        c.extra_fps_max == reported_fps(
            body@,
            "headExtra.Video.FPSMax"@,
            ".ExtraFormat[1].Video.FPSMax"@,
        ),
{
    EncoderCapabilities {
        main_resolutions: resolutions_of(
            body,
            "headMain.Video.ResolutionTypes",
            ".MainFormat[0].Video.ResolutionTypes",
        ),
        extra_resolutions: resolutions_of(
            body,
            "headExtra.Video.ResolutionTypes",
            ".ExtraFormat[1].Video.ResolutionTypes",
        ),
        snapshot_resolutions: resolutions_of(
            body,
            "headSnap.Video.ResolutionTypes",
            ".SnapFormat[0].Video.ResolutionTypes",
        ),
        main_bitrate_range: range_of(
            body,
            "headMain.Video.BitRateOptions",
            ".MainFormat[0].Video.BitRateOptions",
        ),
        extra_bitrate_range: range_of(
            body,
            "headExtra.Video.BitRateOptions",
            ".ExtraFormat[1].Video.BitRateOptions",
        ),
        main_fps_max: fps_of(body, "headMain.Video.FPSMax", ".MainFormat[0].Video.FPSMax"),
        extra_fps_max: fps_of(body, "headExtra.Video.FPSMax", ".ExtraFormat[1].Video.FPSMax"),
    }
}

// --- What a report says, value by value ---

/// A mode is offered where the camera has it: one of 3840x2160, 2688x1520, 1920x1080 and
/// 1280x720 at 15 frames per second, whose resolution it reports and whose frame rate it
/// reaches. Where it has none of these, the last two are offered.
pub proof fn law_offered_modes_are_supported(
    resolutions: Seq<(u16, u16)>,
    fps_max: Option<u8>,
    mode: (u16, u16, u8),
)
    ensures
        ({
            let known = mode == (3840u16, 2160u16, 15u8) || mode == (2688u16, 1520u16, 15u8) || mode
                == (1920u16, 1080u16, 15u8) || mode == (1280u16, 720u16, 15u8);
            let fast = fps_max is None || fps_max->0 >= 15;
            let any = fast && (resolutions.contains((3840u16, 2160u16)) || resolutions.contains(
                (2688u16, 1520u16),
            ) || resolutions.contains((1920u16, 1080u16)) || resolutions.contains(
                (1280u16, 720u16),
            ));
            let offered = recording_modes(resolutions, fps_max);
            &&& any ==> (offered.contains(mode) <==> known && resolutions.contains((mode.0, mode.1)))
            &&& !any ==> (offered.contains(mode) <==> mode == (1920u16, 1080u16, 15u8) || mode == (
                1280u16,
                720u16,
                15u8,
            ))
        }),
{
    let all = recording_candidates();
    let offered = recording_modes(resolutions, fps_max);
    assert(all[0] == (3840u16, 2160u16, 15u8) && all[1] == (2688u16, 1520u16, 15u8) && all[2] == (
        1920u16,
        1080u16,
        15u8,
    ) && all[3] == (1280u16, 720u16, 15u8));
    lemma_supported_member(resolutions, fps_max, all, mode);
    lemma_supported_member(resolutions, fps_max, all, all[0]);
    lemma_supported_member(resolutions, fps_max, all, all[1]);
    lemma_supported_member(resolutions, fps_max, all, all[2]);
    lemma_supported_member(resolutions, fps_max, all, all[3]);
    assert(all.contains(mode) <==> mode == all[0] || mode == all[1] || mode == all[2] || mode
        == all[3]) by {
        if all.contains(mode) {
            let k = choose|k: int| 0 <= k < all.len() && all[k] == mode;
            assert(k == 0 || k == 1 || k == 2 || k == 3);
        }
    }
    let supported = supported_modes(resolutions, fps_max, all);
    if supported.len() > 0 {
        let first = supported[0];
        assert(supported.contains(first));
        lemma_supported_member(resolutions, fps_max, all, first);
        let k = choose|k: int| 0 <= k < all.len() && all[k] == first;
        assert(k == 0 || k == 1 || k == 2 || k == 3);
    } else {
        let fallback = recording_fallback();
        assert(fallback[0] == (1920u16, 1080u16, 15u8) && fallback[1] == (1280u16, 720u16, 15u8));
        if fallback.contains(mode) {
            let k = choose|k: int| 0 <= k < fallback.len() && fallback[k] == mode;
            assert(k == 0 || k == 1);
        }
    }
}

proof fn lemma_supported_member(
    resolutions: Seq<(u16, u16)>,
    fps_max: Option<u8>,
    modes: Seq<(u16, u16, u8)>,
    mode: (u16, u16, u8),
)
    ensures
        supported_modes(resolutions, fps_max, modes).contains(mode) <==> modes.contains(mode)
            && mode_supported(resolutions, fps_max, mode),
    decreases modes.len(),
{
    let all = supported_modes(resolutions, fps_max, modes);
    if modes.len() > 0 {
        let front = modes.drop_last();
        let before = supported_modes(resolutions, fps_max, front);
        let last = modes[modes.len() - 1];
        lemma_supported_member(resolutions, fps_max, front, mode);
        if all.contains(mode) {
            let k = choose|k: int| 0 <= k < all.len() && all[k] == mode;
            if k < before.len() {
                assert(before[k] == mode);
                assert(before.contains(mode));
                let i = choose|i: int| 0 <= i < front.len() && front[i] == mode;
                assert(modes[i] == mode);
            } else {
                assert(modes[modes.len() - 1] == mode);
            }
        }
        if modes.contains(mode) && mode_supported(resolutions, fps_max, mode) {
            let i = choose|i: int| 0 <= i < modes.len() && modes[i] == mode;
            if i < front.len() {
                assert(front[i] == mode);
                assert(before.contains(mode));
                let k = choose|k: int| 0 <= k < before.len() && before[k] == mode;
                assert(all[k] == mode);
            } else {
                assert(all[all.len() - 1] == mode);
            }
        }
    }
}

/// Names stand for the resolutions that they are used for; no other text is a name.
pub proof fn law_resolutions_have_names(name: Seq<char>)
    ensures
        name == "QFHD"@ ==> named_resolution(name) == Some((3840u16, 2160u16)),
        name == "4K"@ ==> named_resolution(name) == Some((3840u16, 2160u16)),
        name == "1080"@ ==> named_resolution(name) == Some((1920u16, 1080u16)),
        name == "1080P"@ ==> named_resolution(name) == Some((1920u16, 1080u16)),
        name == "720"@ ==> named_resolution(name) == Some((1280u16, 720u16)),
        name == "720P"@ ==> named_resolution(name) == Some((1280u16, 720u16)),
        name == "D1"@ ==> named_resolution(name) == Some((704u16, 480u16)),
        name == "VGA"@ ==> named_resolution(name) == Some((640u16, 480u16)),
        name == "CIF"@ ==> named_resolution(name) == Some((352u16, 240u16)),
        name != "QFHD"@ && name != "4K"@ && name != "1080"@ && name != "1080P"@ && name != "720"@ && name != "720P"@ && name != "D1"@ && name != "VGA"@ && name != "CIF"@ ==> named_resolution(name) is None,
{
    reveal_strlit("QFHD");
    reveal_strlit("4K");
    reveal_strlit("1080");
    reveal_strlit("1080P");
    reveal_strlit("720");
    reveal_strlit("720P");
    reveal_strlit("D1");
    reveal_strlit("VGA");
    reveal_strlit("CIF");
    assert("QFHD"@.len() == 4 && "QFHD"@[0] == 'Q');
    assert("4K"@.len() == 2 && "4K"@[0] == '4');
    assert("1080"@.len() == 4 && "1080"@[0] == '1');
    assert("1080P"@.len() == 5);
    assert("720"@.len() == 3 && "720"@[0] == '7');
    assert("720P"@.len() == 4 && "720P"@[0] == '7');
    assert("D1"@.len() == 2 && "D1"@[0] == 'D');
    assert("VGA"@.len() == 3 && "VGA"@[0] == 'V');
    assert("CIF"@.len() == 3 && "CIF"@[0] == 'C');
}

/// Neither spaces nor the case of letters matter in a resolution.
pub proof fn law_resolutions_are_read_in_any_case(s: Seq<char>, c: char)
    ensures
        compact_upper(s.push(' ')) == compact_upper(s),
        c != ' ' && !('a' <= c <= 'z') ==> compact_upper(s.push(c)) == compact_upper(s).push(c),
        'a' <= c <= 'z' ==> compact_upper(s.push(c)) == compact_upper(s).push(
            ('A' as u32 + (c as u32 - 'a' as u32)) as char,
        ),
        compact_upper(Seq::empty()) == Seq::<char>::empty(),
{
    assert(s.push(c).drop_last() =~= s);
    assert(s.push(' ').drop_last() =~= s);
}

proof fn lemma_digits_stay(s: Seq<char>)
    requires
        all_digits(s),
    ensures
        compact_upper(s) == s,
        s.len() > 0 && digits_value(s) <= u16::MAX ==> numbers_in(s) == seq![digits_value(s) as u16],
    decreases s.len(),
{
    if s.len() > 0 {
        let front = s.drop_last();
        assert forall|i: int| 0 <= i < front.len() implies is_digit(#[trigger] front[i]) by {
            assert(is_digit(s[i]));
        }
        assert(is_digit(s[s.len() - 1]));
        lemma_digits_stay(front);
        assert(front.push(s.last()) =~= s);
        assert(s.skip(0) =~= s);
        lemma_trailing_is(s, s.len() as int);
        let none = s.take(0);
        assert(none =~= Seq::empty());
        assert(numbers_in(none) =~= Seq::empty());
        assert(Seq::<u16>::empty().push(digits_value(s) as u16) =~= seq![digits_value(s) as u16]);
    }
}

proof fn lemma_compact_concat(a: Seq<char>, b: Seq<char>)
    ensures
        compact_upper(a + b) == compact_upper(a) + compact_upper(b),
    decreases b.len(),
{
    if b.len() == 0 {
        assert(a + b =~= a);
        assert(compact_upper(a) + compact_upper(b) =~= compact_upper(a));
    } else {
        let s = a + b;
        assert(s.drop_last() =~= a + b.drop_last());
        lemma_compact_concat(a, b.drop_last());
        assert(compact_upper(s) =~= compact_upper(a) + compact_upper(b));
    }
}

/// A resolution that is written as its width, an `x` and its height is read as those.
pub proof fn law_a_resolution_is_read_by_its_numbers(width: u16, height: u16)
    ensures
        parsed_resolution(decimal(width as nat) + seq!['x'] + decimal(height as nat)) == Some(
            (width, height),
        ),
        parsed_resolution(decimal(width as nat) + seq!['*'] + decimal(height as nat)) == Some(
            (width, height),
        ),
{
    lemma_written_resolution(width, height, 'x');
    lemma_written_resolution(width, height, '*');
}

proof fn lemma_written_resolution(width: u16, height: u16, c: char)
    requires
        c == 'x' || c == '*',
    ensures
        parsed_resolution(decimal(width as nat) + seq![c] + decimal(height as nat)) == Some(
            (width, height),
        ),
{
    let w = decimal(width as nat);
    let h = decimal(height as nat);
    let raw = w + seq![c] + h;
    lemma_decimal(width as nat);
    lemma_decimal(height as nat);
    assert(is_digit(w[0]) && is_digit(h[h.len() - 1]));
    assert(raw[0] == w[0] && raw.last() == h[h.len() - 1]);
    assert(trimmed(raw) == raw);
    lemma_digits_stay(w);
    lemma_digits_stay(h);
    lemma_compact_concat(w + seq![c], h);
    lemma_compact_concat(w, seq![c]);
    let d = ascii_upper(c);
    assert(seq![c].drop_last() =~= Seq::empty());
    assert(compact_upper(seq![c].drop_last()) =~= Seq::empty());
    assert(compact_upper(seq![c]) =~= seq![d]);
    let text = w + seq![d] + h;
    assert(compact_upper(raw) == text);
    assert(text[0] == w[0] && text[w.len() as int] == d && text[text.len() - 1] == h[h.len() - 1]);
    assert(!is_digit(d));
    law_resolutions_have_names(text);
    lemma_names_without(text, w.len() as int);
    let front = w.push(d);
    assert(text.skip(text.len() - h.len()) =~= h);
    assert(text.take(text.len() - h.len()) =~= front);
    lemma_trailing_is(text, h.len() as int);
    assert(front.skip(front.len() as int) =~= Seq::empty());
    lemma_trailing_is(front, 0);
    assert(front.drop_last() =~= w);
    assert(numbers_in(front) == numbers_in(w));
    assert(numbers_in(text) == numbers_in(front).push(height));
}

/// A text that starts and ends with a digit and has something else in between is no
/// name.
proof fn lemma_names_without(text: Seq<char>, at: int)
    requires
        0 < at < text.len() - 1,
        is_digit(text[0]),
        is_digit(text[text.len() - 1]),
        !is_digit(text[at]),
    ensures
        text != "QFHD"@ && text != "4K"@ && text != "1080"@ && text != "1080P"@ && text != "720"@ && text != "720P"@ && text != "D1"@ && text != "VGA"@ && text != "CIF"@,
{
    reveal_strlit("QFHD");
    reveal_strlit("4K");
    reveal_strlit("1080");
    reveal_strlit("1080P");
    reveal_strlit("720");
    reveal_strlit("720P");
    reveal_strlit("D1");
    reveal_strlit("VGA");
    reveal_strlit("CIF");
    assert("QFHD"@.len() == 4 && "QFHD"@[0] == 'Q');
    assert("4K"@.len() == 2 && "4K"@[0] == '4');
    assert("1080"@.len() == 4 && "1080"@[0] == '1');
    assert("1080P"@.len() == 5);
    assert("720"@.len() == 3 && "720"@[0] == '7');
    assert("720P"@.len() == 4 && "720P"@[0] == '7');
    assert("D1"@.len() == 2 && "D1"@[0] == 'D');
    assert("VGA"@.len() == 3 && "VGA"@[0] == 'V');
    assert("CIF"@.len() == 3 && "CIF"@[0] == 'C');
    assert("QFHD"@[0] == 'Q' && "4K"@[1] == 'K' && "1080P"@[4] == 'P' && "720P"@[3] == 'P'
        && "D1"@[0] == 'D' && "VGA"@[0] == 'V' && "CIF"@[0] == 'C');
    if text == "1080"@ {
        assert(at == 1 || at == 2);
        assert("1080"@[1] == '0' && "1080"@[2] == '8');
    }
    if text == "720"@ {
        assert(at == 1);
        assert("720"@[1] == '2');
    }
}

/// A line gives a value for a capability where its key is the documented one, one of the
/// entries of that, or holds the form of other firmware; the value is what stands behind
/// the first equals sign, without white space around it.
pub proof fn law_a_line_gives_its_value(
    key: Seq<char>,
    value: Seq<char>,
    documented: Seq<char>,
    indexed: Seq<char>,
)
    requires
        !key.contains('='),
        trimmed(key.push('=') + value) == key.push('=') + value,
    ensures
        ({
            let line = key.push('=') + value;
            let entry = key.len() > documented.len() && key.take(documented.len() as int)
                == documented && key[documented.len() as int] == '[';
            let other = exists|i: int|
                0 <= i <= key.len() - indexed.len() && #[trigger] key.subrange(i, i + indexed.len())
                    == indexed;
            &&& key == documented || entry || other ==> capability_value(line, documented, indexed)
                == Some(trimmed(value))
            &&& key != documented && !entry && !other ==> capability_value(
                line,
                documented,
                indexed,
            ) is None
        }),
{
    let line = key.push('=') + value;
    assert(line[key.len() as int] == '=');
    assert(line.contains('='));
    line.index_of_first_ensures('=');
    let i = line.index_of_first('=')->0;
    if i < key.len() {
        assert(key[i] == line[i]);
        assert(key.contains('='));
    }
    assert(i == key.len());
    assert(line.take(i) =~= key);
    assert(line.skip(i + 1) =~= value);
    law_searching_finds_the_first_place(key, indexed);
    reveal_strlit("[");
    assert("["@.len() == 1 && "["@[0] == '[');
    let prefix = documented + "["@;
    let n = documented.len() as int;
    if key.len() > n {
        let head = key.take(n + 1);
        assert(head.take(n) =~= key.take(n));
        assert(prefix.take(n) =~= documented);
        assert(head[n] == key[n] && prefix[n] == '[');
        if key.take(n) == documented && key[n] == '[' {
            assert(head =~= prefix);
        }
    }
}

/// The values of a capability are those of its lines, in their order and with commas
/// between them; without any there is none.
pub proof fn law_values_are_collected(
    lines: Seq<Seq<char>>,
    line: Seq<char>,
    documented: Seq<char>,
    indexed: Seq<char>,
)
    ensures
        line_values(Seq::empty(), documented, indexed) == Seq::<Seq<char>>::empty(),
        match capability_value(line, documented, indexed) {
            Some(v) => line_values(lines.push(line), documented, indexed) == line_values(
                lines,
                documented,
                indexed,
            ).push(v),
            None => line_values(lines.push(line), documented, indexed) == line_values(
                lines,
                documented,
                indexed,
            ),
        },
{
    assert(lines.push(line).drop_last() =~= lines);
}

/// A range is given by the first two numbers of a list, and a frame rate by its first
/// part.
pub proof fn law_a_range_has_two_numbers(low: u32, high: u32, fps: u8)
    ensures
        parsed_range(decimal(low as nat) + seq![','] + decimal(high as nat)) == Some((low, high)),
        parsed_range(decimal(low as nat)) is None,
        parsed_fps(decimal(fps as nat)) == Some(fps),
        parsed_fps(decimal(fps as nat) + seq![','] + decimal(high as nat)) == Some(fps),
{
    lemma_one_number(low as nat);
    lemma_one_number(high as nat);
    lemma_one_number(fps as nat);
    lemma_two_parts(decimal(low as nat), decimal(high as nat));
    lemma_two_parts(decimal(fps as nat), decimal(high as nat));
    let a = decimal(low as nat);
    let b = decimal(high as nat);
    let two = seq![a, b];
    let one = seq![a];
    assert(two.drop_last() =~= one);
    assert(one.drop_last() =~= Seq::empty());
    assert(rates_in(one.drop_last()) =~= Seq::empty());
    assert(rates_in(one) =~= seq![low]);
    assert(rates_in(two) =~= seq![low, high]);
    lemma_single_part(a);
    lemma_single_part(decimal(fps as nat));
}

proof fn lemma_single_part(a: Seq<char>)
    requires
        all_digits(a),
    ensures
        split_on(a, ',') == seq![a],
{
    a.index_of_first_ensures(',');
    if a.contains(',') {
        let k = choose|k: int| 0 <= k < a.len() && a[k] == ',';
        assert(is_digit(a[k]));
    }
}

proof fn lemma_two_parts(a: Seq<char>, b: Seq<char>)
    requires
        all_digits(a) && all_digits(b),
    ensures
        split_on(a + seq![','] + b, ',') == seq![a, b],
{
    let s = a + seq![','] + b;
    assert(s[a.len() as int] == ',');
    assert(s.contains(','));
    s.index_of_first_ensures(',');
    let i = s.index_of_first(',')->0;
    if i < a.len() {
        assert(s[i] == a[i]);
        assert(is_digit(a[i]));
    }
    assert(i == a.len());
    assert(s.take(i) =~= a);
    assert(s.skip(i + 1) =~= b);
    lemma_single_part(b);
    assert(split_on(s, ',') =~= seq![a, b]);
}

proof fn lemma_one_number(n: nat)
    ensures
        all_digits(decimal(n)),
        trimmed(decimal(n)) == decimal(n),
        n <= u32::MAX ==> parsed_unsigned(decimal(n), u32::MAX as nat) == Some(n),
        n <= u8::MAX ==> parsed_unsigned(decimal(n), u8::MAX as nat) == Some(n),
{
    lemma_decimal(n);
    assert(is_digit(decimal(n)[0]) && is_digit(decimal(n)[decimal(n).len() - 1]));
    if n <= u32::MAX {
        law_decimal_reads_back(n, u32::MAX as nat);
    }
    if n <= u8::MAX {
        law_decimal_reads_back(n, u8::MAX as nat);
    }
}

/// What a report gives for a capability are the values of its lines with a comma between
/// each two; a report without any gives nothing.
pub proof fn law_a_report_gives_all_values(
    body: Seq<char>,
    documented: Seq<char>,
    indexed: Seq<char>,
)
    ensures
        ({
            let values = line_values(lines_of(body), documented, indexed);
            &&& values.len() == 0 ==> reported_values(body, documented, indexed) is None
            &&& values.len() > 0 ==> reported_values(body, documented, indexed) == Some(
                joined(values, seq![',']),
            )
        }),
{
    reveal_strlit(",");
    assert(","@ =~= seq![',']);
}

/// The resolutions of a list are those that one of its parts spells, each once.
pub proof fn law_every_resolution_of_the_list_is_read(
    parts: Seq<Seq<char>>,
    resolution: (u16, u16),
)
    ensures
        distinct_resolutions(parts).contains(resolution) <==> exists|i: int|
            0 <= i < parts.len() && parsed_resolution(#[trigger] parts[i]) == Some(resolution),
    decreases parts.len(),
{
    let all = distinct_resolutions(parts);
    if parts.len() > 0 {
        let front = parts.drop_last();
        let last = parts[parts.len() - 1];
        let before = distinct_resolutions(front);
        law_every_resolution_of_the_list_is_read(front, resolution);
        assert forall|i: int| 0 <= i < front.len() implies parts[i] == #[trigger] front[i] by {}
        if before.contains(resolution) {
            let i = choose|i: int|
                0 <= i < front.len() && parsed_resolution(#[trigger] front[i]) == Some(resolution);
            assert(parsed_resolution(parts[i]) == Some(resolution));
            let k = choose|k: int| 0 <= k < before.len() && before[k] == resolution;
            assert(all[k] == resolution);
        }
        if all.contains(resolution) && !before.contains(resolution) {
            let k = choose|k: int| 0 <= k < all.len() && all[k] == resolution;
            if k < before.len() {
                assert(before[k] == resolution);
            }
            assert(parsed_resolution(last) == Some(resolution));
        }
        if exists|i: int|
            0 <= i < parts.len() && parsed_resolution(#[trigger] parts[i]) == Some(resolution) {
            let i = choose|i: int|
                0 <= i < parts.len() && parsed_resolution(#[trigger] parts[i]) == Some(resolution);
            if i < front.len() {
                assert(parsed_resolution(front[i]) == Some(resolution));
            } else if !before.contains(resolution) {
                assert(all[all.len() - 1] == resolution);
            }
        }
    }
}

/// What is reported for a capability is read as its kind: a list of resolutions, a range
/// or a frame rate. Where nothing is reported there is none.
pub proof fn law_reports_are_read_as_their_kind(
    body: Seq<char>,
    documented: Seq<char>,
    indexed: Seq<char>,
)
    ensures
        match reported_values(body, documented, indexed) {
            Some(value) => {
                &&& reported_resolutions(body, documented, indexed) == distinct_resolutions(
                    split_on(value, ','),
                )
                &&& reported_range(body, documented, indexed) == parsed_range(value)
                &&& reported_fps(body, documented, indexed) == parsed_fps(value)
            },
            None => {
                &&& reported_resolutions(body, documented, indexed).len() == 0
                &&& reported_range(body, documented, indexed) is None
                &&& reported_fps(body, documented, indexed) is None
            },
        },
{
}

} // verus!
