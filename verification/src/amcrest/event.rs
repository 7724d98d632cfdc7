//! The camera's event stream: lines such as
//! `Code=SmartMotionHuman;action=Start;index=0;data={...}`.

use vstd::prelude::*;
use vstd::string::*;
use super::table::{json_contents, json_text, Table};
use crate::text::{chars_of, copy_chars, cut_at, decimal, law_decimal_reads_back, lemma_decimal, lossy, parse_unsigned, parsed_unsigned, position_of, seq_views, spells, split, split_on, split_once, starts, starts_with, string_of, text_of, trim, trimmed};

verus! {

/// The events asked for.
pub const EVENT_CODES: &'static str =
    "SmartMotionHuman,SmartMotionVehicle,CrossLineDetection,CrossRegionDetection";

/// The path of the event stream.
pub fn event_stream_path() -> (path: String)
    ensures
        path@ == "/cgi-bin/eventManager.cgi?action=attach&codes=["@ + EVENT_CODES@ + "]"@,
        path@ == "/cgi-bin/eventManager.cgi?action=attach&codes=["@
            + "SmartMotionHuman,SmartMotionVehicle,CrossLineDetection,CrossRegionDetection"@ + "]"@,
{
    let mut path = String::from_str("/cgi-bin/eventManager.cgi?action=attach&codes=[");
    path.append(EVENT_CODES);
    path.append("]");
    path
}

/// An event of the camera's detection.
#[derive(Debug)]
pub struct CameraEvent {
    pub code: String,
    pub action: String,
    pub index: u32,
    /// What the camera tells about it, as compact JSON.
    pub data: String,
    /// When it was read, in milliseconds since 1970-01-01T00:00:00 UTC.
    pub timestamp: i64,
}

/// The mathematical value of what an event line holds.
pub ghost struct EventView {
    pub code: Seq<char>,
    pub action: Seq<char>,
    pub index: u32,
    pub data: Seq<char>,
}

impl View for CameraEvent {
    type V = EventView;

    open spec fn view(&self) -> EventView {
        EventView {
            code: self.code@,
            action: self.action@,
            index: self.index,
            data: self.data@,
        }
    }
}

impl Clone for CameraEvent {
    fn clone(&self) -> (r: Self)
        ensures
            r == *self,
    {
        CameraEvent {
            code: self.code.clone(),
            action: self.action.clone(),
            index: self.index,
            data: self.data.clone(),
            timestamp: self.timestamp,
        }
    }
}

/// A JSON text in compact form; `null` for a text that is no JSON.
pub open spec fn compact_json(text: Seq<char>) -> Seq<char> {
    match json_contents(text) {
        Some(contents) => json_text(contents),
        None => "null"@,
    }
}

fn compact(text: &str) -> (s: String)
    ensures
        s@ == compact_json(text@),
{
    match Table::from_text(text) {
        Some(table) => table.to_text(),
        None => String::from_str("null"),
    }
}

/// The parts of `s` between the first `n - 1` characters `c`; the last part holds
/// the rest.
pub open spec fn split_at_most(s: Seq<char>, c: char, n: nat) -> Seq<Seq<char>>
    decreases n,
{
    if n <= 1 {
        seq![s]
    } else {
        match s.index_of_first(c) {
            Some(i) => seq![s.take(i)] + split_at_most(s.skip(i + 1), c, (n - 1) as nat),
            None => seq![s],
        }
    }
}

fn split_limited(s: &[char], c: char, n: usize) -> (parts: Vec<Vec<char>>)
    ensures
        seq_views(parts@) == split_at_most(s@, c, n as nat),
    decreases n,
{
    let mut parts: Vec<Vec<char>> = Vec::new();
    if n > 1 {
        if let Some(i) = position_of(s, c) {
            let len: usize = s.len();
            let head = copy_chars(&s[0..i]);
            let rest = &s[i + 1..len];
            assert(rest@ =~= s@.skip(i + 1));
            assert(head@ =~= s@.take(i as int));
            parts.push(head);
            let mut tail = split_limited(rest, c, n - 1);
            let ghost t = tail@;
            parts.append(&mut tail);
            assert(seq_views(parts@) =~= seq![s@.take(i as int)] + seq_views(t));
            return parts;
        }
    }
    parts.push(copy_chars(s));
    assert(seq_views(parts@) =~= seq![s@]);
    parts
}

/// What has been read of an event line.
pub ghost struct Fields {
    pub code: Option<Seq<char>>,
    pub action: Option<Seq<char>>,
    pub index: u32,
    pub data: Seq<char>,
}

/// What has been read after one more part of the line.
pub open spec fn with_part(f: Fields, part: Seq<char>) -> Fields {
    match cut_at(part, '=') {
        None => f,
        Some((key, value)) => if trimmed(key) == "Code"@ {
            Fields { code: Some(value), ..f }
        } else if trimmed(key) == "action"@ {
            Fields { action: Some(value), ..f }
        } else if trimmed(key) == "index"@ {
            Fields {
                index: match parsed_unsigned(value, u32::MAX as nat) {
                    Some(n) => n as u32,
                    None => 0,
                },
                ..f
            }
        } else if trimmed(key) == "data"@ {
            Fields { data: compact_json(value), ..f }
        } else {
            f
        },
    }
}

/// What the parts of a line hold.
pub open spec fn fields_of(parts: Seq<Seq<char>>) -> Fields
    decreases parts.len(),
{
    if parts.len() == 0 {
        Fields { code: None, action: None, index: 0, data: "null"@ }
    } else {
        with_part(fields_of(parts.drop_last()), parts.last())
    }
}

/// The event in a line that has a code and an action.
pub open spec fn parsed_event(line: Seq<char>) -> Option<EventView> {
    let f = fields_of(split_at_most(line, ';', 4));
    if f.code is Some && f.action is Some {
        Some(EventView { code: f.code->0, action: f.action->0, index: f.index, data: f.data })
    } else {
        None
    }
}

/// The event in a line, read at the time `now`.
pub fn parse_event_line(line: &[char], now: i64) -> (r: Option<CameraEvent>)
    ensures
        match r {
            Some(event) => parsed_event(line@) == Some(event@) && event.timestamp == now,
            None => parsed_event(line@) is None,
        },
{
    let parts = split_limited(line, ';', 4);
    let ghost views = split_at_most(line@, ';', 4);
    let mut code: Option<String> = None;
    let mut action: Option<String> = None;
    let mut index: u32 = 0;
    let mut data = String::from_str("null");
    let mut i: usize = 0;
    assert(views.take(0) =~= Seq::empty());
    while i < parts.len()
        invariant
            i <= parts@.len(),
            views == seq_views(parts@),
            ({
                let f = fields_of(views.take(i as int));
                &&& f.code == (match code {
                    Some(s) => Some(s@),
                    None => None,
                })
                &&& f.action == (match action {
                    Some(s) => Some(s@),
                    None => None,
                })
                &&& f.index == index
                &&& f.data == data@
            }),
        decreases parts@.len() - i,
    {
        assert(views.take(i + 1).drop_last() =~= views.take(i as int));
        assert(views.take(i + 1).last() == parts@[i as int]@);
        if let Some((key, value)) = split_once(parts[i].as_slice(), '=') {
            let name = trim(key.as_slice());
            if spells(name.as_slice(), "Code") {
                code = Some(string_of(value.as_slice()));
            } else if spells(name.as_slice(), "action") {
                action = Some(string_of(value.as_slice()));
            } else if spells(name.as_slice(), "index") {
                index = match parse_unsigned(value.as_slice(), 0xffff_ffff) {
                    Some(n) => n as u32,
                    None => 0,
                };
            } else if spells(name.as_slice(), "data") {
                let text = string_of(value.as_slice());
                data = compact(text.as_str());
            }
        }
        i = i + 1;
    }
    assert(views.take(i as int) =~= views);
    match (code, action) {
        (Some(code), Some(action)) => Some(
            CameraEvent { code, action, index, data, timestamp: now },
        ),
        _ => None,
    }
}

// --- The stream ---

/// The event that a line of the stream stands for.
pub open spec fn line_event(line: Seq<char>) -> Option<EventView> {
    if starts(trimmed(line), "Code="@) {
        parsed_event(trimmed(line))
    } else {
        None
    }
}

/// The events in lines of the stream, in their order.
pub open spec fn line_events(lines: Seq<Seq<char>>) -> Seq<EventView>
    decreases lines.len(),
{
    if lines.len() == 0 {
        Seq::empty()
    } else {
        let before = line_events(lines.drop_last());
        match line_event(lines.last()) {
            Some(event) => before.push(event),
            None => before,
        }
    }
}

/// What is kept of the stream after more text: what stands behind the last line
/// feed.
pub open spec fn kept_after(buffer: Seq<char>, text: Seq<char>) -> Seq<char> {
    split_on(buffer + text, '\n').last()
}

/// The events that more text brings: those in the lines that it completes.
pub open spec fn events_after(buffer: Seq<char>, text: Seq<char>) -> Seq<EventView> {
    line_events(split_on(buffer + text, '\n').drop_last())
}

/// The mathematical values of a list of events.
pub open spec fn event_views(events: Seq<CameraEvent>) -> Seq<EventView> {
    Seq::new(events.len(), |i: int| events[i]@)
}

/// The event stream as it comes in, cut anywhere.
#[derive(Debug)]
pub struct EventBuffer {
    buffer: Vec<char>,
}

impl View for EventBuffer {
    type V = Seq<char>;

    closed spec fn view(&self) -> Seq<char> {
        self.buffer@
    }
}

impl EventBuffer {
    pub fn new() -> (b: Self)
        ensures
            b@ == Seq::<char>::empty(),
    {
        EventBuffer { buffer: Vec::new() }
    }

    /// Takes in a piece of the stream and gives the events in the lines it
    /// completes.
    pub fn feed(&mut self, chunk: &[u8], now: i64) -> (events: Vec<CameraEvent>)
        ensures
            final(self)@ == kept_after(old(self)@, text_of(chunk@)),
            event_views(events@) == events_after(old(self)@, text_of(chunk@)),
            forall|i: int| 0 <= i < events@.len() ==> (#[trigger] events@[i]).timestamp == now,
    {
        let text = lossy(chunk);
        let mut more = chars_of(text.as_str());
        let ghost whole = self.buffer@ + text@;
        self.buffer.append(&mut more);
        assert(self.buffer@ =~= whole);
        let mut parts = split(self.buffer.as_slice(), '\n');
        let ghost views = split_on(whole, '\n');
        let mut events: Vec<CameraEvent> = Vec::new();
        let n: usize = parts.len() - 1;
        let mut i: usize = 0;
        assert(views.take(0) =~= Seq::empty());
        assert(event_views(events@) =~= Seq::empty());
        while i < n
            invariant
                i <= n,
                n + 1 == parts@.len(),
                views == seq_views(parts@),
                event_views(events@) == line_events(views.take(i as int)),
                forall|j: int| 0 <= j < events@.len() ==> (#[trigger] events@[j]).timestamp == now,
            decreases n - i,
        {
            let ghost done = events@;
            assert(views.take(i + 1).drop_last() =~= views.take(i as int));
            assert(views.take(i + 1).last() == parts@[i as int]@);
            let line = trim(parts[i].as_slice());
            let mark = chars_of("Code=");
            if starts_with(line.as_slice(), mark.as_slice()) {
                if let Some(event) = parse_event_line(line.as_slice(), now) {
                    let ghost e = event@;
                    events.push(event);
                    assert(event_views(events@) =~= event_views(done).push(e));
                }
            }
            i = i + 1;
        }
        assert(views.take(n as int) =~= views.drop_last());
        let last = copy_chars(parts[n].as_slice());
        assert(last@ == views.last());
        self.buffer = last;
        events
    }
}

proof fn lemma_index_of_first_in_front(x: Seq<char>, y: Seq<char>, c: char)
    requires
        x.contains(c),
    ensures
        (x + y).index_of_first(c) == x.index_of_first(c),
{
    x.index_of_first_ensures(c);
    let i = x.index_of_first(c)->0;
    assert((x + y)[i] == c);
    assert((x + y).contains(c));
    (x + y).index_of_first_ensures(c);
    let j = (x + y).index_of_first(c)->0;
    if j < i {
        assert(x[j] == c);
    }
}

/// Splitting goes on from the last part.
proof fn lemma_split_continues(x: Seq<char>, y: Seq<char>, c: char)
    ensures
        split_on(x, c).len() > 0,
        split_on(x + y, c) == split_on(x, c).drop_last() + split_on(split_on(x, c).last() + y, c),
    decreases x.len(),
{
    x.index_of_first_ensures(c);
    match x.index_of_first(c) {
        None => {
            assert(split_on(x, c).drop_last() =~= Seq::empty());
            assert(Seq::<Seq<char>>::empty() + split_on(x + y, c) =~= split_on(x + y, c));
        },
        Some(i) => {
            let rest = x.skip(i + 1);
            lemma_index_of_first_in_front(x, y, c);
            assert((x + y).take(i) =~= x.take(i));
            assert((x + y).skip(i + 1) =~= rest + y);
            lemma_split_continues(rest, y, c);
            let head = seq![x.take(i)];
            assert((head + split_on(rest, c)).last() == split_on(rest, c).last());
            assert((head + split_on(rest, c)).drop_last() =~= head + split_on(rest, c).drop_last());
            assert(split_on(x + y, c) =~= split_on(x, c).drop_last() + split_on(
                split_on(x, c).last() + y,
                c,
            ));
        },
    }
}

proof fn lemma_line_events_concat(a: Seq<Seq<char>>, b: Seq<Seq<char>>)
    ensures
        line_events(a + b) == line_events(a) + line_events(b),
    decreases b.len(),
{
    if b.len() == 0 {
        assert(a + b =~= a);
        assert(line_events(a) + line_events(b) =~= line_events(a));
    } else {
        lemma_line_events_concat(a, b.drop_last());
        assert((a + b).drop_last() =~= a + b.drop_last());
        assert((a + b).last() == b.last());
        assert(line_events(a + b) =~= line_events(a) + line_events(b));
    }
}

/// It does not matter where the stream's text is cut: two pieces bring the same
/// events, in the same order, as both at once, and leave the same rest.
pub proof fn law_events_ignore_how_the_stream_is_cut(
    buffer: Seq<char>,
    first: Seq<char>,
    second: Seq<char>,
)
    ensures
        events_after(buffer, first) + events_after(kept_after(buffer, first), second)
            == events_after(buffer, first + second),
        kept_after(kept_after(buffer, first), second) == kept_after(buffer, first + second),
{
    let x = buffer + first;
    assert(buffer + (first + second) =~= x + second);
    lemma_split_continues(x, second, '\n');
    lemma_split_continues(split_on(x, '\n').last() + second, Seq::empty(), '\n');
    let early = split_on(x, '\n').drop_last();
    let late = split_on(split_on(x, '\n').last() + second, '\n');
    assert((early + late).drop_last() =~= early + late.drop_last());
    lemma_line_events_concat(early, late.drop_last());
}

// --- What is read of a line ---

/// A text is cut at the first of a character.
proof fn lemma_cut(a: Seq<char>, c: char, b: Seq<char>)
    requires
        !a.contains(c),
    ensures
        cut_at(a.push(c) + b, c) == Some((a, b)),
        forall|n: nat|
            n > 1 ==> #[trigger] split_at_most(a.push(c) + b, c, n) == seq![a] + split_at_most(
                b,
                c,
                (n - 1) as nat,
            ),
{
    let s = a.push(c) + b;
    assert(s[a.len() as int] == c);
    assert(s.contains(c));
    s.index_of_first_ensures(c);
    let i = s.index_of_first(c)->0;
    if i < a.len() {
        assert(a[i] == s[i]);
        assert(a.contains(c));
    }
    assert(i == a.len());
    assert(s.take(i) =~= a);
    assert(s.skip(i + 1) =~= b);
}

proof fn lemma_names()
    ensures
        trimmed("Code"@) == "Code"@,
        trimmed("action"@) == "action"@,
        trimmed("index"@) == "index"@,
        trimmed("data"@) == "data"@,
        !"Code"@.contains('=') && !"Code"@.contains(';'),
        !"action"@.contains('=') && !"action"@.contains(';'),
        !"index"@.contains('=') && !"index"@.contains(';'),
        !"data"@.contains('=') && !"data"@.contains(';'),
        "Code"@ != "action"@ && "Code"@ != "index"@ && "Code"@ != "data"@,
        "action"@ != "index"@ && "action"@ != "data"@ && "index"@ != "data"@,
        "Code="@ == "Code"@.push('='),
{
    reveal_strlit("Code");
    reveal_strlit("action");
    reveal_strlit("index");
    reveal_strlit("data");
    reveal_strlit("Code=");
    assert("Code"@.len() == 4 && "action"@.len() == 6 && "index"@.len() == 5 && "data"@.len() == 4);
    assert("Code"@[0] == 'C' && "data"@[0] == 'd');
    assert("Code"@.last() == 'e' && "action"@.last() == 'n' && "index"@.last() == 'x'
        && "data"@.last() == 'a');
    assert("action"@[0] == 'a' && "index"@[0] == 'i');
    assert("Code="@ =~= "Code"@.push('='));
}

/// A part of a line gives the field that it names the value behind the first equals
/// sign, and changes no other field; a part without an equals sign or with another name
/// changes none.
pub proof fn law_a_part_sets_its_field(f: Fields, key: Seq<char>, value: Seq<char>, n: u32)
    requires
        !key.contains('='),
    ensures
        ({
            let g = with_part(f, key.push('=') + value);
            let name = trimmed(key);
            &&& g.code == (if name == "Code"@ {
                Some(value)
            } else {
                f.code
            })
            &&& g.action == (if name == "action"@ {
                Some(value)
            } else {
                f.action
            })
            &&& name == "index"@ && value == decimal(n as nat) ==> g.index == n
            &&& name != "index"@ ==> g.index == f.index
            &&& g.data == (if name == "data"@ {
                compact_json(value)
            } else {
                f.data
            })
            &&& with_part(f, key) == f
        }),
{
    lemma_names();
    lemma_cut(key, '=', value);
    law_decimal_reads_back(n as nat, u32::MAX as nat);
    key.index_of_first_ensures('=');
}

/// A line of the camera's gives the event that it was written for: its code and its
/// action up to the next semicolon, its index, and as its data everything behind the
/// third semicolon, whatever it holds.
pub proof fn law_an_event_is_read_as_it_was_written(
    code: Seq<char>,
    action: Seq<char>,
    index: u32,
    data: Seq<char>,
)
    requires
        !code.contains(';'),
        !action.contains(';'),
    ensures
        ({
            let line = ("Code"@.push('=') + code).push(';') + (("action"@.push('=') + action).push(
                ';',
            ) + (("index"@.push('=') + decimal(index as nat)).push(';') + ("data"@.push('=')
                + data)));
            parsed_event(line) == Some(
                EventView { code, action, index, data: compact_json(data) },
            )
        }),
{
    lemma_names();
    let a = "Code"@.push('=') + code;
    let b = "action"@.push('=') + action;
    let c = "index"@.push('=') + decimal(index as nat);
    let d = "data"@.push('=') + data;
    lemma_decimal(index as nat);
    assert(!a.contains(';')) by {
        lemma_no_semicolon("Code"@, code);
    }
    assert(!b.contains(';')) by {
        lemma_no_semicolon("action"@, action);
    }
    assert(!c.contains(';')) by {
        assert(!decimal(index as nat).contains(';'));
        lemma_no_semicolon("index"@, decimal(index as nat));
    }
    let three = c.push(';') + d;
    let two = b.push(';') + three;
    let line = a.push(';') + two;
    lemma_cut(a, ';', two);
    lemma_cut(b, ';', three);
    lemma_cut(c, ';', d);
    let parts = split_at_most(line, ';', 4);
    assert(split_at_most(d, ';', 1) == seq![d]);
    assert(split_at_most(three, ';', 2) =~= seq![c, d]);
    assert(split_at_most(two, ';', 3) =~= seq![b, c, d]);
    assert(parts =~= seq![a, b, c, d]);
    let none = Fields { code: None, action: None, index: 0, data: "null"@ };
    let f1 = with_part(none, a);
    let f2 = with_part(f1, b);
    let f3 = with_part(f2, c);
    law_a_part_sets_its_field(none, "Code"@, code, 0);
    law_a_part_sets_its_field(f1, "action"@, action, 0);
    law_a_part_sets_its_field(f2, "index"@, decimal(index as nat), index);
    law_a_part_sets_its_field(f3, "data"@, data, 0);
    let p3 = parts.drop_last();
    let p2 = p3.drop_last();
    let p1 = p2.drop_last();
    assert(p1.drop_last() =~= Seq::empty());
    assert(p1.last() == a && p2.last() == b && p3.last() == c && parts.last() == d);
    assert(fields_of(p1.drop_last()) == none);
    assert(fields_of(p1) == f1);
    assert(fields_of(p2) == f2);
    assert(fields_of(p3) == f3);
}

proof fn lemma_no_semicolon(name: Seq<char>, value: Seq<char>)
    requires
        !name.contains(';'),
        !value.contains(';'),
    ensures
        !(name.push('=') + value).contains(';'),
{
    let s = name.push('=') + value;
    if s.contains(';') {
        let i = choose|i: int| 0 <= i < s.len() && s[i] == ';';
        if i < name.len() {
            assert(name[i] == ';');
        } else if i > name.len() {
            assert(value[i - name.len() - 1] == ';');
        }
    }
}

/// Without a code or without an action there is no event.
pub proof fn law_an_event_has_a_code_and_an_action(parts: Seq<Seq<char>>)
    ensures
        fields_of(parts).code is Some ==> exists|i: int|
            0 <= i < parts.len() && (cut_at(#[trigger] parts[i], '=') matches Some((key, value))
                && trimmed(key) == "Code"@ && Some(value) == fields_of(parts).code),
        fields_of(parts).action is Some ==> exists|i: int|
            0 <= i < parts.len() && (cut_at(#[trigger] parts[i], '=') matches Some((key, value))
                && trimmed(key) == "action"@ && Some(value) == fields_of(parts).action),
    decreases parts.len(),
{
    if parts.len() > 0 {
        lemma_names();
        let front = parts.drop_last();
        law_an_event_has_a_code_and_an_action(front);
        let f = fields_of(front);
        let g = fields_of(parts);
        let last = parts[parts.len() - 1];
        if g.code is Some && g.code == f.code {
            let i = choose|i: int|
                0 <= i < front.len() && (cut_at(#[trigger] front[i], '=') matches Some((key, value))
                    && trimmed(key) == "Code"@ && Some(value) == f.code);
            assert(parts[i] == front[i]);
        }
        if g.action is Some && g.action == f.action {
            let i = choose|i: int|
                0 <= i < front.len() && (cut_at(#[trigger] front[i], '=') matches Some((key, value))
                    && trimmed(key) == "action"@ && Some(value) == f.action);
            assert(parts[i] == front[i]);
        }
    }
}

/// Lines that do not start with `Code=`, white space aside, bring no event, and no line
/// brings more than one.
pub proof fn law_only_code_lines_bring_events(lines: Seq<Seq<char>>, line: Seq<char>)
    ensures
        ({
            let text = trimmed(line);
            let code = text.len() >= 5 && text[0] == 'C' && text[1] == 'o' && text[2] == 'd' && text[3]
                == 'e' && text[4] == '=';
            &&& !code ==> line_events(lines.push(line)) == line_events(lines)
            &&& code && parsed_event(text) is None ==> line_events(lines.push(line)) == line_events(
                lines,
            )
            &&& code && parsed_event(text) is Some ==> line_events(lines.push(line)) == line_events(
                lines,
            ).push(parsed_event(text)->0)
            &&& line_events(Seq::empty()) == Seq::<EventView>::empty()
        }),
{
    reveal_strlit("Code=");
    let text = trimmed(line);
    let mark = "Code="@;
    assert(mark.len() == 5 && mark[0] == 'C' && mark[1] == 'o' && mark[2] == 'd' && mark[3] == 'e'
        && mark[4] == '=');
    if text.len() >= 5 {
        let head = text.take(5);
        assert(head[0] == text[0] && head[1] == text[1] && head[2] == text[2] && head[3] == text[3]
            && head[4] == text[4]);
        if text[0] == 'C' && text[1] == 'o' && text[2] == 'd' && text[3] == 'e' && text[4] == '=' {
            assert(head =~= mark);
        }
    }
    assert(lines.push(line).drop_last() =~= lines);
}

/// What is no JSON counts as `null`, and so does the data of an event that has none.
pub proof fn law_missing_data_is_null(text: Seq<char>, code: Seq<char>, action: Seq<char>)
    requires
        !code.contains(';'),
        !action.contains(';'),
    ensures
        json_contents(text) is None ==> compact_json(text) == seq!['n', 'u', 'l', 'l'],
        json_contents(text) matches Some(contents) ==> compact_json(text) == json_text(contents),
        parsed_event(
            ("Code"@.push('=') + code).push(';') + ("action"@.push('=') + action),
        ) == Some(
            EventView { code, action, index: 0, data: seq!['n', 'u', 'l', 'l'] },
        ),
{
    reveal_strlit("null");
    assert("null"@ =~= seq!['n', 'u', 'l', 'l']);
    lemma_names();
    let a = "Code"@.push('=') + code;
    let b = "action"@.push('=') + action;
    lemma_no_semicolon("Code"@, code);
    lemma_no_semicolon("action"@, action);
    let line = a.push(';') + b;
    lemma_cut(a, ';', b);
    b.index_of_first_ensures(';');
    assert(split_at_most(b, ';', 3) == seq![b]);
    let parts = split_at_most(line, ';', 4);
    assert(parts =~= seq![a, b]);
    let none = Fields { code: None, action: None, index: 0, data: "null"@ };
    let f1 = with_part(none, a);
    law_a_part_sets_its_field(none, "Code"@, code, 0);
    law_a_part_sets_its_field(f1, "action"@, action, 0);
    let p1 = parts.drop_last();
    assert(p1.drop_last() =~= Seq::empty());
    assert(p1.last() == a && parts.last() == b);
    assert(fields_of(p1.drop_last()) == none);
    assert(fields_of(p1) == f1);
}

/// A line is an event only with both a code and an action: one part alone, whatever it
/// says, is none.
pub proof fn law_one_part_is_no_event(line: Seq<char>, parts: Seq<Seq<char>>)
    requires
        parts == split_at_most(line, ';', 4),
    ensures
        fields_of(parts).code is None ==> parsed_event(line) is None,
        fields_of(parts).action is None ==> parsed_event(line) is None,
        fields_of(parts).code is Some && fields_of(parts).action is Some ==> parsed_event(
            line,
        ) is Some,
        !line.contains(';') ==> parsed_event(line) is None,
{
    if !line.contains(';') {
        line.index_of_first_ensures(';');
        assert(parts =~= seq![line]);
        let none = Fields { code: None, action: None, index: 0, data: "null"@ };
        assert(parts.drop_last() =~= Seq::empty());
        assert(fields_of(parts.drop_last()) == none);
        assert(fields_of(parts) == with_part(none, line));
        lemma_names();
    }
}

} // verus!
