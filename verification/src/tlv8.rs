//! TLV8 encoder and decoder for the HAP camera streaming payloads.
//!
//! A TLV8 item is a tag byte, a length byte and as many bytes of value. A value
//! longer than 255 bytes is written as consecutive items with the same tag, all
//! but the last of them full. Repeated items of one tag are kept apart by a
//! zero-length item with tag 0.

use vstd::prelude::*;
use crate::wire::{le_bytes, le_value, lemma_le_bytes_len, lemma_le_value_bound, lemma_pow256_values, push_le, read_le};

verus! {

/// The bytes that stand for one item, cut into fragments of at most 255 bytes.
pub open spec fn fragments(tag: u8, value: Seq<u8>) -> Seq<u8>
    decreases value.len(),
{
    if value.len() <= 255 {
        seq![tag, value.len() as u8] + value
    } else {
        seq![tag, 255u8] + value.take(255) + fragments(tag, value.skip(255))
    }
}

/// The mathematical value of an item: its tag and its bytes.
pub type ItemView = (u8, Seq<u8>);

/// Whether a fragment with tag `tag` continues the last of `items`: the same
/// tag, and the fragment before it, `previous` bytes long, was full.
pub open spec fn continues(items: Seq<ItemView>, previous: nat, tag: u8) -> bool {
    &&& items.len() > 0
    &&& items.last().0 == tag
    &&& previous == 255
}

/// The items after one more fragment, behind one of `previous` bytes.
pub open spec fn add_fragment(
    items: Seq<ItemView>,
    previous: nat,
    tag: u8,
    value: Seq<u8>,
) -> Seq<ItemView> {
    if continues(items, previous, tag) {
        items.drop_last().push((tag, items.last().1 + value))
    } else {
        items.push((tag, value))
    }
}

/// Where the fragment that starts `data` ends; a length that runs past the end
/// stops there.
pub open spec fn fragment_end(data: Seq<u8>) -> int {
    if 2 + data[1] <= data.len() {
        2 + data[1]
    } else {
        data.len() as int
    }
}

/// The items after all the fragments in `data`, behind one of `previous` bytes. A
/// single byte at the end is no fragment.
pub open spec fn parse_onto(items: Seq<ItemView>, previous: nat, data: Seq<u8>) -> Seq<ItemView>
    decreases data.len(),
{
    if data.len() < 2 {
        items
    } else {
        let value = data.subrange(2, fragment_end(data));
        parse_onto(
            add_fragment(items, previous, data[0], value),
            value.len(),
            data.skip(fragment_end(data)),
        )
    }
}

/// The items that `data` holds.
pub open spec fn parsed(data: Seq<u8>) -> Seq<ItemView> {
    parse_onto(Seq::empty(), 0, data)
}

/// The value of the first item with tag `tag`.
pub open spec fn first_value(items: Seq<ItemView>, tag: u8) -> Option<Seq<u8>>
    decreases items.len(),
{
    if items.len() == 0 {
        None
    } else if items[0].0 == tag {
        Some(items[0].1)
    } else {
        first_value(items.skip(1), tag)
    }
}

/// The bytes that stand for a list of items.
pub open spec fn encoded(items: Seq<ItemView>) -> Seq<u8>
    decreases items.len(),
{
    if items.len() == 0 {
        Seq::empty()
    } else {
        encoded(items.drop_last()) + fragments(items.last().0, items.last().1)
    }
}

/// One more item puts its fragments behind the bytes of the others.
pub broadcast proof fn lemma_encoded_push(items: Seq<ItemView>, item: ItemView)
    ensures
        #[trigger] encoded(items.push(item)) == encoded(items) + fragments(item.0, item.1),
{
    assert(items.push(item).drop_last() =~= items);
}

/// The length of the last fragment of a value.
pub open spec fn last_fragment(value: Seq<u8>) -> nat
    decreases value.len(),
{
    if value.len() <= 255 {
        value.len()
    } else {
        last_fragment(value.skip(255))
    }
}

/// Whether no item of the list would be read as the continuation of the one
/// before it: that has another tag, or its last fragment is not full.
pub open spec fn separable(items: Seq<ItemView>) -> bool {
    forall|i: int|
        0 < i < items.len() ==> (#[trigger] items[i]).0 != items[i - 1].0 || !ends_full(
            items[i - 1].1,
        )
}

/// Whether the last fragment of a value is full.
pub open spec fn ends_full(value: Seq<u8>) -> bool {
    value.len() > 0 && value.len() % 255 == 0
}

proof fn lemma_ends_full(value: Seq<u8>)
    ensures
        ends_full(value) <==> last_fragment(value) == 255,
    decreases value.len(),
{
    if value.len() > 255 {
        lemma_ends_full(value.skip(255));
    }
}

/// A TLV8 container being written.
#[derive(Debug)]
pub struct Writer {
    buf: Vec<u8>,
}

impl View for Writer {
    type V = Seq<u8>;

    closed spec fn view(&self) -> Seq<u8> {
        self.buf@
    }
}

impl Default for Writer {
    fn default() -> (w: Self)
        ensures
            w@ == Seq::<u8>::empty(),
    {
        Writer { buf: Vec::new() }
    }
}

impl Writer {
    pub fn new() -> (w: Self)
        ensures
            w@ == Seq::<u8>::empty(),
    {
        Writer { buf: Vec::new() }
    }

    pub fn u8(&mut self, tag: u8, value: u8) -> (r: &mut Self)
        ensures
            r@ == old(self)@ + seq![tag, 1u8, value],
            r@ == old(self)@ + fragments(tag, seq![value]),
            *final(self) == *final(r),
    {
        let mut b: Vec<u8> = Vec::new();
        b.push(value);
        self.append(tag, b.as_slice());
        assert(b@ =~= seq![value]);
        assert(self@ =~= old(self)@ + seq![tag, 1u8, value]);
        self
    }

    pub fn u16(&mut self, tag: u8, value: u16) -> (r: &mut Self)
        ensures
            r@ == old(self)@ + seq![tag, 2u8] + le_bytes(value as nat, 2),
            r@ == old(self)@ + fragments(tag, le_bytes(value as nat, 2)),
            *final(self) == *final(r),
    {
        let mut b: Vec<u8> = Vec::new();
        push_le(&mut b, value as u64, 2);
        proof {
            lemma_le_bytes_len(value as nat, 2);
            assert(b@ =~= le_bytes(value as nat, 2));
        }
        self.append(tag, b.as_slice());
        assert(self@ =~= old(self)@ + seq![tag, 2u8] + le_bytes(value as nat, 2));
        self
    }

    pub fn u32(&mut self, tag: u8, value: u32) -> (r: &mut Self)
        ensures
            r@ == old(self)@ + seq![tag, 4u8] + le_bytes(value as nat, 4),
            r@ == old(self)@ + fragments(tag, le_bytes(value as nat, 4)),
            *final(self) == *final(r),
    {
        let mut b: Vec<u8> = Vec::new();
        push_le(&mut b, value as u64, 4);
        proof {
            lemma_le_bytes_len(value as nat, 4);
            assert(b@ =~= le_bytes(value as nat, 4));
        }
        self.append(tag, b.as_slice());
        assert(self@ =~= old(self)@ + seq![tag, 4u8] + le_bytes(value as nat, 4));
        self
    }

    pub fn bytes(&mut self, tag: u8, value: &[u8]) -> (r: &mut Self)
        ensures
            r@ == old(self)@ + fragments(tag, value@),
            *final(self) == *final(r),
    {
        self.append(tag, value);
        self
    }

    /// Writes a zero-length item of type 0, the delimiter between repeated items
    /// of the same type.
    pub fn delimiter(&mut self) -> (r: &mut Self)
        ensures
            r@ == old(self)@ + seq![0u8, 0u8],
            r@ == old(self)@ + fragments(0, Seq::empty()),
            *final(self) == *final(r),
    {
        self.buf.push(0x00);
        self.buf.push(0);
        assert(self@ =~= old(self)@ + seq![0u8, 0u8]);
        assert(fragments(0, Seq::empty()) =~= seq![0u8, 0u8]);
        self
    }

    /// Hands out what was written and starts over.
    pub fn build(&mut self) -> (out: Vec<u8>)
        ensures
            out@ == old(self)@,
            final(self)@ == Seq::<u8>::empty(),
    {
        let mut out: Vec<u8> = Vec::new();
        out.append(&mut self.buf);
        out
    }

    fn append(&mut self, tag: u8, value: &[u8])
        ensures
            final(self)@ == old(self)@ + fragments(tag, value@),
    {
        let mut i: usize = 0;
        assert(value@.skip(0) =~= value@);
        while value.len() - i > 255
            invariant
                i <= value@.len(),
                self@ + fragments(tag, value@.skip(i as int)) == old(self)@ + fragments(tag, value@),
            decreases value@.len() - i,
        {
            let ghost before = self@;
            self.buf.push(tag);
            self.buf.push(255);
            self.buf.extend_from_slice(&value[i..i + 255]);
            proof {
                let rest = value@.skip(i as int);
                assert(rest.take(255) =~= value@.subrange(i as int, i + 255));
                assert(rest.skip(255) =~= value@.skip(i + 255));
                assert(before + fragments(tag, rest) =~= self@ + fragments(tag, value@.skip(i + 255)));
            }
            i = i + 255;
        }
        let ghost before = self@;
        let len: usize = value.len() - i;
        self.buf.push(tag);
        self.buf.push(len as u8);
        self.buf.extend_from_slice(&value[i..value.len()]);
        proof {
            let rest = value@.skip(i as int);
            assert(rest =~= value@.subrange(i as int, value@.len() as int));
            assert(self@ =~= before + fragments(tag, rest));
        }
    }
}

/// A parsed TLV8 item.
#[derive(Debug)]
pub struct Item {
    pub tag: u8,
    pub value: Vec<u8>,
}

impl View for Item {
    type V = ItemView;

    open spec fn view(&self) -> ItemView {
        (self.tag, self.value@)
    }
}

impl Clone for Item {
    fn clone(&self) -> (r: Self)
        ensures
            r@ == self@,
    {
        Item { tag: self.tag, value: self.value.clone() }
    }
}

/// The mathematical values of a list of items.
pub open spec fn item_views(items: Seq<Item>) -> Seq<ItemView> {
    Seq::new(items.len(), |i: int| items[i]@)
}

/// Parses a TLV8 buffer into items, merging fragmented items: consecutive
/// items of the same tag where the previous fragment was 255 bytes long.
pub fn parse(data: &[u8]) -> (items: Vec<Item>)
    ensures
        item_views(items@) == parsed(data@),
{
    let mut items: Vec<Item> = Vec::new();
    let mut i: usize = 0;
    let mut previous: usize = 0;
    assert(item_views(items@) =~= Seq::empty());
    assert(data@.skip(0) =~= data@);
    while data.len() - i >= 2
        invariant
            i <= data@.len(),
            parse_onto(item_views(items@), previous as nat, data@.skip(i as int)) == parsed(data@),
        decreases data@.len() - i,
    {
        let tag: u8 = data[i];
        let len: usize = data[i + 1] as usize;
        let end: usize = if len <= data.len() - i - 2 {
            i + 2 + len
        } else {
            data.len()
        };
        let value = &data[i + 2..end];
        let ghost before = items@;
        let ghost rest = data@.skip(i as int);
        proof {
            assert(rest.subrange(2, fragment_end(rest)) =~= value@);
            assert(rest.skip(fragment_end(rest)) =~= data@.skip(end as int));
        }
        let n: usize = items.len();
        let merge: bool = n > 0 && items[n - 1].tag == tag && previous == 255;
        if merge {
            let last = items.pop();
            if let Some(mut item) = last {
                item.value.extend_from_slice(value);
                items.push(item);
            }
        } else {
            let mut copy: Vec<u8> = Vec::new();
            copy.extend_from_slice(value);
            items.push(Item { tag, value: copy });
            assert(copy@ =~= value@);
        }
        assert(item_views(items@) =~~= add_fragment(
            item_views(before),
            previous as nat,
            tag,
            value@,
        ));
        previous = value.len();
        i = end;
    }
    items
}

/// Returns the value of the first item with the given tag.
pub fn find(items: &[Item], tag: u8) -> (value: Option<&[u8]>)
    ensures
        match value {
            Some(v) => first_value(item_views(items@), tag) == Some(v@),
            None => first_value(item_views(items@), tag) is None,
        },
{
    let mut i: usize = 0;
    assert(item_views(items@).skip(0) =~= item_views(items@));
    while i < items.len()
        invariant
            i <= items@.len(),
            first_value(item_views(items@), tag) == first_value(
                item_views(items@).skip(i as int),
                tag,
            ),
        decreases items@.len() - i,
    {
        if items[i].tag == tag {
            return Some(items[i].value.as_slice());
        }
        assert(item_views(items@).skip(i as int).skip(1) =~= item_views(items@).skip(i + 1));
        i = i + 1;
    }
    None
}

/// The first byte of the first item with the given tag.
pub fn find_u8(items: &[Item], tag: u8) -> (value: Option<u8>)
    ensures
        value == match first_value(item_views(items@), tag) {
            Some(v) if v.len() > 0 => Some(v[0]),
            _ => None,
        },
{
    match find(items, tag) {
        Some(v) => if v.len() > 0 {
            Some(v[0])
        } else {
            None
        },
        None => None,
    }
}

/// The little-endian number in the first item with the given tag, where that
/// item has two bytes.
pub fn find_u16(items: &[Item], tag: u8) -> (value: Option<u16>)
    ensures
        match first_value(item_views(items@), tag) {
            Some(v) if v.len() == 2 => value is Some && value->0 == le_value(v),
            _ => value is None,
        },
{
    match find(items, tag) {
        Some(v) => if v.len() == 2 {
            proof {
                lemma_le_value_bound(v@);
                lemma_pow256_values();
            }
            Some(read_le(v) as u16)
        } else {
            None
        },
        None => None,
    }
}

/// The little-endian number in the first item with the given tag, where that
/// item has four bytes.
pub fn find_u32(items: &[Item], tag: u8) -> (value: Option<u32>)
    ensures
        match first_value(item_views(items@), tag) {
            Some(v) if v.len() == 4 => value is Some && value->0 == le_value(v),
            _ => value is None,
        },
{
    match find(items, tag) {
        Some(v) => if v.len() == 4 {
            proof {
                lemma_le_value_bound(v@);
                lemma_pow256_values();
            }
            Some(read_le(v) as u32)
        } else {
            None
        },
        None => None,
    }
}

/// Further fragments of an item whose last fragment was full go to the end of that
/// item.
proof fn lemma_continued(items: Seq<ItemView>, tag: u8, value: Seq<u8>, rest: Seq<u8>)
    requires
        continues(items, 255, tag),
    ensures
        parse_onto(items, 255, fragments(tag, value) + rest) == parse_onto(
            items.drop_last().push((tag, items.last().1 + value)),
            last_fragment(value),
            rest,
        ),
    decreases value.len(),
{
    let data = fragments(tag, value) + rest;
    if value.len() <= 255 {
        assert(data.subrange(2, fragment_end(data)) =~= value);
        assert(data.skip(fragment_end(data)) =~= rest);
    } else {
        let more = fragments(tag, value.skip(255));
        let head = value.take(255);
        assert(data.subrange(2, fragment_end(data)) =~= head);
        assert(data.skip(fragment_end(data)) =~= more + rest);
        let longer = items.drop_last().push((tag, items.last().1 + head));
        lemma_continued(longer, tag, value.skip(255), rest);
        assert(longer.drop_last() =~= items.drop_last());
        assert(items.last().1 + head + value.skip(255) =~= items.last().1 + value);
    }
}

/// Parsing the fragments of one item adds that item.
pub proof fn lemma_parse_item(
    items: Seq<ItemView>,
    previous: nat,
    tag: u8,
    value: Seq<u8>,
    rest: Seq<u8>,
)
    requires
        !continues(items, previous, tag),
    ensures
        parse_onto(items, previous, fragments(tag, value) + rest) == parse_onto(
            items.push((tag, value)),
            last_fragment(value),
            rest,
        ),
{
    let data = fragments(tag, value) + rest;
    if value.len() <= 255 {
        assert(data.subrange(2, fragment_end(data)) =~= value);
        assert(data.skip(fragment_end(data)) =~= rest);
    } else {
        let more = fragments(tag, value.skip(255));
        let head = value.take(255);
        assert(data.subrange(2, fragment_end(data)) =~= head);
        assert(data.skip(fragment_end(data)) =~= more + rest);
        let grown = items.push((tag, head));
        lemma_continued(grown, tag, value.skip(255), rest);
        assert(grown.drop_last() =~= items);
        assert(head + value.skip(255) =~= value);
    }
}

/// The length of the fragment that a list of items ends with.
spec fn end_fragment(items: Seq<ItemView>) -> nat {
    if items.len() == 0 {
        0
    } else {
        last_fragment(items.last().1)
    }
}

proof fn lemma_parse_encoded(items: Seq<ItemView>, rest: Seq<u8>)
    requires
        separable(items),
    ensures
        parse_onto(Seq::empty(), 0, encoded(items) + rest) == parse_onto(
            items,
            end_fragment(items),
            rest,
        ),
    decreases items.len(),
{
    if items.len() == 0 {
        assert(encoded(items) + rest =~= rest);
        assert(items =~= Seq::empty());
    } else {
        let front = items.drop_last();
        let last = items.last();
        let tail = fragments(last.0, last.1) + rest;
        assert(encoded(items) + rest =~= encoded(front) + tail);
        assert forall|i: int| 0 < i < front.len() implies (#[trigger] front[i]).0 != front[i - 1].0
            || !ends_full(front[i - 1].1) by {
            assert(items[i].0 != items[i - 1].0 || !ends_full(items[i - 1].1));
        }
        lemma_parse_encoded(front, tail);
        if front.len() > 0 {
            assert(items[items.len() - 1] == last);
            assert(front.last() == items[items.len() - 2]);
            lemma_ends_full(front.last().1);
        }
        lemma_parse_item(front, end_fragment(front), last.0, last.1, rest);
        assert(front.push(last) =~= items);
    }
}

/// Parsing what was written gives back the items, whatever their lengths, unless
/// an item whose length is a nonzero multiple of 255 is followed directly by one
/// of the same tag.
pub proof fn law_parse_inverts_write(items: Seq<ItemView>)
    requires
        separable(items),
    ensures
        parsed(encoded(items)) == items,
{
    lemma_parse_encoded(items, Seq::empty());
    assert(encoded(items) + Seq::<u8>::empty() =~= encoded(items));
}

/// The values `values` as items of tag `tag`, with delimiters between them.
pub open spec fn delimited(tag: u8, values: Seq<Seq<u8>>) -> Seq<ItemView>
    decreases values.len(),
{
    if values.len() == 0 {
        Seq::empty()
    } else if values.len() == 1 {
        seq![(tag, values[0])]
    } else {
        delimited(tag, values.drop_last()) + seq![(0u8, Seq::empty()), (tag, values.last())]
    }
}

/// Repeated items of one nonzero tag with delimiters between them are read back
/// as they were written, whatever their lengths.
pub proof fn law_delimiters_keep_items_apart(tag: u8, values: Seq<Seq<u8>>)
    requires
        tag != 0,
    ensures
        parsed(encoded(delimited(tag, values))) == delimited(tag, values),
{
    lemma_delimited_separable(tag, values);
    law_parse_inverts_write(delimited(tag, values));
}

proof fn lemma_delimited_separable(tag: u8, values: Seq<Seq<u8>>)
    requires
        tag != 0,
    ensures
        separable(delimited(tag, values)),
        values.len() > 0 ==> delimited(tag, values).len() > 0 && delimited(tag, values).last().0
            == tag,
    decreases values.len(),
{
    let items = delimited(tag, values);
    if values.len() > 1 {
        lemma_delimited_separable(tag, values.drop_last());
        let front = delimited(tag, values.drop_last());
        assert forall|i: int| 0 < i < items.len() implies (#[trigger] items[i]).0 != items[i
            - 1].0 || !ends_full(items[i - 1].1) by {
            if i < front.len() {
                assert(items[i] == front[i]);
                assert(items[i - 1] == front[i - 1]);
            } else if i == front.len() {
                assert(items[i - 1] == front.last());
                assert(items[i].0 == 0);
            } else {
                assert(items[i - 1].0 == 0);
            }
        }
    }
}

/// Neighbours with different tags keep a list separable.
pub proof fn lemma_different_neighbours(items: Seq<ItemView>)
    requires
        forall|i: int| 0 < i < items.len() ==> #[trigger] items[i].0 != items[i - 1].0,
    ensures
        separable(items),
{
}

proof fn lemma_first_value_at(items: Seq<ItemView>, k: int)
    requires
        0 <= k < items.len(),
        forall|j: int| 0 <= j < k ==> (#[trigger] items[j]).0 != items[k].0,
    ensures
        first_value(items, items[k].0) == Some(items[k].1),
    decreases k,
{
    if k > 0 {
        assert(items[0].0 != items[k].0);
        let rest = items.skip(1);
        assert(rest[k - 1] == items[k]);
        assert forall|j: int| 0 <= j < k - 1 implies (#[trigger] rest[j]).0 != rest[k - 1].0 by {
            assert(rest[j] == items[j + 1]);
        }
        lemma_first_value_at(rest, k - 1);
    }
}

/// A list of items with ascending tags reads back item by item.
pub proof fn lemma_ascending_reads_back(items: Seq<ItemView>)
    requires
        forall|i: int, j: int| 0 <= i < j < items.len() ==> (#[trigger] items[i]).0 < (
        #[trigger] items[j]).0,
    ensures
        parsed(encoded(items)) == items,
        forall|k: int|
            0 <= k < items.len() ==> first_value(items, (#[trigger] items[k]).0) == Some(
                items[k].1,
            ),
{
    assert forall|i: int| 0 < i < items.len() implies #[trigger] items[i].0 != items[i - 1].0 by {
        assert(items[i - 1].0 < items[i].0);
    }
    lemma_different_neighbours(items);
    law_parse_inverts_write(items);
    assert forall|k: int| 0 <= k < items.len() implies first_value(items, (#[trigger] items[k]).0)
        == Some(items[k].1) by {
        lemma_first_value_at(items, k);
    }
}

// --- What is on the wire ---

/// An item of up to 255 bytes is its tag, its length and its bytes; a longer one has its
/// first 255 bytes in a fragment of its own, with the same tag as the rest. The items of
/// a list follow each other.
pub proof fn law_items_are_written_one_after_the_other(
    a: Seq<ItemView>,
    tag: u8,
    value: Seq<u8>,
)
    ensures
        value.len() <= 255 ==> encoded(a.push((tag, value))) == encoded(a) + seq![
            tag,
            value.len() as u8,
        ] + value,
        value.len() > 255 ==> encoded(a.push((tag, value))) == encoded(a) + seq![tag, 255u8]
            + value.take(255) + encoded(seq![(tag, value.skip(255))]),
        encoded(Seq::empty()) == Seq::<u8>::empty(),
{
    lemma_encoded_push(a, (tag, value));
    if value.len() > 255 {
        let none = Seq::<ItemView>::empty();
        lemma_encoded_push(none, (tag, value.skip(255)));
        assert(none.push((tag, value.skip(255))) =~= seq![(tag, value.skip(255))]);
        assert(encoded(none) + fragments(tag, value.skip(255)) =~= fragments(tag, value.skip(255)));
        assert(encoded(a) + (seq![tag, 255u8] + value.take(255) + fragments(tag, value.skip(255)))
            =~= encoded(a) + seq![tag, 255u8] + value.take(255) + fragments(tag, value.skip(255)));
    } else {
        assert(encoded(a) + (seq![tag, value.len() as u8] + value) =~= encoded(a) + seq![
            tag,
            value.len() as u8,
        ] + value);
    }
}

/// Two fragments are one item where they have the same tag and the first is full, with
/// 255 bytes; else they are two.
pub proof fn law_full_fragments_go_on(tag: u8, value: Seq<u8>, next: u8, rest: Seq<u8>)
    requires
        value.len() <= 255,
        rest.len() <= 255,
    ensures
        ({
            let data = seq![tag, value.len() as u8] + value + seq![next, rest.len() as u8] + rest;
            if tag == next && value.len() == 255 {
                parsed(data) == seq![(tag, value + rest)]
            } else {
                parsed(data) == seq![(tag, value)].push((next, rest))
            }
        }),
{
    let data = seq![tag, value.len() as u8] + value + seq![next, rest.len() as u8] + rest;
    let second = seq![next, rest.len() as u8] + rest;
    let none = Seq::<ItemView>::empty();
    let end = 2 + value.len() as int;
    let last = 2 + rest.len() as int;
    assert(fragment_end(data) == end);
    assert(data.subrange(2, end) =~= value);
    assert(data.skip(end) =~= second);
    assert(none.push((tag, value)) =~= seq![(tag, value)]);
    let one = add_fragment(none, 0, tag, value);
    assert(one == seq![(tag, value)]);
    assert(fragment_end(second) == last);
    assert(second.subrange(2, last) =~= rest);
    assert(second.skip(last) =~= Seq::<u8>::empty());
    let two = add_fragment(one, value.len(), next, rest);
    assert(parse_onto(two, rest.len(), Seq::empty()) == two);
    assert(parse_onto(one, value.len(), second) == two);
    assert(parse_onto(none, 0, data) == two);
    assert(one.drop_last() =~= none);
    if tag == next && value.len() == 255 {
        assert(none.push((tag, value + rest)) =~= seq![(tag, value + rest)]);
    }
}

/// A length that runs past the end of the data stops there, and a single byte at the end
/// is no item.
pub proof fn law_cut_items_are_read_as_far_as_they_go(tag: u8, length: u8, value: Seq<u8>)
    requires
        value.len() <= length,
    ensures
        parsed(seq![tag, length] + value) == seq![(tag, value)],
        parsed(seq![tag]) == Seq::<ItemView>::empty(),
{
    let data = seq![tag, length] + value;
    assert(fragment_end(data) == data.len());
    assert(data.subrange(2, data.len() as int) =~= value);
    assert(data.skip(data.len() as int) =~= Seq::<u8>::empty());
    let one = add_fragment(Seq::empty(), 0, tag, value);
    assert(Seq::<ItemView>::empty().push((tag, value)) =~= seq![(tag, value)]);
    assert(parse_onto(one, value.len(), Seq::empty()) == one);
}

/// The value that is found under a tag is that of the first item with it: no item before
/// it has the tag. Nothing is found where no item has it.
pub proof fn law_the_first_item_is_found(items: Seq<ItemView>, tag: u8)
    ensures
        match first_value(items, tag) {
            Some(v) => exists|i: int|
                0 <= i < items.len() && #[trigger] items[i] == (tag, v) && forall|j: int|
                    0 <= j < i ==> (#[trigger] items[j]).0 != tag,
            None => forall|i: int| 0 <= i < items.len() ==> (#[trigger] items[i]).0 != tag,
        },
    decreases items.len(),
{
    if items.len() > 0 && items[0].0 != tag {
        let rest = items.skip(1);
        law_the_first_item_is_found(rest, tag);
        match first_value(rest, tag) {
            Some(v) => {
                let i = choose|i: int|
                    0 <= i < rest.len() && #[trigger] rest[i] == (tag, v) && forall|j: int|
                        0 <= j < i ==> (#[trigger] rest[j]).0 != tag;
                assert(items[i + 1] == rest[i]);
                assert forall|j: int| 0 <= j < i + 1 implies (#[trigger] items[j]).0 != tag by {
                    if j > 0 {
                        assert(rest[j - 1] == items[j]);
                    }
                }
            },
            None => {
                assert forall|i: int| 0 <= i < items.len() implies (#[trigger] items[i]).0
                    != tag by {
                    if i > 0 {
                        assert(rest[i - 1] == items[i]);
                    }
                }
            },
        }
    } else if items.len() > 0 {
        assert(items[0] == (tag, items[0].1));
    }
}

} // verus!
