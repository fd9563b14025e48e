//! The data items that entry records are made of, in their shortest
//! big-endian form, and how they are written and read.

use vstd::prelude::*;
use vstd::slice::slice_subrange;
use vstd::string::*;
use vstd::utf8::*;

use crate::text::text_of_utf8;

verus! {

/// A data item: a number, a text, or the head of a map with its number of pairs.
#[derive(Debug)]
pub enum Item {
    /// The number `n`.
    Unsigned(u64),
    /// The number `-1 - n`.
    Negative(u64),
    Text(String),
    MapHead(u64),
}

/// Mathematical value of an [`Item`].
pub enum ItemView {
    Unsigned(u64),
    Negative(u64),
    Text(Seq<char>),
    MapHead(u64),
}

impl View for Item {
    type V = ItemView;

    open spec fn view(&self) -> ItemView {
        match self {
            Item::Unsigned(n) => ItemView::Unsigned(*n),
            Item::Negative(n) => ItemView::Negative(*n),
            Item::Text(text) => ItemView::Text(text@),
            Item::MapHead(n) => ItemView::MapHead(*n),
        }
    }
}

/// The views of a sequence of items, in the same order.
pub open spec fn item_views(items: Seq<Item>) -> Seq<ItemView> {
    items.map_values(|item: Item| item@)
}

/// 256 to the power of `width`.
pub open spec fn pow256(width: nat) -> int
    decreases width,
{
    if width == 0 {
        1
    } else {
        256 * pow256((width - 1) as nat)
    }
}

/// The `width` low bytes of `value`, most significant first.
pub open spec fn be_bytes(value: int, width: nat) -> Seq<u8>
    decreases width,
{
    if width == 0 {
        Seq::empty()
    } else {
        be_bytes(value / 256, (width - 1) as nat).push((value % 256) as u8)
    }
}

/// The head of a data item: the major type with the argument in the
/// shortest of its five forms.
pub open spec fn head(major: int, arg: int) -> Seq<u8> {
    if arg < 24 {
        seq![(major * 32 + arg) as u8]
    } else if arg < 0x100 {
        seq![(major * 32 + 24) as u8] + be_bytes(arg, 1)
    } else if arg < 0x1_0000 {
        seq![(major * 32 + 25) as u8] + be_bytes(arg, 2)
    } else if arg < 0x1_0000_0000 {
        seq![(major * 32 + 26) as u8] + be_bytes(arg, 4)
    } else {
        seq![(major * 32 + 27) as u8] + be_bytes(arg, 8)
    }
}

/// Whether the item can be written: the length of a text fits in 64 bits.
pub open spec fn item_ok(item: ItemView) -> bool {
    match item {
        ItemView::Text(text) => encode_utf8(text).len() <= u64::MAX,
        _ => true,
    }
}

/// The bytes of one data item.
pub open spec fn item_bytes(item: ItemView) -> Seq<u8> {
    match item {
        ItemView::Unsigned(n) => head(0, n as int),
        ItemView::Negative(n) => head(1, n as int),
        ItemView::Text(text) => head(3, encode_utf8(text).len() as int) + encode_utf8(text),
        ItemView::MapHead(n) => head(5, n as int),
    }
}

/// The bytes of a sequence of data items, one after the other.
pub open spec fn items_bytes(items: Seq<ItemView>) -> Seq<u8>
    decreases items.len(),
{
    if items.len() == 0 {
        Seq::empty()
    } else {
        item_bytes(items[0]) + items_bytes(items.drop_first())
    }
}

/// The number that `width` bytes from `pos` on hold, most significant first.
pub open spec fn be_value(bytes: Seq<u8>, pos: int, width: int) -> int
    decreases width,
{
    if width <= 0 {
        0
    } else {
        be_value(bytes, pos, width - 1) * 256 + bytes[pos + width - 1] as int
    }
}

/// The head that starts at `pos`: its major type, its argument and the
/// position after it. A head in a longer form than its argument needs is none.
pub open spec fn parse_head(bytes: Seq<u8>, pos: int) -> Option<(int, int, int)> {
    if pos < 0 || pos >= bytes.len() {
        None
    } else {
        let major = bytes[pos] as int / 32;
        let info = bytes[pos] as int % 32;
        if info < 24 {
            Some((major, info, pos + 1))
        } else if info == 24 {
            if pos + 2 <= bytes.len() && be_value(bytes, pos + 1, 1) >= 24 {
                Some((major, be_value(bytes, pos + 1, 1), pos + 2))
            } else {
                None
            }
        } else if info == 25 {
            if pos + 3 <= bytes.len() && be_value(bytes, pos + 1, 2) >= 0x100 {
                Some((major, be_value(bytes, pos + 1, 2), pos + 3))
            } else {
                None
            }
        } else if info == 26 {
            if pos + 5 <= bytes.len() && be_value(bytes, pos + 1, 4) >= 0x1_0000 {
                Some((major, be_value(bytes, pos + 1, 4), pos + 5))
            } else {
                None
            }
        } else if info == 27 {
            if pos + 9 <= bytes.len() && be_value(bytes, pos + 1, 8) >= 0x1_0000_0000 {
                Some((major, be_value(bytes, pos + 1, 8), pos + 9))
            } else {
                None
            }
        } else {
            None
        }
    }
}

/// The data item that starts at `pos`, with the position after it.
pub open spec fn parse_item(bytes: Seq<u8>, pos: int) -> Option<(ItemView, int)> {
    match parse_head(bytes, pos) {
        Some((major, arg, next)) => {
            if major == 0 {
                Some((ItemView::Unsigned(arg as u64), next))
            } else if major == 1 {
                Some((ItemView::Negative(arg as u64), next))
            } else if major == 5 {
                Some((ItemView::MapHead(arg as u64), next))
            } else if major == 3 {
                if next + arg <= bytes.len() && valid_utf8(bytes.subrange(next, next + arg)) {
                    Some((ItemView::Text(decode_utf8(bytes.subrange(next, next + arg))), next + arg))
                } else {
                    None
                }
            } else {
                None
            }
        },
        None => None,
    }
}

/// The data items that fill `bytes` from `pos` to its end.
pub open spec fn parse_items(bytes: Seq<u8>, pos: int) -> Option<Seq<ItemView>>
    decreases bytes.len() - pos,
{
    if pos >= bytes.len() {
        if pos == bytes.len() {
            Some(Seq::empty())
        } else {
            None
        }
    } else {
        match parse_item(bytes, pos) {
            Some((item, next)) => {
                if next > pos {
                    match parse_items(bytes, next) {
                        Some(rest) => Some(seq![item] + rest),
                        None => None,
                    }
                } else {
                    None
                }
            },
            None => None,
        }
    }
}


/// The values of the powers of 256 that the five forms of a head use.
pub proof fn lemma_pow256()
    ensures
        pow256(1) == 0x100,
        pow256(2) == 0x1_0000,
        pow256(4) == 0x1_0000_0000,
        pow256(8) == 0x1_0000_0000_0000_0000,
{
    reveal_with_fuel(pow256, 9);
}

pub proof fn lemma_be_bytes_len(value: int, width: nat)
    ensures
        be_bytes(value, width).len() == width,
    decreases width,
{
    if width > 0 {
        lemma_be_bytes_len(value / 256, (width - 1) as nat);
    }
}

/// Reading the bytes of a number where they were written gives the number.
pub proof fn lemma_be_value_of_bytes(bytes: Seq<u8>, pos: int, value: int, width: nat)
    requires
        0 <= value < pow256(width),
        0 <= pos,
        pos + width <= bytes.len(),
        bytes.subrange(pos, pos + width) == be_bytes(value, width),
    ensures
        be_value(bytes, pos, width as int) == value,
    decreases width,
{
    if width > 0 {
        let shorter = (width - 1) as nat;
        lemma_be_bytes_len(value / 256, shorter);
        let written = be_bytes(value, width);
        assert(bytes.subrange(pos, pos + shorter) =~= written.subrange(0, shorter as int));
        assert(written.subrange(0, shorter as int) =~= be_bytes(value / 256, shorter));
        lemma_be_value_of_bytes(bytes, pos, value / 256, shorter);
        assert(bytes[pos + width - 1] == bytes.subrange(pos, pos + width)[width - 1]);
        assert(written[width - 1] == (value % 256) as u8);
    }
}

/// The number read from some bytes is written as those bytes.
pub proof fn lemma_be_bytes_of_value(bytes: Seq<u8>, pos: int, width: nat)
    requires
        0 <= pos,
        pos + width <= bytes.len(),
    ensures
        0 <= be_value(bytes, pos, width as int) < pow256(width),
        be_bytes(be_value(bytes, pos, width as int), width) == bytes.subrange(pos, pos + width),
    decreases width,
{
    if width > 0 {
        let shorter = (width - 1) as nat;
        lemma_be_bytes_of_value(bytes, pos, shorter);
        let high = be_value(bytes, pos, shorter as int);
        let low = bytes[pos + width - 1] as int;
        let value = be_value(bytes, pos, width as int);
        assert(value == high * 256 + low);
        assert(value / 256 == high);
        assert(value % 256 == low);
        assert(be_bytes(value, width) =~= bytes.subrange(pos, pos + width)) by {
            assert(be_bytes(value, width) == be_bytes(high, shorter).push(low as u8));
            assert(bytes.subrange(pos, pos + width) =~= bytes.subrange(pos, pos + shorter).push(
                bytes[pos + width - 1],
            ));
        }
    } else {
        assert(be_bytes(0, 0) =~= bytes.subrange(pos, pos + 0));
    }
}

/// A head is between one and nine bytes long.
pub proof fn lemma_head_len(major: int, arg: int)
    ensures
        1 <= head(major, arg).len() <= 9,
{
    lemma_be_bytes_len(arg, 1);
    lemma_be_bytes_len(arg, 2);
    lemma_be_bytes_len(arg, 4);
    lemma_be_bytes_len(arg, 8);
}

/// The number of bytes that follow the first byte of the head of `arg`.
pub open spec fn head_width(arg: int) -> nat {
    if arg < 24 {
        0
    } else if arg < 0x100 {
        1
    } else if arg < 0x1_0000 {
        2
    } else if arg < 0x1_0000_0000 {
        4
    } else {
        8
    }
}

/// Reading a head where one was written gives its major type and argument.
pub proof fn lemma_parse_head_of_head(bytes: Seq<u8>, pos: int, major: int, arg: int)
    requires
        0 <= major < 8,
        0 <= arg <= u64::MAX,
        0 <= pos,
        pos + head(major, arg).len() <= bytes.len(),
        bytes.subrange(pos, pos + head(major, arg).len()) == head(major, arg),
    ensures
        parse_head(bytes, pos) == Some((major, arg, pos + head(major, arg).len())),
{
    let h = head(major, arg);
    let width = head_width(arg);
    lemma_pow256();
    lemma_be_bytes_len(arg, width);
    assert(bytes[pos] == bytes.subrange(pos, pos + h.len())[0]);
    assert(h.len() == 1 + width);
    if arg >= 24 {
        assert(h == seq![h[0]] + be_bytes(arg, width));
        assert(bytes.subrange(pos + 1, pos + 1 + width) =~= h.subrange(1, 1 + width as int));
        assert(h.subrange(1, 1 + width as int) =~= be_bytes(arg, width));
        lemma_be_value_of_bytes(bytes, pos + 1, arg, width);
    }
}

/// A head that was read is the head of its major type and argument.
pub proof fn lemma_head_of_parse_head(bytes: Seq<u8>, pos: int)
    requires
        parse_head(bytes, pos) is Some,
    ensures
        ({
            let (major, arg, next) = parse_head(bytes, pos)->Some_0;
            &&& 0 <= major < 8
            &&& 0 <= arg <= u64::MAX
            &&& 0 <= pos < next <= bytes.len()
            &&& bytes.subrange(pos, next) == head(major, arg)
        }),
{
    let (major, arg, next) = parse_head(bytes, pos)->Some_0;
    let info = bytes[pos] as int % 32;
    lemma_pow256();
    let width: nat = if info < 24 {
        0
    } else if info == 24 {
        1
    } else if info == 25 {
        2
    } else if info == 26 {
        4
    } else {
        8
    };
    if info >= 24 {
        lemma_be_bytes_of_value(bytes, pos + 1, width);
        assert(width == head_width(arg));
        assert(bytes.subrange(pos, next) =~= seq![bytes[pos]] + bytes.subrange(
            pos + 1,
            pos + 1 + width,
        ));
        assert(bytes[pos] == (major * 32 + info) as u8);
    } else {
        assert(bytes.subrange(pos, next) =~= seq![bytes[pos]]);
    }
}

/// Reading an item where one was written gives the item.
pub proof fn lemma_parse_item_of_item(bytes: Seq<u8>, pos: int, item: ItemView)
    requires
        item_ok(item),
        0 <= pos,
        pos + item_bytes(item).len() <= bytes.len(),
        bytes.subrange(pos, pos + item_bytes(item).len()) == item_bytes(item),
    ensures
        parse_item(bytes, pos) == Some((item, pos + item_bytes(item).len())),
        item_bytes(item).len() > 0,
{
    let whole = item_bytes(item);
    match item {
        ItemView::Text(text) => {
            let payload = encode_utf8(text);
            let h = head(3, payload.len() as int);
            lemma_head_len(3, payload.len() as int);
            assert(bytes.subrange(pos, pos + h.len()) =~= whole.subrange(0, h.len() as int));
            assert(whole.subrange(0, h.len() as int) =~= h);
            lemma_parse_head_of_head(bytes, pos, 3, payload.len() as int);
            let next = pos + h.len();
            assert(bytes.subrange(next, next + payload.len()) =~= whole.subrange(
                h.len() as int,
                whole.len() as int,
            ));
            assert(whole.subrange(h.len() as int, whole.len() as int) =~= payload);
            encode_utf8_valid_utf8(text);
            encode_utf8_decode_utf8(text);
        },
        ItemView::Unsigned(n) => {
            lemma_head_len(0, n as int);
            lemma_parse_head_of_head(bytes, pos, 0, n as int);
        },
        ItemView::Negative(n) => {
            lemma_head_len(1, n as int);
            lemma_parse_head_of_head(bytes, pos, 1, n as int);
        },
        ItemView::MapHead(n) => {
            lemma_head_len(5, n as int);
            lemma_parse_head_of_head(bytes, pos, 5, n as int);
        },
    }
}

/// An item that was read is written as the bytes it was read from.
pub proof fn lemma_item_of_parse_item(bytes: Seq<u8>, pos: int)
    requires
        parse_item(bytes, pos) is Some,
    ensures
        ({
            let (item, next) = parse_item(bytes, pos)->Some_0;
            &&& item_ok(item)
            &&& 0 <= pos < next <= bytes.len()
            &&& bytes.subrange(pos, next) == item_bytes(item)
        }),
{
    lemma_head_of_parse_head(bytes, pos);
    let (major, arg, after) = parse_head(bytes, pos)->Some_0;
    let (item, next) = parse_item(bytes, pos)->Some_0;
    if major == 3 {
        let payload = bytes.subrange(after, after + arg);
        decode_utf8_encode_utf8(payload);
        assert(bytes.subrange(pos, next) =~= bytes.subrange(pos, after) + payload);
    }
}

/// The bytes of items followed by one more item.
pub proof fn lemma_items_bytes_push(items: Seq<ItemView>, item: ItemView)
    ensures
        items_bytes(items.push(item)) == items_bytes(items) + item_bytes(item),
    decreases items.len(),
{
    let all = items.push(item);
    assert(all.len() > 0);
    assert(items_bytes(all) == item_bytes(all[0]) + items_bytes(all.drop_first()));
    if items.len() == 0 {
        assert(all.drop_first() =~= Seq::<ItemView>::empty());
        assert(items_bytes(all.drop_first()) =~= Seq::<u8>::empty());
        assert(items_bytes(items) =~= Seq::<u8>::empty());
        assert(items_bytes(all) =~= items_bytes(items) + item_bytes(item));
    } else {
        assert(all.drop_first() =~= items.drop_first().push(item));
        lemma_items_bytes_push(items.drop_first(), item);
        assert(items_bytes(items) == item_bytes(items[0]) + items_bytes(items.drop_first()));
        assert(items_bytes(all) =~= items_bytes(items) + item_bytes(item));
    }
}

/// Reading the items where they were written, up to the end, gives the items.
pub proof fn lemma_parse_items_of_items(bytes: Seq<u8>, pos: int, items: Seq<ItemView>)
    requires
        forall|i: int| 0 <= i < items.len() ==> item_ok(#[trigger] items[i]),
        0 <= pos <= bytes.len(),
        bytes.subrange(pos, bytes.len() as int) == items_bytes(items),
    ensures
        parse_items(bytes, pos) == Some(items),
    decreases items.len(),
{
    if items.len() == 0 {
        assert(items_bytes(items).len() == 0);
        assert(pos == bytes.len());
        assert(parse_items(bytes, pos) == Some(Seq::<ItemView>::empty()));
        assert(items =~= Seq::<ItemView>::empty());
    } else {
        let first = item_bytes(items[0]);
        let rest = items_bytes(items.drop_first());
        assert(items_bytes(items) == first + rest);
        assert(bytes.subrange(pos, bytes.len() as int).len() == first.len() + rest.len());
        assert(bytes.subrange(pos, pos + first.len()) =~= bytes.subrange(
            pos,
            bytes.len() as int,
        ).subrange(0, first.len() as int));
        assert((first + rest).subrange(0, first.len() as int) =~= first);
        lemma_parse_item_of_item(bytes, pos, items[0]);
        let next = pos + first.len();
        assert(bytes.subrange(next, bytes.len() as int) =~= bytes.subrange(
            pos,
            bytes.len() as int,
        ).subrange(first.len() as int, (first.len() + rest.len()) as int));
        assert((first + rest).subrange(first.len() as int, (first.len() + rest.len()) as int) =~= rest);
        lemma_parse_items_of_items(bytes, next, items.drop_first());
        assert(seq![items[0]] + items.drop_first() =~= items);
    }
}

/// Items that were read up to the end are written as the bytes they were read from.
pub proof fn lemma_items_of_parse_items(bytes: Seq<u8>, pos: int)
    requires
        0 <= pos,
        parse_items(bytes, pos) is Some,
    ensures
        pos <= bytes.len(),
        bytes.subrange(pos, bytes.len() as int) == items_bytes(parse_items(bytes, pos)->Some_0),
        forall|i: int|
            0 <= i < parse_items(bytes, pos)->Some_0.len() ==> item_ok(
                #[trigger] parse_items(bytes, pos)->Some_0[i],
            ),
    decreases bytes.len() - pos,
{
    let items = parse_items(bytes, pos)->Some_0;
    if pos >= bytes.len() {
        assert(bytes.subrange(pos, bytes.len() as int) =~= items_bytes(items));
    } else {
        lemma_item_of_parse_item(bytes, pos);
        let (item, next) = parse_item(bytes, pos)->Some_0;
        lemma_items_of_parse_items(bytes, next);
        let rest = parse_items(bytes, next)->Some_0;
        assert(items == seq![item] + rest);
        assert(items.drop_first() =~= rest);
        assert(bytes.subrange(pos, bytes.len() as int) =~= bytes.subrange(pos, next)
            + bytes.subrange(next, bytes.len() as int));
        assert forall|i: int| 0 <= i < items.len() implies item_ok(#[trigger] items[i]) by {
            if i > 0 {
                assert(items[i] == rest[i - 1]);
            }
        }
    }
}


proof fn lemma_pow256_grows(a: nat, b: nat)
    requires
        a <= b,
    ensures
        1 <= pow256(a) <= pow256(b),
    decreases b,
{
    if a < b {
        lemma_pow256_grows(a, (b - 1) as nat);
    } else if a > 0 {
        lemma_pow256_grows((a - 1) as nat, (a - 1) as nat);
    }
}

/// Appends the `width` low bytes of `value`, most significant first.
fn write_be(out: &mut Vec<u8>, value: u64, width: usize)
    ensures
        final(out)@ == old(out)@ + be_bytes(value as int, width as nat),
    decreases width,
{
    if width > 0 {
        write_be(out, value / 256, width - 1);
        out.push((value % 256) as u8);
        assert(out@ =~= old(out)@ + be_bytes(value as int, width as nat));
    } else {
        assert(out@ =~= old(out)@ + be_bytes(value as int, width as nat));
    }
}

/// The number that `width` bytes from `pos` on hold, most significant first.
fn read_be(bytes: &[u8], pos: usize, width: usize) -> (value: u64)
    requires
        width <= 8,
        pos + width <= bytes@.len(),
    ensures
        value == be_value(bytes@, pos as int, width as int),
    decreases width,
{
    if width == 0 {
        0
    } else {
        let len = bytes.len();
        let high = read_be(bytes, pos, width - 1);
        proof {
            assert(pos + width <= len);
            lemma_be_bytes_of_value(bytes@, pos as int, (width - 1) as nat);
            lemma_pow256_grows((width - 1) as nat, 7);
            reveal_with_fuel(pow256, 8);
            assert(pow256(7) == 0x100_0000_0000_0000);
        }
        high * 256 + bytes[pos + (width - 1)] as u64
    }
}

/// Appends the head of major type `major` with argument `arg`.
pub fn write_head(out: &mut Vec<u8>, major: u8, arg: u64)
    requires
        major < 8,
    ensures
        final(out)@ == old(out)@ + head(major as int, arg as int),
{
    let base: u8 = major * 32;
    if arg < 24 {
        out.push(base + arg as u8);
        assert(out@ =~= old(out)@ + head(major as int, arg as int));
    } else {
        let (info, width): (u8, usize) = if arg < 0x100 {
            (24, 1)
        } else if arg < 0x1_0000 {
            (25, 2)
        } else if arg < 0x1_0000_0000 {
            (26, 4)
        } else {
            (27, 8)
        };
        out.push(base + info);
        write_be(out, arg, width);
        assert(out@ =~= old(out)@ + head(major as int, arg as int));
    }
}

/// Appends the bytes of `item`.
pub fn write_item(out: &mut Vec<u8>, item: &Item)
    ensures
        final(out)@ == old(out)@ + item_bytes(item@),
        item_ok(item@),
{
    match item {
        Item::Unsigned(n) => write_head(out, 0, *n),
        Item::Negative(n) => write_head(out, 1, *n),
        Item::MapHead(n) => write_head(out, 5, *n),
        Item::Text(text) => {
            let payload = text.as_str().as_bytes();
            write_head(out, 3, payload.len() as u64);
            out.extend_from_slice(payload);
            assert(out@ =~= old(out)@ + item_bytes(item@));
        },
    }
}

/// The bytes of `items`, one item after the other.
pub fn encode_items(items: &[Item]) -> (bytes: Vec<u8>)
    ensures
        bytes@ == items_bytes(item_views(items@)),
        forall|i: int| 0 <= i < items@.len() ==> item_ok(#[trigger] item_views(items@)[i]),
{
    let mut bytes: Vec<u8> = Vec::new();
    let ghost all = item_views(items@);
    let mut i: usize = 0;
    while i < items.len()
        invariant
            i <= items@.len(),
            all == item_views(items@),
            bytes@ == items_bytes(all.take(i as int)),
            forall|j: int| 0 <= j < i ==> item_ok(#[trigger] all[j]),
        decreases items@.len() - i,
    {
        write_item(&mut bytes, &items[i]);
        proof {
            assert(all.take(i + 1) =~= all.take(i as int).push(all[i as int]));
            lemma_items_bytes_push(all.take(i as int), all[i as int]);
        }
        i += 1;
    }
    assert(all.take(i as int) =~= all);
    bytes
}

/// The head that starts at `pos`, if there is one in its shortest form.
pub fn read_head(bytes: &[u8], pos: usize) -> (found: Option<(u8, u64, usize)>)
    ensures
        match found {
            Some((major, arg, next)) => parse_head(bytes@, pos as int) == Some(
                (major as int, arg as int, next as int),
            ),
            None => parse_head(bytes@, pos as int) is None,
        },
{
    if pos >= bytes.len() {
        return None;
    }
    let first = bytes[pos];
    let major: u8 = first / 32;
    let info: u8 = first % 32;
    if info < 24 {
        return Some((major, info as u64, pos + 1));
    }
    let (width, least): (usize, u64) = if info == 24 {
        (1, 24)
    } else if info == 25 {
        (2, 0x100)
    } else if info == 26 {
        (4, 0x1_0000)
    } else if info == 27 {
        (8, 0x1_0000_0000)
    } else {
        return None;
    };
    if bytes.len() - pos <= width {
        return None;
    }
    let arg = read_be(bytes, pos + 1, width);
    if arg < least {
        return None;
    }
    Some((major, arg, pos + 1 + width))
}

/// The data item that starts at `pos`, with the position after it.
pub fn read_item(bytes: &[u8], pos: usize) -> (found: Option<(Item, usize)>)
    ensures
        match found {
            Some((item, next)) => parse_item(bytes@, pos as int) == Some((item@, next as int)),
            None => parse_item(bytes@, pos as int) is None,
        },
{
    match read_head(bytes, pos) {
        None => None,
        Some((major, arg, next)) => {
            proof {
                lemma_head_of_parse_head(bytes@, pos as int);
            }
            if major == 0 {
                Some((Item::Unsigned(arg), next))
            } else if major == 1 {
                Some((Item::Negative(arg), next))
            } else if major == 5 {
                Some((Item::MapHead(arg), next))
            } else if major == 3 {
                let left = bytes.len() - next;
                if arg > left as u64 {
                    return None;
                }
                let end = next + arg as usize;
                let payload = slice_subrange(bytes, next, end);
                match text_of_utf8(payload) {
                    Some(text) => Some((Item::Text(text), end)),
                    None => None,
                }
            } else {
                None
            }
        },
    }
}

/// The data items that fill `bytes`, if it consists of data items.
pub fn read_items(bytes: &[u8]) -> (found: Option<Vec<Item>>)
    ensures
        match found {
            Some(items) => parse_items(bytes@, 0) == Some(item_views(items@)),
            None => parse_items(bytes@, 0) is None,
        },
{
    let mut items: Vec<Item> = Vec::new();
    let mut pos: usize = 0;
    while pos < bytes.len()
        invariant
            pos <= bytes@.len(),
            match parse_items(bytes@, pos as int) {
                Some(rest) => parse_items(bytes@, 0) == Some(item_views(items@) + rest),
                None => parse_items(bytes@, 0) is None,
            },
        decreases bytes@.len() - pos,
    {
        match read_item(bytes, pos) {
            None => {
                return None;
            },
            Some((item, next)) => {
                proof {
                    lemma_item_of_parse_item(bytes@, pos as int);
                    match parse_items(bytes@, next as int) {
                        Some(rest) => {
                            assert(item_views(items@.push(item)) + rest =~= item_views(items@) + (
                            seq![item@] + rest));
                        },
                        None => {},
                    }
                }
                items.push(item);
                pos = next;
            },
        }
    }
    assert(item_views(items@) + Seq::<ItemView>::empty() =~= item_views(items@));
    Some(items)
}

} // verus!
