//! The record of an entry: a map of its fields, tagged with the entry's
//! shape, as the bytes that an archive holds for it.

use vstd::prelude::*;
use vstd::string::*;
use vstd::utf8::*;

use crate::snapshot::cbor::{
    encode_items, item_ok, item_views, items_bytes, lemma_items_of_parse_items,
    lemma_parse_items_of_items, parse_items, read_items, Item, ItemView,
};
use crate::snapshot::entry::{Attributes, Entry, EntryView};
use crate::text::same_str;

verus! {

/// A timestamp as a data item.
pub open spec fn int_item(value: i64) -> ItemView {
    if value >= 0 {
        ItemView::Unsigned(value as u64)
    } else {
        ItemView::Negative((-1 - value) as u64)
    }
}

/// The eight items that record the attributes: the key, then a map of three pairs.
pub open spec fn attr_items(attr: Attributes) -> Seq<ItemView> {
    seq![
        ItemView::Text("attr"@),
        ItemView::MapHead(3),
        ItemView::Text("mode"@),
        ItemView::Unsigned(attr.mode as u64),
        ItemView::Text("atime"@),
        int_item(attr.atime),
        ItemView::Text("mtime"@),
        int_item(attr.mtime),
    ]
}

/// The items of the record of an entry: the tag `_t` with `f`, `s` or `d`,
/// then the fields in their fixed order.
pub open spec fn entry_items(entry: EntryView) -> Seq<ItemView> {
    match entry {
        EntryView::File { path, attr, md5, len } => seq![
            ItemView::MapHead(5),
            ItemView::Text("_t"@),
            ItemView::Text("f"@),
            ItemView::Text("path"@),
            ItemView::Text(path),
        ] + attr_items(attr) + seq![
            ItemView::Text("md5"@),
            ItemView::Text(md5),
            ItemView::Text("len"@),
            ItemView::Unsigned(len as u64),
        ],
        EntryView::Symlink { path, target, attr } => seq![
            ItemView::MapHead(4),
            ItemView::Text("_t"@),
            ItemView::Text("s"@),
            ItemView::Text("path"@),
            ItemView::Text(path),
            ItemView::Text("target"@),
            ItemView::Text(target),
        ] + attr_items(attr),
        EntryView::Dir { path, attr } => seq![
            ItemView::MapHead(3),
            ItemView::Text("_t"@),
            ItemView::Text("d"@),
            ItemView::Text("path"@),
            ItemView::Text(path),
        ] + attr_items(attr),
    }
}

/// The bytes of the record of an entry.
pub open spec fn entry_bytes(entry: EntryView) -> Seq<u8> {
    items_bytes(entry_items(entry))
}

/// Whether the entry can be recorded: the lengths of its texts fit in 64 bits.
pub open spec fn entry_ok(entry: EntryView) -> bool {
    match entry {
        EntryView::File { path, md5, .. } => item_ok(ItemView::Text(path)) && item_ok(
            ItemView::Text(md5),
        ),
        EntryView::Symlink { path, target, .. } => item_ok(ItemView::Text(path)) && item_ok(
            ItemView::Text(target),
        ),
        EntryView::Dir { path, .. } => item_ok(ItemView::Text(path)),
    }
}

proof fn lemma_short_text_ok(text: Seq<char>)
    requires
        is_ascii_chars(text),
        text.len() <= 8,
    ensures
        item_ok(ItemView::Text(text)),
        encode_utf8(text).len() == text.len(),
{
    is_ascii_chars_encode_utf8(text);
}

/// Every item of the record of an entry that can be recorded can be written.
pub proof fn lemma_entry_items_ok(entry: EntryView)
    requires
        entry_ok(entry),
    ensures
        forall|i: int|
            0 <= i < entry_items(entry).len() ==> item_ok(#[trigger] entry_items(entry)[i]),
{
    reveal_strlit("_t");
    reveal_strlit("f");
    reveal_strlit("s");
    reveal_strlit("d");
    reveal_strlit("path");
    reveal_strlit("target");
    reveal_strlit("attr");
    reveal_strlit("mode");
    reveal_strlit("atime");
    reveal_strlit("mtime");
    reveal_strlit("md5");
    reveal_strlit("len");
    lemma_short_text_ok("_t"@);
    lemma_short_text_ok("f"@);
    lemma_short_text_ok("s"@);
    lemma_short_text_ok("d"@);
    lemma_short_text_ok("path"@);
    lemma_short_text_ok("target"@);
    lemma_short_text_ok("attr"@);
    lemma_short_text_ok("mode"@);
    lemma_short_text_ok("atime"@);
    lemma_short_text_ok("mtime"@);
    lemma_short_text_ok("md5"@);
    lemma_short_text_ok("len"@);
}

pub open spec fn item_text(item: ItemView) -> Seq<char> {
    match item {
        ItemView::Text(text) => text,
        _ => Seq::empty(),
    }
}

pub open spec fn item_u32(item: ItemView) -> u32 {
    match item {
        ItemView::Unsigned(n) => if n <= u32::MAX {
            n as u32
        } else {
            0
        },
        _ => 0,
    }
}

pub open spec fn item_i64(item: ItemView) -> i64 {
    match item {
        ItemView::Unsigned(n) => if n <= i64::MAX {
            n as i64
        } else {
            0
        },
        ItemView::Negative(n) => if n <= i64::MAX {
            (-1 - n) as i64
        } else {
            0
        },
        _ => 0,
    }
}

/// The attributes that the eight items from `at` on would record.
pub open spec fn items_attr(items: Seq<ItemView>, at: int) -> Attributes {
    Attributes {
        mode: item_u32(items[at + 3]),
        atime: item_i64(items[at + 5]),
        mtime: item_i64(items[at + 7]),
    }
}

/// The only entry whose record `items` can be, judged by their number.
pub open spec fn candidate(items: Seq<ItemView>) -> EntryView {
    if items.len() == 17 {
        EntryView::File {
            path: item_text(items[4]),
            attr: items_attr(items, 5),
            md5: item_text(items[14]),
            len: item_u32(items[16]),
        }
    } else if items.len() == 15 {
        EntryView::Symlink {
            path: item_text(items[4]),
            target: item_text(items[6]),
            attr: items_attr(items, 7),
        }
    } else {
        EntryView::Dir { path: item_text(items[4]), attr: items_attr(items, 5) }
    }
}

/// The entry whose record consists of exactly these items.
pub open spec fn items_entry(items: Seq<ItemView>) -> Option<EntryView> {
    if entry_items(candidate(items)) == items {
        Some(candidate(items))
    } else {
        None
    }
}

/// The entry whose record is exactly `bytes`.
pub open spec fn parse_entry(bytes: Seq<u8>) -> Option<EntryView> {
    match parse_items(bytes, 0) {
        Some(items) => items_entry(items),
        None => None,
    }
}

/// The items of a record give the entry back.
pub proof fn lemma_items_entry_of_items(entry: EntryView)
    ensures
        items_entry(entry_items(entry)) == Some(entry),
{
    let items = entry_items(entry);
    match entry {
        EntryView::File { path, attr, md5, len } => {
            assert(items.len() == 17);
            assert(items[4] == ItemView::Text(path));
            assert(items[8] == ItemView::Unsigned(attr.mode as u64));
            assert(items[10] == int_item(attr.atime));
            assert(items[12] == int_item(attr.mtime));
            assert(items[14] == ItemView::Text(md5));
            assert(items[16] == ItemView::Unsigned(len as u64));
            assert(items_attr(items, 5) == attr);
        },
        EntryView::Symlink { path, target, attr } => {
            assert(items.len() == 15);
            assert(items[4] == ItemView::Text(path));
            assert(items[6] == ItemView::Text(target));
            assert(items[10] == ItemView::Unsigned(attr.mode as u64));
            assert(items[12] == int_item(attr.atime));
            assert(items[14] == int_item(attr.mtime));
            assert(items_attr(items, 7) == attr);
        },
        EntryView::Dir { path, attr } => {
            assert(items.len() == 13);
            assert(items[4] == ItemView::Text(path));
            assert(items[8] == ItemView::Unsigned(attr.mode as u64));
            assert(items[10] == int_item(attr.atime));
            assert(items[12] == int_item(attr.mtime));
            assert(items_attr(items, 5) == attr);
        },
    }
    assert(candidate(items) == entry);
}

/// Reading the record of an entry gives the entry back.
pub proof fn lemma_parse_entry_of_bytes(entry: EntryView)
    requires
        entry_ok(entry),
    ensures
        parse_entry(entry_bytes(entry)) == Some(entry),
{
    let bytes = entry_bytes(entry);
    assert(bytes.subrange(0, bytes.len() as int) =~= bytes);
    lemma_entry_items_ok(entry);
    lemma_parse_items_of_items(bytes, 0, entry_items(entry));
    lemma_items_entry_of_items(entry);
}

/// An entry that was read from some bytes has exactly those bytes as its record.
pub proof fn lemma_bytes_of_parse_entry(bytes: Seq<u8>)
    requires
        parse_entry(bytes) is Some,
    ensures
        entry_bytes(parse_entry(bytes)->Some_0) == bytes,
        entry_ok(parse_entry(bytes)->Some_0),
{
    lemma_items_of_parse_items(bytes, 0);
    assert(bytes.subrange(0, bytes.len() as int) =~= bytes);
    let entry = parse_entry(bytes)->Some_0;
    let items = entry_items(entry);
    match entry {
        EntryView::File { path, md5, .. } => {
            assert(items[4] == ItemView::Text(path));
            assert(items[14] == ItemView::Text(md5));
        },
        EntryView::Symlink { path, target, .. } => {
            assert(items[4] == ItemView::Text(path));
            assert(items[6] == ItemView::Text(target));
        },
        EntryView::Dir { path, .. } => {
            assert(items[4] == ItemView::Text(path));
        },
    }
}

/// Two entries with the same record are the same entry.
pub proof fn lemma_entry_bytes_injective(a: EntryView, b: EntryView)
    requires
        entry_ok(a),
        entry_ok(b),
        entry_bytes(a) == entry_bytes(b),
    ensures
        a == b,
{
    lemma_parse_entry_of_bytes(a);
    lemma_parse_entry_of_bytes(b);
}


fn key(text: &str) -> (item: Item)
    ensures
        item@ == ItemView::Text(text@),
{
    Item::Text(String::from_str(text))
}

fn time_item(value: i64) -> (item: Item)
    ensures
        item@ == int_item(value),
{
    if value >= 0 {
        Item::Unsigned(value as u64)
    } else {
        Item::Negative((-1 - value) as u64)
    }
}

fn push_attr(items: &mut Vec<Item>, attr: &Attributes)
    ensures
        item_views(final(items)@) == item_views(old(items)@) + attr_items(*attr),
{
    items.push(key("attr"));
    items.push(Item::MapHead(3));
    items.push(key("mode"));
    items.push(Item::Unsigned(attr.mode as u64));
    items.push(key("atime"));
    items.push(time_item(attr.atime));
    items.push(key("mtime"));
    items.push(time_item(attr.mtime));
    assert(item_views(items@) =~= item_views(old(items)@) + attr_items(*attr));
}

/// The items of the record of `entry`.
fn entry_to_items(entry: &Entry) -> (items: Vec<Item>)
    ensures
        item_views(items@) == entry_items(entry@),
{
    let mut items: Vec<Item> = Vec::new();
    match entry {
        Entry::File { path, attr, md5, len } => {
            items.push(Item::MapHead(5));
            items.push(key("_t"));
            items.push(key("f"));
            items.push(key("path"));
            items.push(Item::Text(path.clone()));
            let ghost front = item_views(items@);
            assert(front =~= seq![
                ItemView::MapHead(5),
                ItemView::Text("_t"@),
                ItemView::Text("f"@),
                ItemView::Text("path"@),
                ItemView::Text(path@),
            ]);
            push_attr(&mut items, attr);
            let ghost middle = item_views(items@);
            items.push(key("md5"));
            items.push(Item::Text(md5.clone()));
            items.push(key("len"));
            items.push(Item::Unsigned(*len as u64));
            assert(item_views(items@) =~= middle + seq![
                ItemView::Text("md5"@),
                ItemView::Text(md5@),
                ItemView::Text("len"@),
                ItemView::Unsigned(*len as u64),
            ]);
            assert(item_views(items@) =~= entry_items(entry@));
        },
        Entry::Symlink { path, target, attr } => {
            items.push(Item::MapHead(4));
            items.push(key("_t"));
            items.push(key("s"));
            items.push(key("path"));
            items.push(Item::Text(path.clone()));
            items.push(key("target"));
            items.push(Item::Text(target.clone()));
            push_attr(&mut items, attr);
            assert(item_views(items@) =~= entry_items(entry@));
        },
        Entry::Dir { path, attr } => {
            items.push(Item::MapHead(3));
            items.push(key("_t"));
            items.push(key("d"));
            items.push(key("path"));
            items.push(Item::Text(path.clone()));
            push_attr(&mut items, attr);
            assert(item_views(items@) =~= entry_items(entry@));
        },
    }
    items
}

/// The record of `entry`: the bytes that an archive holds for it.
pub fn encode_entry(entry: &Entry) -> (bytes: Vec<u8>)
    ensures
        bytes@ == entry_bytes(entry@),
        entry_ok(entry@),
{
    let items = entry_to_items(entry);
    let bytes = encode_items(items.as_slice());
    proof {
        let views = entry_items(entry@);
        assert(item_ok(views[4]));
        match entry@ {
            EntryView::File { .. } => {
                assert(item_ok(views[14]));
            },
            EntryView::Symlink { .. } => {
                assert(item_ok(views[6]));
            },
            EntryView::Dir { .. } => {},
        }
    }
    bytes
}

fn is_key(item: &Item, key: &str) -> (same: bool)
    ensures
        same == (item@ == ItemView::Text(key@)),
{
    match item {
        Item::Text(text) => same_str(text.as_str(), key),
        _ => false,
    }
}

fn is_map(item: &Item, pairs: u64) -> (same: bool)
    ensures
        same == (item@ == ItemView::MapHead(pairs)),
{
    match item {
        Item::MapHead(n) => *n == pairs,
        _ => false,
    }
}

fn as_text(item: &Item) -> (text: Option<String>)
    ensures
        match text {
            Some(t) => item@ == ItemView::Text(t@),
            None => !(item@ is Text),
        },
{
    match item {
        Item::Text(text) => Some(text.clone()),
        _ => None,
    }
}

fn as_u32(item: &Item) -> (value: Option<u32>)
    ensures
        match value {
            Some(n) => item@ == ItemView::Unsigned(n as u64),
            None => item@ != ItemView::Unsigned(item_u32(item@) as u64),
        },
{
    match item {
        Item::Unsigned(n) => if *n <= 0xffff_ffff {
            Some(*n as u32)
        } else {
            None
        },
        _ => None,
    }
}

fn as_i64(item: &Item) -> (value: Option<i64>)
    ensures
        match value {
            Some(v) => item@ == int_item(v),
            None => item@ != int_item(item_i64(item@)),
        },
{
    match item {
        Item::Unsigned(n) => if *n <= 0x7fff_ffff_ffff_ffff {
            Some(*n as i64)
        } else {
            None
        },
        Item::Negative(n) => if *n <= 0x7fff_ffff_ffff_ffff {
            Some(-1 - (*n as i64))
        } else {
            None
        },
        _ => None,
    }
}

/// The attributes that the eight items from `at` on record.
fn read_attr(items: &[Item], at: usize) -> (attr: Option<Attributes>)
    requires
        at + 8 <= items@.len(),
    ensures
        match attr {
            Some(a) => item_views(items@).subrange(at as int, at + 8) == attr_items(a)
                && a == items_attr(item_views(items@), at as int),
            None => item_views(items@).subrange(at as int, at + 8) != attr_items(
                items_attr(item_views(items@), at as int),
            ),
        },
{
    let ghost views = item_views(items@);
    let ghost part = views.subrange(at as int, at + 8);
    let ghost wanted = attr_items(items_attr(views, at as int));
    let len = items.len();
    if !is_key(&items[at], "attr") {
        assert(part[0] != wanted[0]);
        return None;
    }
    if !is_map(&items[at + 1], 3) {
        assert(part[1] != wanted[1]);
        return None;
    }
    if !is_key(&items[at + 2], "mode") {
        assert(part[2] != wanted[2]);
        return None;
    }
    let mode = match as_u32(&items[at + 3]) {
        Some(mode) => mode,
        None => {
            assert(part[3] != wanted[3]);
            return None;
        },
    };
    if !is_key(&items[at + 4], "atime") {
        assert(part[4] != wanted[4]);
        return None;
    }
    let atime = match as_i64(&items[at + 5]) {
        Some(atime) => atime,
        None => {
            assert(part[5] != wanted[5]);
            return None;
        },
    };
    if !is_key(&items[at + 6], "mtime") {
        assert(part[6] != wanted[6]);
        return None;
    }
    let mtime = match as_i64(&items[at + 7]) {
        Some(mtime) => mtime,
        None => {
            assert(part[7] != wanted[7]);
            return None;
        },
    };
    let attr = Attributes { mode, atime, mtime };
    assert(part =~= attr_items(attr));
    assert(attr == items_attr(views, at as int));
    Some(attr)
}

/// The entry whose record consists of exactly these items.
fn items_to_entry(items: &[Item]) -> (entry: Option<Entry>)
    ensures
        match entry {
            Some(e) => items_entry(item_views(items@)) == Some(e@),
            None => items_entry(item_views(items@)) is None,
        },
{
    let ghost views = item_views(items@);
    let ghost wanted = entry_items(candidate(views));
    let len = items.len();
    if len != 13 && len != 15 && len != 17 {
        assert(wanted.len() != views.len());
        return None;
    }
    let pairs: u64 = if len == 17 {
        5
    } else if len == 15 {
        4
    } else {
        3
    };
    let tag = if len == 17 {
        "f"
    } else if len == 15 {
        "s"
    } else {
        "d"
    };
    if !is_map(&items[0], pairs) {
        assert(wanted[0] != views[0]);
        return None;
    }
    if !is_key(&items[1], "_t") {
        assert(wanted[1] != views[1]);
        return None;
    }
    if !is_key(&items[2], tag) {
        assert(wanted[2] != views[2]);
        return None;
    }
    if !is_key(&items[3], "path") {
        assert(wanted[3] != views[3]);
        return None;
    }
    let path = match as_text(&items[4]) {
        Some(path) => path,
        None => {
            assert(wanted[4] != views[4]);
            return None;
        },
    };
    if len == 17 {
        let attr = match read_attr(items, 5) {
            Some(attr) => attr,
            None => {
                assert(wanted.subrange(5, 13) =~= attr_items(items_attr(views, 5)));
                return None;
            },
        };
        if !is_key(&items[13], "md5") {
            assert(wanted[13] != views[13]);
            return None;
        }
        let md5 = match as_text(&items[14]) {
            Some(md5) => md5,
            None => {
                assert(wanted[14] != views[14]);
                return None;
            },
        };
        if !is_key(&items[15], "len") {
            assert(wanted[15] != views[15]);
            return None;
        }
        let len = match as_u32(&items[16]) {
            Some(len) => len,
            None => {
                assert(wanted[16] != views[16]);
                return None;
            },
        };
        let entry = Entry::File { path, attr, md5, len };
        proof {
            assert(entry@ == candidate(views));
            assert forall|i: int| 0 <= i < 17 implies wanted[i] == views[i] by {
                if 5 <= i < 13 {
                    assert(views.subrange(5, 13)[i - 5] == views[i]);
                }
            }
            assert(wanted =~= views);
        }
        Some(entry)
    } else if len == 15 {
        if !is_key(&items[5], "target") {
            assert(wanted[5] != views[5]);
            return None;
        }
        let target = match as_text(&items[6]) {
            Some(target) => target,
            None => {
                assert(wanted[6] != views[6]);
                return None;
            },
        };
        let attr = match read_attr(items, 7) {
            Some(attr) => attr,
            None => {
                assert(wanted.subrange(7, 15) =~= attr_items(items_attr(views, 7)));
                return None;
            },
        };
        let entry = Entry::Symlink { path, target, attr };
        proof {
            assert(entry@ == candidate(views));
            assert forall|i: int| 0 <= i < 15 implies wanted[i] == views[i] by {
                if 7 <= i < 15 {
                    assert(views.subrange(7, 15)[i - 7] == views[i]);
                }
            }
            assert(wanted =~= views);
        }
        Some(entry)
    } else {
        let attr = match read_attr(items, 5) {
            Some(attr) => attr,
            None => {
                assert(wanted.subrange(5, 13) =~= attr_items(items_attr(views, 5)));
                return None;
            },
        };
        let entry = Entry::Dir { path, attr };
        proof {
            assert(entry@ == candidate(views));
            assert forall|i: int| 0 <= i < 13 implies wanted[i] == views[i] by {
                if 5 <= i < 13 {
                    assert(views.subrange(5, 13)[i - 5] == views[i]);
                }
            }
            assert(wanted =~= views);
        }
        Some(entry)
    }
}

/// The entry whose record is exactly `bytes`, if there is one.
pub fn decode_entry(bytes: &[u8]) -> (entry: Option<Entry>)
    ensures
        match entry {
            Some(e) => entry_bytes(e@) == bytes@ && entry_ok(e@),
            None => forall|e: EntryView| entry_ok(e) ==> #[trigger] entry_bytes(e) != bytes@,
        },
        match entry {
            Some(e) => parse_entry(bytes@) == Some(e@),
            None => parse_entry(bytes@) is None,
        },
{
    let entry = match read_items(bytes) {
        Some(items) => items_to_entry(items.as_slice()),
        None => None,
    };
    proof {
        if entry is Some {
            lemma_bytes_of_parse_entry(bytes@);
        } else {
            assert forall|e: EntryView| entry_ok(e) implies #[trigger] entry_bytes(e)
                != bytes@ by {
                lemma_parse_entry_of_bytes(e);
            }
        }
    }
    entry
}

} // verus!
