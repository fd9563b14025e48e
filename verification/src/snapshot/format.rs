//! The layout of an archive before compression: the version header, then
//! for each entry the length of its record, the record and, for a file, its
//! contents.

use vstd::prelude::*;

use crate::bytes::{le_bytes, le_value, lemma_le_bytes_round_trip, lemma_le_value_round_trip};
use crate::snapshot::codec::{
    entry_bytes, entry_ok, lemma_bytes_of_parse_entry, lemma_parse_entry_of_bytes, parse_entry,
};
use crate::snapshot::entry::EntryView;

verus! {

/// An entry together with the contents that follow it in an archive.
pub struct Record {
    pub entry: EntryView,
    pub payload: Seq<u8>,
}

/// The four bytes that every archive starts with.
pub open spec fn version() -> Seq<u8> {
    seq![0xA0u8, 0xF1u8, 0xB2u8, 0x01u8]
}

/// Whether the entry can stand in an archive: it can be recorded, and the
/// length of its record fits in 32 bits.
pub open spec fn meta_ok(entry: EntryView) -> bool {
    entry_ok(entry) && entry_bytes(entry).len() <= u32::MAX
}

/// The length of the record of an entry, then the record.
pub open spec fn meta_bytes(entry: EntryView) -> Seq<u8> {
    le_bytes(entry_bytes(entry).len() as u32) + entry_bytes(entry)
}

/// Whether the record can stand in an archive: its entry can, and the
/// payload is as long as the entry says.
pub open spec fn record_ok(record: Record) -> bool {
    meta_ok(record.entry) && record.payload.len() == record.entry.payload_len()
}

pub open spec fn records_ok(records: Seq<Record>) -> bool {
    forall|i: int| 0 <= i < records.len() ==> record_ok(#[trigger] records[i])
}

/// The bytes of one record: length, entry, payload.
pub open spec fn record_bytes(record: Record) -> Seq<u8> {
    meta_bytes(record.entry) + record.payload
}

/// The bytes of a sequence of records, one after the other.
pub open spec fn records_bytes(records: Seq<Record>) -> Seq<u8>
    decreases records.len(),
{
    if records.len() == 0 {
        Seq::empty()
    } else {
        record_bytes(records[0]) + records_bytes(records.drop_first())
    }
}

/// The bytes of a whole archive, before compression.
pub open spec fn archive_bytes(records: Seq<Record>) -> Seq<u8> {
    version() + records_bytes(records)
}

/// The entry whose length and record start at `pos`, with the position after them.
pub open spec fn parse_meta(data: Seq<u8>, pos: int) -> Option<(EntryView, int)> {
    if pos < 0 || pos + 4 > data.len() {
        None
    } else {
        let len = le_value(data.subrange(pos, pos + 4));
        if pos + 4 + len > data.len() {
            None
        } else {
            match parse_entry(data.subrange(pos + 4, pos + 4 + len)) {
                Some(entry) => Some((entry, pos + 4 + len)),
                None => None,
            }
        }
    }
}

/// The record that starts at `pos`, with the position after it.
pub open spec fn parse_record(data: Seq<u8>, pos: int) -> Option<(Record, int)> {
    match parse_meta(data, pos) {
        Some((entry, next)) => {
            if next + entry.payload_len() <= data.len() {
                Some(
                    (
                        Record { entry, payload: data.subrange(next, next + entry.payload_len()) },
                        next + entry.payload_len(),
                    ),
                )
            } else {
                None
            }
        },
        None => None,
    }
}

/// The records that fill `data` from `pos` to its end.
pub open spec fn parse_records(data: Seq<u8>, pos: int) -> Option<Seq<Record>>
    decreases data.len() - pos,
{
    if pos >= data.len() {
        if pos == data.len() {
            Some(Seq::empty())
        } else {
            None
        }
    } else {
        match parse_record(data, pos) {
            Some((record, next)) => {
                if next > pos {
                    match parse_records(data, next) {
                        Some(rest) => Some(seq![record] + rest),
                        None => None,
                    }
                } else {
                    None
                }
            },
            None => None,
        }
    }
}

/// Reading the length and record of an entry where they were written gives the entry.
pub proof fn lemma_parse_meta_of_meta(data: Seq<u8>, pos: int, entry: EntryView)
    requires
        meta_ok(entry),
        0 <= pos,
        pos + meta_bytes(entry).len() <= data.len(),
        data.subrange(pos, pos + meta_bytes(entry).len()) == meta_bytes(entry),
    ensures
        parse_meta(data, pos) == Some((entry, pos + meta_bytes(entry).len())),
        meta_bytes(entry).len() == 4 + entry_bytes(entry).len(),
{
    let record = entry_bytes(entry);
    let size = record.len() as u32;
    let whole = meta_bytes(entry);
    lemma_le_bytes_round_trip(size);
    assert(data.subrange(pos, pos + 4) =~= whole.subrange(0, 4));
    assert(whole.subrange(0, 4) =~= le_bytes(size));
    assert(data.subrange(pos + 4, pos + 4 + record.len()) =~= whole.subrange(
        4,
        4 + record.len() as int,
    ));
    assert(whole.subrange(4, 4 + record.len() as int) =~= record);
    lemma_parse_entry_of_bytes(entry);
}

/// An entry that was read has its length and record where it was read from.
pub proof fn lemma_meta_of_parse_meta(data: Seq<u8>, pos: int)
    requires
        parse_meta(data, pos) is Some,
    ensures
        ({
            let (entry, next) = parse_meta(data, pos)->Some_0;
            &&& meta_ok(entry)
            &&& 0 <= pos
            &&& pos + 4 <= next <= data.len()
            &&& next == pos + meta_bytes(entry).len()
            &&& data.subrange(pos, next) == meta_bytes(entry)
        }),
{
    let (entry, next) = parse_meta(data, pos)->Some_0;
    let prefix = data.subrange(pos, pos + 4);
    let len = le_value(prefix);
    lemma_le_value_round_trip(prefix);
    let record = data.subrange(pos + 4, pos + 4 + len);
    lemma_bytes_of_parse_entry(record);
    assert(data.subrange(pos, next) =~= prefix + record);
}

/// Reading a record where it was written gives the record.
pub proof fn lemma_parse_record_of_record(data: Seq<u8>, pos: int, record: Record)
    requires
        record_ok(record),
        0 <= pos,
        pos + record_bytes(record).len() <= data.len(),
        data.subrange(pos, pos + record_bytes(record).len()) == record_bytes(record),
    ensures
        parse_record(data, pos) == Some((record, pos + record_bytes(record).len())),
        record_bytes(record).len() >= 4,
{
    let meta = meta_bytes(record.entry);
    let whole = record_bytes(record);
    assert(data.subrange(pos, pos + meta.len()) =~= whole.subrange(0, meta.len() as int));
    assert(whole.subrange(0, meta.len() as int) =~= meta);
    lemma_parse_meta_of_meta(data, pos, record.entry);
    let next = pos + meta.len();
    assert(data.subrange(next, next + record.payload.len()) =~= whole.subrange(
        meta.len() as int,
        whole.len() as int,
    ));
    assert(whole.subrange(meta.len() as int, whole.len() as int) =~= record.payload);
}

/// A record that was read stands where it was read from.
pub proof fn lemma_record_of_parse_record(data: Seq<u8>, pos: int)
    requires
        parse_record(data, pos) is Some,
    ensures
        ({
            let (record, next) = parse_record(data, pos)->Some_0;
            &&& record_ok(record)
            &&& 0 <= pos
            &&& pos + 4 <= next <= data.len()
            &&& data.subrange(pos, next) == record_bytes(record)
        }),
{
    lemma_meta_of_parse_meta(data, pos);
    let (entry, after) = parse_meta(data, pos)->Some_0;
    let (record, next) = parse_record(data, pos)->Some_0;
    assert(data.subrange(pos, next) =~= data.subrange(pos, after) + record.payload);
}

/// Reading records where they were written, up to the end, gives the records.
pub proof fn lemma_parse_records_of_records(data: Seq<u8>, pos: int, records: Seq<Record>)
    requires
        records_ok(records),
        0 <= pos <= data.len(),
        data.subrange(pos, data.len() as int) == records_bytes(records),
    ensures
        parse_records(data, pos) == Some(records),
    decreases records.len(),
{
    if records.len() == 0 {
        assert(records_bytes(records).len() == 0);
        assert(pos == data.len());
        assert(records =~= Seq::<Record>::empty());
    } else {
        let first = record_bytes(records[0]);
        let rest = records_bytes(records.drop_first());
        assert(records_bytes(records) == first + rest);
        assert(data.subrange(pos, data.len() as int).len() == first.len() + rest.len());
        assert(data.subrange(pos, pos + first.len()) =~= (first + rest).subrange(
            0,
            first.len() as int,
        ));
        assert((first + rest).subrange(0, first.len() as int) =~= first);
        assert(record_ok(records[0]));
        lemma_parse_record_of_record(data, pos, records[0]);
        let next = pos + first.len();
        assert(data.subrange(next, data.len() as int) =~= (first + rest).subrange(
            first.len() as int,
            (first.len() + rest.len()) as int,
        ));
        assert((first + rest).subrange(first.len() as int, (first.len() + rest.len()) as int)
            =~= rest);
        assert(records_ok(records.drop_first())) by {
            assert forall|i: int| 0 <= i < records.drop_first().len() implies record_ok(
                #[trigger] records.drop_first()[i],
            ) by {
                assert(records.drop_first()[i] == records[i + 1]);
            }
        }
        lemma_parse_records_of_records(data, next, records.drop_first());
        assert(seq![records[0]] + records.drop_first() =~= records);
    }
}

/// Records that were read up to the end stand where they were read from.
#[verifier::rlimit(60)]
pub proof fn lemma_records_of_parse_records(data: Seq<u8>, pos: int)
    requires
        0 <= pos,
        parse_records(data, pos) is Some,
    ensures
        pos <= data.len(),
        records_ok(parse_records(data, pos)->Some_0),
        data.subrange(pos, data.len() as int) == records_bytes(parse_records(data, pos)->Some_0),
    decreases data.len() - pos,
{
    let records = parse_records(data, pos)->Some_0;
    if pos >= data.len() {
        assert(data.subrange(pos, data.len() as int) =~= records_bytes(records));
    } else {
        lemma_record_of_parse_record(data, pos);
        let (record, next) = parse_record(data, pos)->Some_0;
        lemma_records_of_parse_records(data, next);
        let rest = parse_records(data, next)->Some_0;
        assert(records == seq![record] + rest);
        assert(records.drop_first() =~= rest);
        assert(data.subrange(pos, data.len() as int) =~= data.subrange(pos, next)
            + data.subrange(next, data.len() as int));
        assert forall|i: int| 0 <= i < records.len() implies record_ok(#[trigger] records[i]) by {
            if i > 0 {
                assert(records[i] == rest[i - 1]);
            }
        }
    }
}

/// The bytes of records followed by one more record.
pub proof fn lemma_records_bytes_push(records: Seq<Record>, record: Record)
    ensures
        records_bytes(records.push(record)) == records_bytes(records) + record_bytes(record),
    decreases records.len(),
{
    let all = records.push(record);
    assert(records_bytes(all) == record_bytes(all[0]) + records_bytes(all.drop_first()));
    if records.len() == 0 {
        assert(all.drop_first() =~= Seq::<Record>::empty());
        assert(records_bytes(all.drop_first()) =~= Seq::<u8>::empty());
        assert(records_bytes(records) =~= Seq::<u8>::empty());
        assert(records_bytes(all) =~= records_bytes(records) + record_bytes(record));
    } else {
        assert(all.drop_first() =~= records.drop_first().push(record));
        lemma_records_bytes_push(records.drop_first(), record);
        assert(records_bytes(records) == record_bytes(records[0]) + records_bytes(
            records.drop_first(),
        ));
        assert(records_bytes(all) =~= records_bytes(records) + record_bytes(record));
    }
}

/// Round trip of the archive layout: the records read from the bytes of an
/// archive, after its version header, are the records that were written.
pub proof fn lemma_archive_round_trip(records: Seq<Record>)
    requires
        records_ok(records),
    ensures
        archive_bytes(records).subrange(0, 4) == version(),
        parse_records(archive_bytes(records), 4) == Some(records),
{
    let data = archive_bytes(records);
    assert(data.subrange(0, 4) =~= version());
    assert(data.subrange(4, data.len() as int) =~= records_bytes(records));
    lemma_parse_records_of_records(data, 4, records);
}

} // verus!
