//! Unpacking an archive: which entries are restored, where, and with what
//! contents.

use vstd::prelude::*;
use vstd::string::*;

use crate::errors::{Error, ErrorView};
use crate::paths::{
    is_absolute, join, path_is_absolute, path_join, path_starts_with, path_strip_prefix,
    starts_with, strip_prefix,
};
use crate::snapshot::entry::{Entry, EntryView};
use crate::snapshot::format::{
    archive_bytes, lemma_archive_round_trip, lemma_meta_of_parse_meta, meta_bytes, parse_meta,
    parse_record,
    parse_records, records_ok, Record,
};
use crate::snapshot::reading::{read_entry_error, Reading};
use crate::snapshot::writing::{short_read, snapshot_error};

verus! {

/// An entry to be restored: where to, and for a file with what contents.
#[derive(Debug)]
pub struct Restored {
    pub entry: Entry,
    pub path: String,
    pub content: Vec<u8>,
}

/// Mathematical value of a [`Restored`].
pub struct RestoredView {
    pub entry: EntryView,
    pub path: Seq<char>,
    pub content: Seq<u8>,
}

impl View for Restored {
    type V = RestoredView;

    open spec fn view(&self) -> RestoredView {
        RestoredView { entry: self.entry@, path: self.path@, content: self.content@ }
    }
}

pub open spec fn restored_views(restored: Seq<Restored>) -> Seq<RestoredView> {
    restored.map_values(|r: Restored| r@)
}

pub open spec fn dir_views(dirs: Seq<String>) -> Seq<Seq<char>> {
    dirs.map_values(|dir: String| dir@)
}

pub open spec fn prefix_view(prefix: Option<String>) -> Option<Seq<char>> {
    match prefix {
        Some(text) => Some(text@),
        None => None,
    }
}

/// Whether one of the roots `dirs` is a prefix of `path`.
pub open spec fn included(dirs: Seq<Seq<char>>, path: Seq<char>) -> bool {
    exists|i: int| 0 <= i < dirs.len() && path_starts_with(path, #[trigger] dirs[i])
}

/// `path` seen as relative: without its root where it is absolute.
pub open spec fn relative(path: Seq<char>) -> Seq<char> {
    if path_is_absolute(path) {
        match path_strip_prefix(path, "/"@) {
            Some(rest) => rest,
            None => path,
        }
    } else {
        path
    }
}

/// Where an entry with this path in the archive is restored: below the
/// prefix where there is one, at the path itself otherwise.
pub open spec fn out_path(prefix: Option<Seq<char>>, path: Seq<char>) -> Seq<char> {
    match prefix {
        Some(base) => path_join(base, relative(path)),
        None => path,
    }
}

/// What restoring `record` takes.
pub open spec fn restore_of(record: Record, prefix: Option<Seq<char>>) -> RestoredView {
    RestoredView {
        entry: record.entry,
        path: out_path(prefix, record.entry.path()),
        content: record.payload,
    }
}

/// What is restored from `records`: the included ones, in their order.
pub open spec fn restores(
    records: Seq<Record>,
    prefix: Option<Seq<char>>,
    dirs: Seq<Seq<char>>,
) -> Seq<RestoredView>
    decreases records.len(),
{
    if records.len() == 0 {
        Seq::empty()
    } else {
        let before = restores(records.drop_last(), prefix, dirs);
        if included(dirs, records.last().entry.path()) {
            before.push(restore_of(records.last(), prefix))
        } else {
            before
        }
    }
}

/// The number of bytes counted as read: the length and record of every
/// entry, and the contents of the files that are restored.
pub open spec fn bytes_read(records: Seq<Record>, dirs: Seq<Seq<char>>) -> nat
    decreases records.len(),
{
    if records.len() == 0 {
        0
    } else {
        bytes_read(records.drop_last(), dirs) + meta_bytes(records.last().entry).len() + if included(
            dirs,
            records.last().entry.path(),
        ) {
            records.last().payload.len()
        } else {
            0
        }
    }
}

/// The position at which reading records from `pos` on stops: the start of
/// the first record that is not whole, or the end of the data.
pub open spec fn stop_at(data: Seq<u8>, pos: int) -> int
    decreases data.len() - pos,
{
    if pos >= data.len() {
        pos
    } else {
        match parse_record(data, pos) {
            Some((_, next)) => if next > pos {
                stop_at(data, next)
            } else {
                pos
            },
            None => pos,
        }
    }
}

/// The error of reading a record at `pos`, where none can be read: that of
/// reading the entry, or of copying contents that are not all there.
pub open spec fn record_error(data: Seq<u8>, pos: int) -> ErrorView {
    if parse_meta(data, pos) is None {
        read_entry_error(data, pos)
    } else {
        snapshot_error("Copy failed"@, short_read())
    }
}

/// Whether one of the roots `dirs` is a prefix of `path`.
pub fn is_include(dirs: &[String], path: &str) -> (found: bool)
    ensures
        found == included(dir_views(dirs@), path@),
{
    let mut i: usize = 0;
    while i < dirs.len()
        invariant
            i <= dirs@.len(),
            forall|j: int| 0 <= j < i ==> !path_starts_with(path@, #[trigger] dir_views(dirs@)[j]),
        decreases dirs@.len() - i,
    {
        if starts_with(path, dirs[i].as_str()) {
            assert(path_starts_with(path@, dir_views(dirs@)[i as int]));
            return true;
        }
        i += 1;
    }
    false
}

/// Where an entry with this path in the archive is restored.
pub fn prefixed(prefix: &Option<String>, path: &str) -> (target: String)
    ensures
        target@ == out_path(prefix_view(*prefix), path@),
{
    match prefix {
        Some(base) => {
            if is_absolute(path) {
                match strip_prefix(path, "/") {
                    Some(rest) => join(base.as_str(), rest.as_str()),
                    None => join(base.as_str(), path),
                }
            } else {
                join(base.as_str(), path)
            }
        },
        None => String::from_str(path),
    }
}

/// Archives that can be unpacked.
pub trait Unpack: Sized {
    /// The decompressed bytes of the archive.
    spec fn archive(&self) -> Seq<u8>;

    /// The position from which the archive is still to be read.
    spec fn offset(&self) -> int;

    /// Whether the archive was decompressed to its end without an error.
    spec fn complete(&self) -> bool;

    /// Reads the archive to its end. Of its entries, those below one of the
    /// roots `dirs` are returned in their order, each with the place to
    /// restore it to and, for a file, its contents; the others are passed
    /// over. Fails where the archive is damaged or what is left of it does
    /// not consist of records.
    fn unpack(self, prefix: Option<String>, dirs: &[String]) -> (result: Result<
        (Vec<Restored>, usize),
        Error,
    >)
        ensures
            match result {
                Ok((restored, read)) => {
                    &&& self.complete()
                    &&& parse_records(self.archive(), self.offset()) is Some
                    &&& records_ok(parse_records(self.archive(), self.offset())->Some_0)
                    &&& restored_views(restored@) == restores(
                        parse_records(self.archive(), self.offset())->Some_0,
                        prefix_view(prefix),
                        dir_views(dirs@),
                    )
                    &&& read == bytes_read(
                        parse_records(self.archive(), self.offset())->Some_0,
                        dir_views(dirs@),
                    )
                },
                Err(error) => {
                    &&& !self.complete() || parse_records(self.archive(), self.offset()) is None
                    &&& error@ == record_error(
                        self.archive(),
                        stop_at(self.archive(), self.offset()),
                    )
                },
            },
    ;
}

impl Unpack for Reading {
    open spec fn archive(&self) -> Seq<u8> {
        self.data()
    }

    open spec fn offset(&self) -> int {
        self.position()
    }

    open spec fn complete(&self) -> bool {
        self.intact()
    }

    fn unpack(self, prefix: Option<String>, dirs: &[String]) -> (result: Result<
        (Vec<Restored>, usize),
        Error,
    >) {
        let mut reading = self;
        let ghost data = reading.data();
        let ghost start = reading.position();
        let ghost pv = prefix_view(prefix);
        let ghost dv = dir_views(dirs@);
        let ghost mut done: Seq<Record> = Seq::empty();
        let mut restored: Vec<Restored> = Vec::new();
        let mut read: usize = 0;
        let left = reading.remaining();
        loop
            invariant
                reading.data() == data,
                reading.intact() == self.intact(),
                data == self.data(),
                start == self.position(),
                pv == prefix_view(prefix),
                dv == dir_views(dirs@),
                0 <= start <= reading.position() <= data.len() <= usize::MAX,
                match parse_records(data, reading.position()) {
                    Some(rest) => parse_records(data, start) == Some(done + rest),
                    None => parse_records(data, start) is None,
                },
                restored_views(restored@) == restores(done, pv, dv),
                read == bytes_read(done, dv),
                read <= reading.position() - start,
                stop_at(data, start) == stop_at(data, reading.position()),
            decreases data.len() - reading.position(),
        {
            let ghost pos = reading.position();
            let (entry, used) = match reading.read_entry() {
                Err(error) => {
                    return Err(error);
                },
                Ok(None) => {
                    proof {
                        assert(done + Seq::<Record>::empty() =~= done);
                        crate::snapshot::format::lemma_records_of_parse_records(data, start);
                    }
                    return Ok((restored, read));
                },
                Ok(Some(found)) => found,
            };
            proof {
                lemma_meta_of_parse_meta(data, pos);
            }
            let ghost next = pos + used;
            let wanted = is_include(dirs, entry.as_path());
            let mut content: Vec<u8> = Vec::new();
            let mut counted: usize = 0;
            if let Some((_, _, _, len)) = entry.as_file() {
                if wanted {
                    counted = match reading.copy_to(&mut content, len) {
                        Ok(n) => n,
                        Err(error) => {
                            return Err(error);
                        },
                    };
                } else {
                    match reading.skip(len) {
                        Ok(_) => {},
                        Err(error) => {
                            return Err(error);
                        },
                    }
                }
            }
            let ghost record = Record {
                entry: entry@,
                payload: data.subrange(next, next + entry@.payload_len()),
            };
            proof {
                assert(parse_record(data, pos) == Some((record, reading.position())));
                let all = done.push(record);
                assert(all.drop_last() =~= done);
                assert(all.last() == record);
                match parse_records(data, reading.position()) {
                    Some(rest) => {
                        assert(all + rest =~= done + (seq![record] + rest));
                    },
                    None => {},
                }
                if wanted {
                    assert(content@ =~= record.payload);
                }
                done = all;
            }
            read = read + used + counted;
            if wanted {
                let path = prefixed(&prefix, entry.as_path());
                restored.push(Restored { entry, path, content });
                assert(restored_views(restored@) =~= restores(done, pv, dv));
            }
        }
    }
}

/// The restored entries are the included ones: where every entry lies
/// below one of the roots, each is restored, in its place in the order.
pub proof fn lemma_restores_all(
    records: Seq<Record>,
    prefix: Option<Seq<char>>,
    dirs: Seq<Seq<char>>,
)
    requires
        forall|i: int| 0 <= i < records.len() ==> included(dirs, (#[trigger] records[i]).entry.path()),
    ensures
        restores(records, prefix, dirs).len() == records.len(),
        forall|i: int|
            0 <= i < records.len() ==> #[trigger] restores(records, prefix, dirs)[i] == restore_of(
                records[i],
                prefix,
            ),
    decreases records.len(),
{
    if records.len() > 0 {
        let shorter = records.drop_last();
        assert forall|i: int| 0 <= i < shorter.len() implies included(
            dirs,
            (#[trigger] shorter[i]).entry.path(),
        ) by {
            assert(shorter[i] == records[i]);
        }
        lemma_restores_all(shorter, prefix, dirs);
        assert(included(dirs, records.last().entry.path())) by {
            assert(records.last() == records[records.len() - 1]);
        }
    }
}

/// Where the first `n` entries of an archive lie below one of the roots
/// and those after them do not, exactly the first `n` are restored, each at
/// its path below the prefix with its own contents; the others are passed
/// over.
pub proof fn lemma_restores_front(
    records: Seq<Record>,
    n: int,
    prefix: Option<Seq<char>>,
    dirs: Seq<Seq<char>>,
)
    requires
        0 <= n <= records.len(),
        forall|i: int| 0 <= i < n ==> included(dirs, (#[trigger] records[i]).entry.path()),
        forall|i: int|
            n <= i < records.len() ==> !included(dirs, (#[trigger] records[i]).entry.path()),
    ensures
        restores(records, prefix, dirs).len() == n,
        forall|i: int|
            0 <= i < n ==> #[trigger] restores(records, prefix, dirs)[i] == restore_of(
                records[i],
                prefix,
            ),
    decreases records.len(),
{
    if n == records.len() {
        lemma_restores_all(records, prefix, dirs);
    } else {
        let shorter = records.drop_last();
        assert(records.last() == records[records.len() - 1]);
        assert forall|i: int| 0 <= i < n implies included(
            dirs,
            (#[trigger] shorter[i]).entry.path(),
        ) by {
            assert(shorter[i] == records[i]);
        }
        assert forall|i: int| n <= i < shorter.len() implies !included(
            dirs,
            (#[trigger] shorter[i]).entry.path(),
        ) by {
            assert(shorter[i] == records[i]);
        }
        lemma_restores_front(shorter, n, prefix, dirs);
        assert forall|i: int| 0 <= i < n implies #[trigger] restores(records, prefix, dirs)[i]
            == restore_of(records[i], prefix) by {
            assert(shorter[i] == records[i]);
        }
    }
}

/// Exactly the entries below one of the roots are restored: every restored
/// entry is one of them, and each of them is restored.
pub proof fn lemma_restores_exactly_included(
    records: Seq<Record>,
    prefix: Option<Seq<char>>,
    dirs: Seq<Seq<char>>,
)
    ensures
        forall|j: int|
            0 <= j < restores(records, prefix, dirs).len() ==> included(
                dirs,
                (#[trigger] restores(records, prefix, dirs)[j]).entry.path(),
            ) && exists|i: int|
                0 <= i < records.len() && restores(records, prefix, dirs)[j] == restore_of(
                    #[trigger] records[i],
                    prefix,
                ),
        forall|i: int|
            0 <= i < records.len() && included(dirs, (#[trigger] records[i]).entry.path())
                ==> restores(records, prefix, dirs).contains(restore_of(records[i], prefix)),
        restores(records, prefix, dirs).len() <= records.len(),
    decreases records.len(),
{
    if records.len() > 0 {
        let shorter = records.drop_last();
        let last = records.last();
        lemma_restores_exactly_included(shorter, prefix, dirs);
        let before = restores(shorter, prefix, dirs);
        let all = restores(records, prefix, dirs);
        assert forall|j: int| 0 <= j < all.len() implies included(
            dirs,
            (#[trigger] all[j]).entry.path(),
        ) && exists|i: int|
            0 <= i < records.len() && all[j] == restore_of(#[trigger] records[i], prefix) by {
            if j < before.len() {
                assert(all[j] == before[j]);
                let i = choose|i: int|
                    0 <= i < shorter.len() && before[j] == restore_of(#[trigger] shorter[i], prefix);
                assert(shorter[i] == records[i]);
            } else {
                assert(all[j] == restore_of(records[records.len() - 1], prefix));
            }
        }
        assert forall|i: int|
            0 <= i < records.len() && included(
                dirs,
                (#[trigger] records[i]).entry.path(),
            ) implies all.contains(restore_of(records[i], prefix)) by {
            if i < shorter.len() {
                assert(shorter[i] == records[i]);
                let x = restore_of(records[i], prefix);
                assert(before.contains(x));
                let j = choose|j: int| 0 <= j < before.len() && before[j] == x;
                assert(all[j] == x);
            } else {
                assert(all[all.len() - 1] == restore_of(records[i], prefix));
            }
        }
    }
}

/// Round trip: the records read from the bytes of an archive are the
/// records that were written, and where every entry lies below one of the
/// roots, each is restored with its own attributes, target and contents, at
/// its path below the prefix.
pub proof fn lemma_unpack_of_pack(
    records: Seq<Record>,
    prefix: Option<Seq<char>>,
    dirs: Seq<Seq<char>>,
)
    requires
        records_ok(records),
        forall|i: int| 0 <= i < records.len() ==> included(dirs, (#[trigger] records[i]).entry.path()),
    ensures
        parse_records(archive_bytes(records), 4) == Some(records),
        restores(records, prefix, dirs).len() == records.len(),
        forall|i: int|
            0 <= i < records.len() ==> #[trigger] restores(records, prefix, dirs)[i] == (
            RestoredView {
                entry: records[i].entry,
                path: out_path(prefix, records[i].entry.path()),
                content: records[i].payload,
            }),
{
    lemma_archive_round_trip(records);
    lemma_restores_all(records, prefix, dirs);
}


/// What was packed is what is unpacked: of a compressed archive that reads
/// back as the version header and `records`, which is what packing them
/// gives, unpacking finds the version header, reads exactly `records`,
/// and, where every entry lies below one of the roots, restores each at its
/// path below the prefix with its own contents.
pub proof fn lemma_restore_of_archive(
    records: Seq<Record>,
    archive: Seq<u8>,
    prefix: Option<Seq<char>>,
    dirs: Seq<Seq<char>>,
)
    requires
        records_ok(records),
        crate::snapshot::snappy::snap_decode(archive) == (archive_bytes(records), true),
        forall|i: int| 0 <= i < records.len() ==> included(dirs, (#[trigger] records[i]).entry.path()),
    ensures
        ({
            let (data, intact) = crate::snapshot::snappy::snap_decode(archive);
            &&& intact
            &&& data.len() >= 4
            &&& data.subrange(0, 4) == crate::snapshot::format::version()
            &&& parse_records(data, 4) == Some(records)
            &&& stop_at(data, 4) == data.len()
            &&& restores(records, prefix, dirs).len() == records.len()
            &&& forall|i: int|
                0 <= i < records.len() ==> #[trigger] restores(records, prefix, dirs)[i]
                    == restore_of(records[i], prefix)
        }),
{
    lemma_unpack_of_pack(records, prefix, dirs);
    lemma_stop_at_end(archive_bytes(records), 4);
}

/// Reading records stops at the end of data that consists of records.
pub proof fn lemma_stop_at_end(data: Seq<u8>, pos: int)
    requires
        0 <= pos,
        parse_records(data, pos) is Some,
    ensures
        stop_at(data, pos) == data.len(),
    decreases data.len() - pos,
{
    if pos < data.len() {
        let (record, next) = parse_record(data, pos)->Some_0;
        lemma_stop_at_end(data, next);
    }
}

} // verus!
