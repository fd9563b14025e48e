//! Packing a sorted sequence of entries, with the contents of the files
//! among them, into an archive.

use vstd::prelude::*;

use crate::errors::{Error, ErrorView};
use crate::paths::path_le;
use crate::snapshot::diff::distinct_paths;
use crate::snapshot::entry::{sorted_by_path, views, Entry, EntryView};
use crate::snapshot::format::{
    archive_bytes, lemma_records_bytes_push, meta_ok, record_bytes, record_ok, records_bytes, records_ok, Record,
};
use crate::snapshot::snappy::{chunks_hold_checksum, snap_decode, snap_frame};
use crate::snapshot::writing::{frames, record_too_long, short_read, snapshot_error, Writing};

verus! {

/// The views of the contents, in the same order.
pub open spec fn content_views(contents: Seq<Vec<u8>>) -> Seq<Seq<u8>> {
    contents.map_values(|content: Vec<u8>| content@)
}

/// The payload that follows the entry at position `i`: for a file that is
/// not empty, as many bytes of the contents at `i` as the entry says.
pub open spec fn payload_of(entry: EntryView, contents: Seq<Seq<u8>>, i: int) -> Seq<u8> {
    if entry.payload_len() > 0 && 0 <= i < contents.len() {
        contents[i].subrange(0, entry.payload_len() as int)
    } else {
        Seq::empty()
    }
}

/// The records of an archive of these entries and contents.
pub open spec fn records_of(entries: Seq<EntryView>, contents: Seq<Seq<u8>>) -> Seq<Record> {
    Seq::new(
        entries.len(),
        |i: int| Record { entry: entries[i], payload: payload_of(entries[i], contents, i) },
    )
}

/// Whether the entry at position `i` can be packed: its record fits, and
/// for a file that is not empty the contents at `i` are long enough.
pub open spec fn packable_at(entries: Seq<EntryView>, contents: Seq<Seq<u8>>, i: int) -> bool {
    &&& meta_ok(entries[i])
    &&& entries[i].payload_len() > 0 ==> i < contents.len() && contents[i].len()
        >= entries[i].payload_len()
}

/// The error of packing the entry at position `i`, which cannot be packed.
pub open spec fn pack_error(entries: Seq<EntryView>, i: int) -> ErrorView {
    if !meta_ok(entries[i]) {
        snapshot_error("Create metadata failed"@, record_too_long())
    } else {
        snapshot_error("Write data failed"@, short_read())
    }
}

/// Whether `i` is the position of the first entry that cannot be packed.
pub open spec fn first_unpackable(entries: Seq<EntryView>, contents: Seq<Seq<u8>>, i: int) -> bool {
    &&& 0 <= i < entries.len()
    &&& !packable_at(entries, contents, i)
    &&& forall|j: int| 0 <= j < i ==> packable_at(entries, contents, j)
}

/// Whether every entry can be packed.
pub open spec fn packable(entries: Seq<EntryView>, contents: Seq<Seq<u8>>) -> bool {
    forall|i: int| 0 <= i < entries.len() ==> packable_at(entries, contents, i)
}

/// The records of packable entries can stand in an archive.
pub proof fn lemma_records_of_ok(entries: Seq<EntryView>, contents: Seq<Seq<u8>>)
    requires
        packable(entries, contents),
    ensures
        records_ok(records_of(entries, contents)),
        records_of(entries, contents).len() == entries.len(),
{
    assert forall|i: int| 0 <= i < entries.len() implies record_ok(
        #[trigger] records_of(entries, contents)[i],
    ) by {
        assert(packable_at(entries, contents, i));
    }
}

/// Determinism: the archive is a function of the entries and of the
/// payloads of the files among them. Two trees with the same entries in the
/// same order, and the same payload for each, give the same bytes, before
/// compression and after it.
pub proof fn lemma_same_tree_same_archive(
    entries: Seq<EntryView>,
    first: Seq<Seq<u8>>,
    second: Seq<Seq<u8>>,
)
    requires
        forall|i: int|
            0 <= i < entries.len() ==> payload_of(entries[i], first, i) == payload_of(
                entries[i],
                second,
                i,
            ),
    ensures
        records_of(entries, first) == records_of(entries, second),
        archive_bytes(records_of(entries, first)) == archive_bytes(records_of(entries, second)),
        snap_frame(archive_bytes(records_of(entries, first))) == snap_frame(
            archive_bytes(records_of(entries, second)),
        ),
{
    assert(records_of(entries, first) =~= records_of(entries, second));
}

/// Whether the order of paths tells the paths of `entries` apart: no two
/// of them that differ as texts stand each before the other. That holds of
/// paths in their canonical form.
pub open spec fn order_tells_apart(entries: Seq<EntryView>) -> bool {
    forall|i: int, j: int|
        0 <= i < entries.len() && 0 <= j < entries.len() && path_le(
            (#[trigger] entries[i]).path(),
            (#[trigger] entries[j]).path(),
        ) && path_le(entries[j].path(), entries[i].path()) ==> entries[i].path()
            == entries[j].path()
}

/// There is one way only to put the entries of a tree in the order of
/// their paths, where no path occurs twice and the order tells the paths
/// apart.
pub proof fn lemma_sorted_is_unique(a: Seq<EntryView>, b: Seq<EntryView>)
    requires
        a.to_multiset() == b.to_multiset(),
        sorted_by_path(a),
        sorted_by_path(b),
        distinct_paths(a),
        order_tells_apart(a),
    ensures
        a == b,
    decreases a.len(),
{
    vstd::seq_lib::to_multiset_len(a);
    vstd::seq_lib::to_multiset_len(b);
    if a.len() == 0 {
        assert(a =~= b);
    } else {
        let x = a[0];
        let y = b[0];
        vstd::seq_lib::to_multiset_contains(b, y);
        vstd::seq_lib::to_multiset_contains(a, y);
        assert(b.contains(y));
        let i = choose|i: int| 0 <= i < a.len() && a[i] == y;
        vstd::seq_lib::to_multiset_contains(a, x);
        vstd::seq_lib::to_multiset_contains(b, x);
        assert(a.contains(x));
        let j = choose|j: int| 0 <= j < b.len() && b[j] == x;
        if i > 0 {
            assert(path_le(a[0].path(), a[i].path()));
            if j > 0 {
                assert(path_le(b[0].path(), b[j].path()));
            }
            assert(a[0].path() == a[i].path());
        }
        assert(x == y);
        let rest_a = a.remove(0);
        let rest_b = b.remove(0);
        vstd::seq_lib::to_multiset_remove(a, 0);
        vstd::seq_lib::to_multiset_remove(b, 0);
        assert forall|k: int, m: int| 0 <= k < m < rest_a.len() implies path_le(
            (#[trigger] rest_a[k]).path(),
            (#[trigger] rest_a[m]).path(),
        ) && rest_a[k].path() != rest_a[m].path() by {
            assert(rest_a[k] == a[k + 1] && rest_a[m] == a[m + 1]);
        }
        assert forall|k: int, m: int| 0 <= k < m < rest_b.len() implies path_le(
            (#[trigger] rest_b[k]).path(),
            (#[trigger] rest_b[m]).path(),
        ) by {
            assert(rest_b[k] == b[k + 1] && rest_b[m] == b[m + 1]);
        }
        assert forall|k: int, m: int|
            0 <= k < rest_a.len() && 0 <= m < rest_a.len() && path_le(
                (#[trigger] rest_a[k]).path(),
                (#[trigger] rest_a[m]).path(),
            ) && path_le(rest_a[m].path(), rest_a[k].path()) implies rest_a[k].path()
            == rest_a[m].path() by {
            assert(rest_a[k] == a[k + 1] && rest_a[m] == a[m + 1]);
        }
        lemma_sorted_is_unique(rest_a, rest_b);
        assert forall|k: int| 0 <= k < a.len() implies a[k] == b[k] by {
            if k > 0 {
                assert(rest_a[k - 1] == a[k] && rest_b[k - 1] == b[k]);
            }
        }
        assert(a =~= b);
    }
}

/// Determinism of walking and packing: two walks of one tree, in whatever
/// order they find its entries, sort to the same sequence, and with the
/// same payloads they pack to the same archive, byte for byte. The tree
/// holds no path twice, and the order of paths tells its paths apart.
pub proof fn lemma_two_walks_same_archive(
    found: Seq<EntryView>,
    found_again: Seq<EntryView>,
    sorted: Seq<EntryView>,
    sorted_again: Seq<EntryView>,
    contents: Seq<Seq<u8>>,
    contents_again: Seq<Seq<u8>>,
)
    requires
        found.to_multiset() == found_again.to_multiset(),
        sorted.to_multiset() == found.to_multiset(),
        sorted_again.to_multiset() == found_again.to_multiset(),
        sorted_by_path(sorted),
        sorted_by_path(sorted_again),
        distinct_paths(sorted),
        order_tells_apart(sorted),
        forall|i: int|
            0 <= i < sorted.len() ==> payload_of(sorted[i], contents, i) == payload_of(
                sorted[i],
                contents_again,
                i,
            ),
    ensures
        sorted == sorted_again,
        archive_bytes(records_of(sorted, contents)) == archive_bytes(
            records_of(sorted_again, contents_again),
        ),
        snap_frame(archive_bytes(records_of(sorted, contents))) == snap_frame(
            archive_bytes(records_of(sorted_again, contents_again)),
        ),
{
    lemma_sorted_is_unique(sorted, sorted_again);
    lemma_same_tree_same_archive(sorted, contents, contents_again);
}

/// Archives that whole sequences of entries can be packed into.
pub trait Pack {
    /// The bytes that the sink holds.
    spec fn sink_bytes(&self) -> Seq<u8>;

    /// The bytes written since the last flush.
    spec fn pending_bytes(&self) -> Seq<u8>;

    /// Writes each entry, followed by its contents where it is a file that
    /// is not empty, and flushes. `contents` holds at position `i` the
    /// contents of the file that `entries` holds at `i`. Succeeds where
    /// every entry can be packed, and then returns the number of bytes
    /// written before compression. The same entries and contents always give
    /// the same archive.
    fn pack_with_entries(&mut self, entries: &[Entry], contents: &[Vec<u8>]) -> (result: Result<
        usize,
        Error,
    >)
        ensures
            match result {
                Ok(written) => {
                    let records = records_of(views(entries@), content_views(contents@));
                    let stream = old(self).pending_bytes() + records_bytes(records);
                    &&& packable(views(entries@), content_views(contents@))
                    &&& records_ok(records)
                    &&& written == records_bytes(records).len()
                    &&& final(self).pending_bytes() == Seq::<u8>::empty()
                    &&& final(self).sink_bytes() == old(self).sink_bytes() + frames(stream)
                    &&& stream.len() > 0 ==> snap_decode(snap_frame(stream)) == (stream, true)
                    &&& stream.len() > 0 ==> chunks_hold_checksum(snap_frame(stream), 0)
                },
                Err(error) => {
                    &&& !packable(views(entries@), content_views(contents@))
                    &&& final(self).sink_bytes() == old(self).sink_bytes()
                    &&& exists|i: int|
                        first_unpackable(views(entries@), content_views(contents@), i) && error@
                            == pack_error(views(entries@), i)
                },
            },
    ;
}

impl Pack for Writing {
    open spec fn sink_bytes(&self) -> Seq<u8> {
        self.sink()
    }

    open spec fn pending_bytes(&self) -> Seq<u8> {
        self.pending()
    }

    fn pack_with_entries(&mut self, entries: &[Entry], contents: &[Vec<u8>]) -> (result: Result<
        usize,
        Error,
    >) {
        let ghost all = views(entries@);
        let ghost data = content_views(contents@);
        let ghost records = records_of(all, data);
        let ghost start = self.pending();
        let mut written: usize = 0;
        let mut i: usize = 0;
        while i < entries.len()
            invariant
                i <= entries@.len(),
                all == views(entries@),
                data == content_views(contents@),
                records == records_of(all, data),
                start == old(self).pending(),
                self.sink() == old(self).sink(),
                self.pending() == start + records_bytes(records.take(i as int)),
                written == records_bytes(records.take(i as int)).len(),
                forall|j: int| 0 <= j < i ==> packable_at(all, data, j),
            decreases entries@.len() - i,
        {
            let entry = &entries[i];
            let ghost before = self.pending();
            let meta_len = match self.write_entry(entry) {
                Ok(n) => n,
                Err(error) => {
                    assert(first_unpackable(all, data, i as int));
                    assert(error@ == pack_error(all, i as int));
                    return Err(error);
                },
            };
            let mut payload_len: usize = 0;
            if let Some((_, _, _, len)) = entry.as_file() {
                if len > 0 {
                    if i >= contents.len() {
                        assert(first_unpackable(all, data, i as int));
                        let failed = Error::snapshot("Write data failed", "failed to fill whole buffer");
                        assert(failed@ == pack_error(all, i as int));
                        return Err(failed);
                    }
                    payload_len = match self.write_file(contents[i].as_slice(), Some(len)) {
                        Ok(n) => n,
                        Err(error) => {
                            assert(data[i as int] == contents@[i as int]@);
                            assert(first_unpackable(all, data, i as int));
                            assert(error@ == pack_error(all, i as int));
                            return Err(error);
                        },
                    };
                }
            }
            proof {
                let record = records[i as int];
                assert(self.pending() =~= before + record_bytes(record));
                assert(records.take(i + 1) =~= records.take(i as int).push(record));
                lemma_records_bytes_push(records.take(i as int), record);
                assert(self.pending() =~= start + records_bytes(records.take(i + 1)));
            }
            let total = self.pending_len();
            assert(written + meta_len + payload_len == records_bytes(records.take(i + 1)).len());
            assert(written + meta_len + payload_len <= total);
            written = written + meta_len + payload_len;
            i += 1;
        }
        assert(records.take(i as int) =~= records);
        let _ = self.flush();
        proof {
            lemma_records_of_ok(all, data);
        }
        Ok(written)
    }
}

} // verus!
