//! Writing an archive: the version header, entries and file contents, and
//! the compressed frames that a flush hands to the sink.

use vstd::prelude::*;
use vstd::slice::slice_subrange;

use crate::bytes::IntoLeBytes;
use crate::errors::{Error, ErrorView, KindView};
use crate::snapshot::codec::encode_entry;
use crate::snapshot::constants::{BUFFER_SIZE, VERSION};
use crate::snapshot::entry::Entry;
use crate::snapshot::format::{meta_bytes, meta_ok, version};
use crate::snapshot::snappy::{chunks_hold_checksum, compress, snap_decode, snap_frame};

verus! {

/// An archive being written. What is written waits, uncompressed, until a
/// flush compresses it and appends the frames to the sink.
#[derive(Debug)]
pub struct Writing {
    writer: Vec<u8>,
    pending: Vec<u8>,
}

/// The cause recorded when the record of an entry is longer than 32 bits can count.
pub open spec fn record_too_long() -> Seq<char> {
    "record length out of range"@
}

/// The cause recorded when fewer bytes are at hand than are asked for.
pub open spec fn short_read() -> Seq<char> {
    "failed to fill whole buffer"@
}

/// The frames that a flush appends to the sink for what is pending:
/// nothing where nothing is pending.
pub open spec fn frames(pending: Seq<u8>) -> Seq<u8> {
    if pending.len() == 0 {
        Seq::empty()
    } else {
        snap_frame(pending)
    }
}

/// A snapshot error with this message and cause.
pub open spec fn snapshot_error(message: Seq<char>, cause: Seq<char>) -> ErrorView {
    ErrorView { kind: KindView::Snapshot(message), cause: Some(cause) }
}

impl Writing {
    /// The bytes that the sink holds: what was there at the start, then the
    /// frames of each flush.
    pub closed spec fn sink(&self) -> Seq<u8> {
        self.writer@
    }

    /// The bytes written since the last flush, uncompressed.
    pub closed spec fn pending(&self) -> Seq<u8> {
        self.pending@
    }

    /// A new archive on top of `writer`, with the version header written.
    pub fn from(writer: Vec<u8>) -> (result: Result<Writing, Error>)
        ensures
            result is Ok,
            result->Ok_0.sink() == writer@,
            result->Ok_0.pending() == version(),
    {
        let mut writing = Writing { writer, pending: Vec::new() };
        match writing.write_version() {
            Ok(()) => Ok(writing),
            Err(error) => Err(error),
        }
    }

    /// Writes the version header.
    pub fn write_version(&mut self) -> (result: Result<(), Error>)
        ensures
            result is Ok,
            final(self).sink() == old(self).sink(),
            final(self).pending() == old(self).pending() + version(),
    {
        self.pending.extend_from_slice(&VERSION);
        assert(VERSION@ =~= version());
        Ok(())
    }

    /// Compresses what was written since the last flush and appends the
    /// frames to the sink. Reading these frames back gives what was written.
    pub fn flush(&mut self) -> (result: Result<(), Error>)
        ensures
            result is Ok,
            final(self).sink() == old(self).sink() + frames(old(self).pending()),
            final(self).pending() == Seq::<u8>::empty(),
            old(self).pending().len() > 0 ==> snap_decode(snap_frame(old(self).pending())) == (
                old(self).pending(),
                true,
            ),
            old(self).pending().len() > 0 ==> chunks_hold_checksum(
                snap_frame(old(self).pending()),
                0,
            ),
    {
        if self.pending.len() > 0 {
            let framed = compress(self.pending.as_slice());
            self.writer.extend_from_slice(framed.as_slice());
            self.pending.clear();
        } else {
            assert(self.writer@ + Seq::<u8>::empty() =~= self.writer@);
            assert(self.pending@ =~= Seq::<u8>::empty());
        }
        Ok(())
    }

    /// Writes the length of the record of `entry`, then the record. An
    /// entry whose record is longer than 32 bits can count is refused, and
    /// nothing is written.
    pub fn write_entry(&mut self, entry: &Entry) -> (result: Result<usize, Error>)
        ensures
            final(self).sink() == old(self).sink(),
            match result {
                Ok(written) => {
                    &&& meta_ok(entry@)
                    &&& written == meta_bytes(entry@).len()
                    &&& final(self).pending() == old(self).pending() + meta_bytes(entry@)
                },
                Err(error) => {
                    &&& !meta_ok(entry@)
                    &&& final(self).pending() == old(self).pending()
                    &&& error@ == snapshot_error("Create metadata failed"@, record_too_long())
                },
            },
    {
        let meta = encode_entry(entry);
        if meta.len() > 0xffff_ffff {
            return Error::snapshot_err("Create metadata failed", "record length out of range");
        }
        let before = self.pending.len();
        let len = meta.len() as u32;
        let bytes = len.into_le_bytes();
        self.pending.extend_from_slice(&bytes);
        self.pending.extend_from_slice(meta.as_slice());
        assert(self.pending@ =~= old(self).pending@ + meta_bytes(entry@));
        Ok(self.pending.len() - before)
    }

    /// Writes the first `len` bytes of the contents of a file, or all of
    /// them where `len` is none, in chunks of [`BUFFER_SIZE`]. Where the
    /// contents are shorter than `len`, nothing is written.
    pub fn write_file(&mut self, content: &[u8], len: Option<usize>) -> (result: Result<
        usize,
        Error,
    >)
        ensures
            final(self).sink() == old(self).sink(),
            ({
                let wanted = match len {
                    Some(n) => n as int,
                    None => content@.len() as int,
                };
                match result {
                    Ok(written) => {
                        &&& wanted <= content@.len()
                        &&& written == wanted
                        &&& final(self).pending() == old(self).pending() + content@.subrange(
                            0,
                            wanted,
                        )
                    },
                    Err(error) => {
                        &&& wanted > content@.len()
                        &&& final(self).pending() == old(self).pending()
                        &&& error@ == snapshot_error("Write data failed"@, short_read())
                    },
                }
            }),
    {
        let wanted = match len {
            Some(n) => n,
            None => content.len(),
        };
        if wanted > content.len() {
            return Error::snapshot_err("Write data failed", "failed to fill whole buffer");
        }
        let ghost before = self.pending@;
        let mut written: usize = 0;
        while written < wanted
            invariant
                written <= wanted <= content@.len(),
                self.writer == old(self).writer,
                self.pending@ == before + content@.subrange(0, written as int),
            decreases wanted - written,
        {
            let left = wanted - written;
            let chunk = if left < BUFFER_SIZE {
                left
            } else {
                BUFFER_SIZE
            };
            let part = slice_subrange(content, written, written + chunk);
            self.pending.extend_from_slice(part);
            assert(self.pending@ =~= before + content@.subrange(0, written + chunk));
            written = written + chunk;
        }
        assert(before + content@.subrange(0, 0) =~= before);
        Ok(written)
    }

    /// The number of bytes written since the last flush.
    pub fn pending_len(&self) -> (len: usize)
        ensures
            len == self.pending().len(),
    {
        self.pending.len()
    }

    /// Flushes, and hands out the sink.
    pub fn into_inner(self) -> (sink: Vec<u8>)
        ensures
            sink@ == self.sink() + frames(self.pending()),
            self.pending().len() > 0 ==> snap_decode(snap_frame(self.pending())) == (
                self.pending(),
                true,
            ),
            self.pending().len() > 0 ==> chunks_hold_checksum(snap_frame(self.pending()), 0),
    {
        let mut writing = self;
        let _ = writing.flush();
        writing.writer
    }
}

} // verus!
