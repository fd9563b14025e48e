//! Reading an archive: the version header, then entry by entry, with the
//! contents of files copied out or skipped.

use vstd::prelude::*;
use vstd::slice::slice_subrange;
use vstd::string::*;

use crate::bytes::{le_value, FromLeBytes};
use crate::errors::Error;
use crate::snapshot::codec::decode_entry;
use crate::snapshot::constants::{BUFFER_SIZE, VERSION};
use crate::snapshot::entry::Entry;
use crate::snapshot::format::{parse_meta, version};
use crate::snapshot::snappy::{chunks_hold_checksum, decompress, frames_ok, snap_decode};
use crate::snapshot::writing::{short_read, snapshot_error};
use crate::text::{decimal_text, push_decimal, push_str, string_of};

verus! {

/// An archive being read: the bytes that could be decompressed, and how
/// far they have been read.
#[derive(Debug)]
pub struct Reading {
    data: Vec<u8>,
    pos: usize,
    intact: bool,
}

/// The cause recorded when the bytes of a record are not the record of an entry.
pub open spec fn bad_record() -> Seq<char> {
    "invalid entry record"@
}

/// The error of compressed bytes in which a chunk of data is too short to
/// hold its checksum.
pub open spec fn short_chunk() -> crate::errors::ErrorView {
    snapshot_error("Read frame failed"@, "chunk too short for its checksum"@)
}

/// The cause recorded for a version header other than the expected one.
pub open spec fn mismatch_text(got: Seq<u8>) -> Seq<char> {
    "Expected [160, 241, 178, 1], got ["@ + decimal_text(got[0] as nat) + ", "@ + decimal_text(
        got[1] as nat,
    ) + ", "@ + decimal_text(got[2] as nat) + ", "@ + decimal_text(got[3] as nat) + "]"@
}

/// The error of reading an entry at `pos`, where there is none to read.
pub open spec fn read_entry_error(data: Seq<u8>, pos: int) -> crate::errors::ErrorView {
    if pos + 4 > data.len() {
        snapshot_error("Read entry size failed"@, short_read())
    } else if pos + 4 + le_value(data.subrange(pos, pos + 4)) > data.len() {
        snapshot_error("Read entry failed"@, short_read())
    } else {
        snapshot_error("Read entry failed"@, bad_record())
    }
}

impl Reading {
    #[verifier::type_invariant]
    spec fn in_bounds(self) -> bool {
        self.pos <= self.data@.len()
    }

    /// The decompressed bytes of the archive.
    pub closed spec fn data(&self) -> Seq<u8> {
        self.data@
    }

    /// The number of bytes read so far.
    pub closed spec fn position(&self) -> int {
        self.pos as int
    }

    /// Whether the archive was decompressed to its end without an error.
    pub closed spec fn intact(&self) -> bool {
        self.intact
    }

    /// Opens a compressed archive and checks its version header. Bytes in
    /// which a chunk of data is too short to hold its checksum are refused
    /// before anything is decompressed.
    pub fn from(reader: &[u8]) -> (result: Result<Reading, Error>)
        ensures
            ({
                let (data, intact) = snap_decode(reader@);
                match result {
                    Ok(reading) => {
                        &&& chunks_hold_checksum(reader@, 0)
                        &&& data.len() >= 4
                        &&& data.subrange(0, 4) == version()
                        &&& reading.data() == data
                        &&& reading.intact() == intact
                        &&& reading.position() == 4
                    },
                    Err(error) => if !chunks_hold_checksum(reader@, 0) {
                        error@ == short_chunk()
                    } else if data.len() < 4 {
                        error@ == snapshot_error("Read version header failed"@, short_read())
                    } else {
                        data.subrange(0, 4) != version() && error@ == snapshot_error(
                            "Version header mismatch"@,
                            mismatch_text(data.subrange(0, 4)),
                        )
                    },
                }
            }),
    {
        if !frames_ok(reader) {
            return Error::snapshot_err("Read frame failed", "chunk too short for its checksum");
        }
        let (data, intact) = decompress(reader);
        let mut reading = Reading { data, pos: 0, intact };
        match reading.check_version() {
            Ok(()) => Ok(reading),
            Err(error) => Err(error),
        }
    }

    /// The number of bytes that are left to read.
    pub fn remaining(&self) -> (left: usize)
        ensures
            left == self.data().len() - self.position(),
            0 <= self.position() <= self.data().len() <= usize::MAX,
    {
        proof {
            use_type_invariant(self);
        }
        self.data.len() - self.pos
    }

    /// Reads the version header and compares it with the expected one.
    /// Where it fails, nothing is read.
    pub fn check_version(&mut self) -> (result: Result<(), Error>)
        ensures
            final(self).data() == old(self).data(),
            final(self).intact() == old(self).intact(),
            ({
                let data = old(self).data();
                let pos = old(self).position();
                match result {
                    Ok(()) => {
                        &&& pos + 4 <= data.len()
                        &&& data.subrange(pos, pos + 4) == version()
                        &&& final(self).position() == pos + 4
                    },
                    Err(error) => {
                        &&& final(self).position() == pos
                        &&& if pos + 4 > data.len() {
                            error@ == snapshot_error("Read version header failed"@, short_read())
                        } else {
                            data.subrange(pos, pos + 4) != version() && error@ == snapshot_error(
                                "Version header mismatch"@,
                                mismatch_text(data.subrange(pos, pos + 4)),
                            )
                        }
                    },
                }
            }),
    {
        if self.remaining() < 4 {
            return Error::snapshot_err("Read version header failed", "failed to fill whole buffer");
        }
        let buf = slice_subrange(self.data.as_slice(), self.pos, self.pos + 4);
        if buf[0] == VERSION[0] && buf[1] == VERSION[1] && buf[2] == VERSION[2] && buf[3]
            == VERSION[3] {
            assert(buf@ =~= version());
            self.pos = self.pos + 4;
            Ok(())
        } else {
            let mut text: Vec<char> = Vec::new();
            push_str(&mut text, "Expected [160, 241, 178, 1], got [");
            push_decimal(&mut text, buf[0] as u64);
            push_str(&mut text, ", ");
            push_decimal(&mut text, buf[1] as u64);
            push_str(&mut text, ", ");
            push_decimal(&mut text, buf[2] as u64);
            push_str(&mut text, ", ");
            push_decimal(&mut text, buf[3] as u64);
            push_str(&mut text, "]");
            let cause = string_of(text.as_slice());
            assert(cause@ =~= mismatch_text(buf@));
            Error::snapshot_err("Version header mismatch", cause.as_str())
        }
    }

    /// Reads the next entry and returns it with the number of bytes read,
    /// or none at the end of an intact archive. Where it fails, nothing is read.
    pub fn read_entry(&mut self) -> (result: Result<Option<(Entry, usize)>, Error>)
        ensures
            final(self).data() == old(self).data(),
            final(self).intact() == old(self).intact(),
            0 <= old(self).position() <= old(self).data().len(),
            ({
                let data = old(self).data();
                let pos = old(self).position();
                let at_end = pos == data.len() && old(self).intact();
                match result {
                    Ok(Some((entry, used))) => {
                        &&& !at_end
                        &&& parse_meta(data, pos) == Some((entry@, pos + used))
                        &&& final(self).position() == pos + used
                    },
                    Ok(None) => at_end && final(self).position() == pos,
                    Err(error) => {
                        &&& !at_end
                        &&& parse_meta(data, pos) is None
                        &&& final(self).position() == pos
                        &&& error@ == read_entry_error(data, pos)
                    },
                }
            }),
    {
        let left = self.remaining();
        if left == 0 && self.intact {
            return Ok(None);
        }
        if left < 4 {
            return Error::snapshot_err("Read entry size failed", "failed to fill whole buffer");
        }
        let prefix = slice_subrange(self.data.as_slice(), self.pos, self.pos + 4);
        let buf: [u8; 4] = [prefix[0], prefix[1], prefix[2], prefix[3]];
        assert(buf@ =~= prefix@);
        let len = <u32 as FromLeBytes<u32>>::from_le_bytes(buf) as usize;
        proof {
            crate::bytes::lemma_le_value_round_trip(prefix@);
        }
        if left - 4 < len {
            return Error::snapshot_err("Read entry failed", "failed to fill whole buffer");
        }
        let start = self.pos + 4;
        let meta = slice_subrange(self.data.as_slice(), start, start + len);
        match decode_entry(meta) {
            Some(entry) => {
                self.pos = start + len;
                Ok(Some((entry, len + 4)))
            },
            None => Error::snapshot_err("Read entry failed", "invalid entry record"),
        }
    }

    /// Appends the next `len` bytes of the archive to `dst`, in chunks of
    /// [`BUFFER_SIZE`]. Where fewer are left, nothing is read or appended.
    pub fn copy_to(&mut self, dst: &mut Vec<u8>, len: usize) -> (result: Result<usize, Error>)
        ensures
            final(self).data() == old(self).data(),
            final(self).intact() == old(self).intact(),
            0 <= old(self).position() <= old(self).data().len(),
            ({
                let data = old(self).data();
                let pos = old(self).position();
                match result {
                    Ok(copied) => {
                        &&& copied == len
                        &&& pos + len <= data.len()
                        &&& final(self).position() == pos + len
                        &&& final(dst)@ == old(dst)@ + data.subrange(pos, pos + len)
                    },
                    Err(error) => {
                        &&& pos + len > data.len()
                        &&& final(self).position() == pos
                        &&& final(dst)@ == old(dst)@
                        &&& error@ == snapshot_error("Copy failed"@, short_read())
                    },
                }
            }),
    {
        if self.remaining() < len {
            return Error::snapshot_err("Copy failed", "failed to fill whole buffer");
        }
        let ghost data = self.data@;
        let ghost start = self.pos as int;
        let ghost before = dst@;
        let mut left = len;
        let mut written: usize = 0;
        while left > 0
            invariant
                self.data@ == data,
                self.intact == old(self).intact,
                written + left == len,
                self.pos == start + written,
                0 <= start,
                start + len <= data.len() <= usize::MAX,
                dst@ == before + data.subrange(start, start + written),
            decreases left,
        {
            let chunk = if left < BUFFER_SIZE {
                left
            } else {
                BUFFER_SIZE
            };
            let part = slice_subrange(self.data.as_slice(), self.pos, self.pos + chunk);
            dst.extend_from_slice(part);
            assert(dst@ =~= before + data.subrange(start, start + written + chunk));
            self.pos = self.pos + chunk;
            written = written + chunk;
            left = left - chunk;
        }
        assert(before + data.subrange(start, start) =~= before);
        Ok(written)
    }

    /// Passes over the next `len` bytes of the archive. Where fewer are
    /// left, nothing is read.
    pub fn skip(&mut self, len: usize) -> (result: Result<usize, Error>)
        ensures
            final(self).data() == old(self).data(),
            final(self).intact() == old(self).intact(),
            0 <= old(self).position() <= old(self).data().len(),
            ({
                let data = old(self).data();
                let pos = old(self).position();
                match result {
                    Ok(skipped) => {
                        &&& skipped == len
                        &&& pos + len <= data.len()
                        &&& final(self).position() == pos + len
                    },
                    Err(error) => {
                        &&& pos + len > data.len()
                        &&& final(self).position() == pos
                        &&& error@ == snapshot_error("Copy failed"@, short_read())
                    },
                }
            }),
    {
        if self.remaining() < len {
            return Error::snapshot_err("Copy failed", "failed to fill whole buffer");
        }
        self.pos = self.pos + len;
        Ok(len)
    }
}

} // verus!
