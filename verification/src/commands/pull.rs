//! Pull: which directories are cached, what is fetched, and what the
//! archive restores.

use vstd::prelude::*;
use vstd::string::*;

use crate::config::Config;
use crate::errors::Error;
use crate::snapshot::format::{parse_records, records_ok, version};
use crate::snapshot::reading::{mismatch_text, short_chunk, Reading};
use crate::snapshot::snappy::{chunks_hold_checksum, snap_decode};
use crate::snapshot::unpack::{
    dir_views, prefix_view, record_error, restored_views, restores, stop_at, Restored, Unpack,
};
use crate::snapshot::writing::{short_read, snapshot_error};
use crate::storage::backend::Download;
use crate::storage::Storage;
use crate::text::opt_view;

verus! {

/// The pull command: the directories that are asked for, and the prefix
/// below which entries are restored.
#[derive(Debug)]
pub struct Pull<'a, 'b> {
    cfg: &'a Config,
    storage: &'b Storage,
    cached_dirs: Vec<String>,
    unpack_prefix: Option<String>,
}

/// What was found out about a directory that is to be cached: nothing,
/// where it could not be created or resolved; otherwise its resolved path
/// and whether that is a symbolic link.
#[derive(Debug)]
pub enum Probe {
    Failed,
    Found { path: String, is_symlink: bool },
}

/// The directory to cache, if the probe allows it: it was found and is no
/// symbolic link.
pub open spec fn cacheable(probe: Probe) -> Option<Seq<char>> {
    match probe {
        Probe::Found { path, is_symlink } => if is_symlink {
            None
        } else {
            Some(path@)
        },
        Probe::Failed => None,
    }
}

/// The directories of the probes that allow caching, in their order.
pub open spec fn cacheable_dirs(probes: Seq<Probe>) -> Seq<Seq<char>>
    decreases probes.len(),
{
    if probes.len() == 0 {
        Seq::empty()
    } else {
        match cacheable(probes.last()) {
            Some(path) => cacheable_dirs(probes.drop_last()).push(path),
            None => cacheable_dirs(probes.drop_last()),
        }
    }
}

/// The directory to cache, if the probe allows it.
pub fn is_cacheable(probe: &Probe) -> (dir: Option<String>)
    ensures
        opt_view(dir) == cacheable(*probe),
{
    match probe {
        Probe::Found { path, is_symlink } => {
            if *is_symlink {
                None
            } else {
                Some(path.clone())
            }
        },
        Probe::Failed => None,
    }
}

/// What a pull leaves behind: the directories that are cached from now
/// on, and the entries to restore.
#[derive(Debug)]
pub struct Pulled {
    pub cached_dirs: Vec<String>,
    pub restored: Vec<Restored>,
}

impl<'a, 'b> Pull<'a, 'b> {
    pub fn new(
        cfg: &'a Config,
        storage: &'b Storage,
        cached_dirs: &[String],
        unpack_prefix: Option<&str>,
    ) -> (pull: Pull<'a, 'b>)
        ensures
            pull.config() == *cfg,
            pull.store() == *storage,
            pull.dirs() == dir_views(cached_dirs@),
            pull.prefix() == match unpack_prefix {
                Some(prefix) => Some(prefix@),
                None => None,
            },
    {
        let mut dirs: Vec<String> = Vec::new();
        let mut i: usize = 0;
        while i < cached_dirs.len()
            invariant
                i <= cached_dirs@.len(),
                dir_views(dirs@) == dir_views(cached_dirs@).take(i as int),
            decreases cached_dirs@.len() - i,
        {
            let dir = cached_dirs[i].clone();
            let ghost before = dir_views(dirs@);
            dirs.push(dir);
            assert(dir_views(cached_dirs@)[i as int] == cached_dirs@[i as int]@);
            assert(dir_views(dirs@) =~= before.push(dir@));
            assert(dir_views(dirs@) =~= dir_views(cached_dirs@).take(i + 1));
            i += 1;
        }
        assert(dir_views(cached_dirs@).take(i as int) =~= dir_views(cached_dirs@));
        Pull {
            cfg,
            storage,
            cached_dirs: dirs,
            unpack_prefix: match unpack_prefix {
                Some(prefix) => Some(String::from_str(prefix)),
                None => None,
            },
        }
    }

    pub closed spec fn config(&self) -> Config {
        *self.cfg
    }

    pub closed spec fn store(&self) -> Storage {
        *self.storage
    }

    /// The directories that were asked for.
    pub closed spec fn dirs(&self) -> Seq<Seq<char>> {
        dir_views(self.cached_dirs@)
    }

    /// The prefix below which entries are restored.
    pub closed spec fn prefix(&self) -> Option<Seq<char>> {
        prefix_view(self.unpack_prefix)
    }

    /// The directories that were asked for, to be probed one by one.
    pub fn cached_dirs(&self) -> (dirs: &Vec<String>)
        ensures
            dir_views(dirs@) == self.dirs(),
    {
        &self.cached_dirs
    }

    /// The fetch of the snapshot into the working directory: none without a store.
    pub fn download(&self) -> (result: Result<Option<Download>, Error>)
        ensures
            self.store().fetches(self.config().snapshot_file@, result),
    {
        if !self.storage.is_downloable() {
            return Ok(None);
        }
        self.storage.download(self.cfg.snapshot_file.as_str())
    }

    /// Restores from the snapshot. `probes` tells of each directory that
    /// was asked for whether it can be cached; `archive` is the fetched
    /// snapshot, if there is one. The directories that can be cached are
    /// the roots of the restore; without a snapshot nothing is restored. A
    /// snapshot in which a chunk of data is too short to hold its checksum
    /// is refused before anything is decompressed.
    pub fn run(self, probes: &[Probe], archive: Option<&[u8]>) -> (result: Result<Pulled, Error>)
        ensures
            match result {
                Ok(pulled) => {
                    &&& dir_views(pulled.cached_dirs@) == cacheable_dirs(probes@)
                    &&& match archive {
                        None => pulled.restored@.len() == 0,
                        Some(bytes) => {
                            let (data, intact) = snap_decode(bytes@);
                            &&& chunks_hold_checksum(bytes@, 0)
                            &&& intact
                            &&& data.len() >= 4
                            &&& data.subrange(0, 4) == version()
                            &&& parse_records(data, 4) is Some
                            &&& records_ok(parse_records(data, 4)->Some_0)
                            &&& restored_views(pulled.restored@) == restores(
                                parse_records(data, 4)->Some_0,
                                self.prefix(),
                                cacheable_dirs(probes@),
                            )
                        },
                    }
                },
                Err(error) => {
                    &&& archive is Some
                    &&& {
                        let (data, intact) = snap_decode(archive->Some_0@);
                        if !chunks_hold_checksum(archive->Some_0@, 0) {
                            error@ == short_chunk()
                        } else if data.len() < 4 {
                            error@ == snapshot_error("Read version header failed"@, short_read())
                        } else if data.subrange(0, 4) != version() {
                            error@ == snapshot_error(
                                "Version header mismatch"@,
                                mismatch_text(data.subrange(0, 4)),
                            )
                        } else {
                            &&& !intact || parse_records(data, 4) is None
                            &&& error@ == record_error(data, stop_at(data, 4))
                        }
                    }
                },
            },
    {
        let mut cached_dirs: Vec<String> = Vec::new();
        let mut i: usize = 0;
        while i < probes.len()
            invariant
                i <= probes@.len(),
                dir_views(cached_dirs@) == cacheable_dirs(probes@.take(i as int)),
            decreases probes@.len() - i,
        {
            proof {
                assert(probes@.take(i + 1).drop_last() =~= probes@.take(i as int));
                assert(probes@.take(i + 1).last() == probes@[i as int]);
            }
            match is_cacheable(&probes[i]) {
                Some(dir) => {
                    cached_dirs.push(dir);
                    assert(dir_views(cached_dirs@) =~= cacheable_dirs(probes@.take(i + 1)));
                },
                None => {},
            }
            i += 1;
        }
        assert(probes@.take(i as int) =~= probes@);
        let bytes = match archive {
            Some(bytes) => bytes,
            None => {
                return Ok(Pulled { cached_dirs, restored: Vec::new() });
            },
        };
        let reading = match Reading::from(bytes) {
            Ok(reading) => reading,
            Err(error) => {
                return Err(error);
            },
        };
        let (restored, _) = match reading.unpack(self.unpack_prefix, cached_dirs.as_slice()) {
            Ok(unpacked) => unpacked,
            Err(error) => {
                return Err(error);
            },
        };
        Ok(Pulled { cached_dirs, restored })
    }
}

} // verus!
