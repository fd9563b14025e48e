//! Where the files of one working directory lie.

use vstd::prelude::*;
use vstd::string::*;

use crate::errors::Error;
use crate::paths::{join, path_join};

verus! {

/// The working directory and the files that pull and push keep in it.
#[derive(Debug)]
pub struct Config {
    pub working_dir: String,
    pub cached_dirs_file: String,
    pub cached_entries_file: String,
    pub snapshot_file: String,
    pub storage_file: String,
    pub verbose: bool,
}

impl Config {
    /// The working directory for a home directory, or below the current
    /// directory where no home directory is known.
    pub fn default_dir(home: Option<&str>) -> (dir: String)
        ensures
            dir@ == path_join(
                match home {
                    Some(text) => text@,
                    None => "."@,
                },
                ".tc-cache"@,
            ),
    {
        match home {
            Some(text) => join(text, ".tc-cache"),
            None => join(".", ".tc-cache"),
        }
    }

    /// The configuration for a working directory that exists; its path is
    /// taken as it is given.
    pub fn from(working_dir: &str) -> (result: Result<Config, Error>)
        ensures
            result is Ok,
            result->Ok_0.working_dir@ == working_dir@,
            result->Ok_0.cached_dirs_file@ == path_join(working_dir@, "cached_dirs.json"@),
            result->Ok_0.cached_entries_file@ == path_join(working_dir@, "cached_entries.json"@),
            result->Ok_0.snapshot_file@ == path_join(working_dir@, "snapshot.snappy"@),
            result->Ok_0.storage_file@ == path_join(working_dir@, "storage.json"@),
            !result->Ok_0.verbose,
    {
        Ok(
            Config {
                working_dir: String::from_str(working_dir),
                cached_dirs_file: join(working_dir, "cached_dirs.json"),
                cached_entries_file: join(working_dir, "cached_entries.json"),
                snapshot_file: join(working_dir, Config::snapshot_file_name()),
                storage_file: join(working_dir, "storage.json"),
                verbose: false,
            },
        )
    }

    /// Name of the archive in the working directory and in the blob store.
    pub fn snapshot_file_name() -> (name: &'static str)
        ensures
            name@ == "snapshot.snappy"@,
    {
        "snapshot.snappy"
    }

    /// Switches detailed reports on or off.
    pub fn verbose(&mut self, verbose: bool)
        ensures
            final(self).verbose == verbose,
            final(self).working_dir == old(self).working_dir,
            final(self).cached_dirs_file == old(self).cached_dirs_file,
            final(self).cached_entries_file == old(self).cached_entries_file,
            final(self).snapshot_file == old(self).snapshot_file,
            final(self).storage_file == old(self).storage_file,
    {
        self.verbose = verbose;
    }
}

} // verus!
