//! Push: whether a new snapshot is due, how it is built, and whether it is
//! uploaded.

use vstd::prelude::*;
use vstd::string::*;

use crate::config::Config;
use crate::errors::{quote_path, quoted_path, Error};
use crate::snapshot::diff::{
    diff, diff_line, diff_set, diff_views, distinct_paths, lemma_diff_of_unchanged_is_empty,
    unchanged, Diff, DiffView,
};
use crate::snapshot::entry::{views, Entry};
use crate::snapshot::format::{archive_bytes, records_ok};
use crate::snapshot::pack::{
    content_views, first_unpackable, pack_error, packable, records_of, Pack,
};
use crate::snapshot::snappy::{chunks_hold_checksum, snap_decode, snap_frame};
use crate::snapshot::writing::Writing;
use crate::storage::backend::Upload;
use crate::storage::Storage;
use crate::text::{decimal, decimal_text};

verus! {

/// The push command for one working directory and storage descriptor.
pub struct Push<'a, 'b> {
    cfg: &'a Config,
    storage: &'b Storage,
}

/// The lines that report differences in detail: one line for each.
pub open spec fn verbose_lines(differences: Seq<DiffView>) -> Seq<Seq<char>> {
    differences.map_values(|d: DiffView| diff_line(d))
}

/// The lines that report what a comparison found.
pub open spec fn change_lines(differences: Seq<DiffView>, verbose: bool) -> Seq<Seq<char>> {
    if differences.len() == 0 {
        seq!["No changes detected"@]
    } else if verbose {
        verbose_lines(differences)
    } else if differences.len() == 1 {
        seq!["Changes detected; "@ + quoted_path(differences[0].path())]
    } else {
        seq![
            "Changed detected; "@ + quoted_path(differences[0].path()) + " plus "@ + decimal_text(
                (differences.len() - 1) as nat,
            ) + " files"@,
        ]
    }
}

/// The texts of a sequence of strings.
pub open spec fn line_views(lines: Seq<String>) -> Seq<Seq<char>> {
    lines.map_values(|line: String| line@)
}

/// One line for each difference.
pub fn detect_changes_verbose(differences: &[Diff]) -> (lines: Vec<String>)
    ensures
        line_views(lines@) == verbose_lines(diff_views(differences@)),
{
    let mut lines: Vec<String> = Vec::new();
    let mut i: usize = 0;
    while i < differences.len()
        invariant
            i <= differences@.len(),
            line_views(lines@) == verbose_lines(diff_views(differences@)).take(i as int),
        decreases differences@.len() - i,
    {
        let line = differences[i].to_string();
        let ghost before = line_views(lines@);
        lines.push(line);
        assert(diff_views(differences@)[i as int] == differences@[i as int]@);
        assert(verbose_lines(diff_views(differences@))[i as int] == line@);
        assert(line_views(lines@) =~= before.push(line@));
        assert(line_views(lines@) =~= verbose_lines(diff_views(differences@)).take(i + 1));
        i += 1;
    }
    assert(verbose_lines(diff_views(differences@)).take(i as int) =~= verbose_lines(
        diff_views(differences@),
    ));
    lines
}

/// Whether there is any difference, with the lines that report it.
pub fn detect_changes(differences: &[Diff], verbose: bool) -> (found: (bool, Vec<String>))
    ensures
        found.0 == (differences@.len() > 0),
        line_views(found.1@) == change_lines(diff_views(differences@), verbose),
{
    let len = differences.len();
    if len == 0 {
        let mut lines: Vec<String> = Vec::new();
        lines.push(String::from_str("No changes detected"));
        assert(line_views(lines@) =~= seq!["No changes detected"@]);
        return (false, lines);
    }
    if verbose {
        return (true, detect_changes_verbose(differences));
    }
    let next = &differences[0];
    let quoted = quote_path(next.as_path());
    let mut lines: Vec<String> = Vec::new();
    if len == 1 {
        let mut line = String::from_str("Changes detected; ");
        line.append(quoted.as_str());
        lines.push(line);
        assert(line_views(lines@) =~= change_lines(diff_views(differences@), verbose));
    } else {
        let mut line = String::from_str("Changed detected; ");
        line.append(quoted.as_str());
        line.append(" plus ");
        line.append(decimal((len - 1) as u64).as_str());
        line.append(" files");
        lines.push(line);
        assert(line_views(lines@) =~= change_lines(diff_views(differences@), verbose));
    }
    (true, lines)
}

impl<'a, 'b> Push<'a, 'b> {
    pub fn new(cfg: &'a Config, storage: &'b Storage) -> (push: Push<'a, 'b>)
        ensures
            push.config() == *cfg,
            push.store() == *storage,
    {
        Push { cfg, storage }
    }

    pub closed spec fn config(&self) -> Config {
        *self.cfg
    }

    pub closed spec fn store(&self) -> Storage {
        *self.storage
    }

    /// Whether a new snapshot is due, with the lines that report why. None
    /// is due without cached directories. With them, one is due where no
    /// entries of an earlier snapshot are known, or where they differ from
    /// the current ones. After a tree that has not changed, of which an
    /// earlier snapshot is known, none is due.
    pub fn run(&self, cached_dirs: &[String], previous: &[Entry], current: &[Entry]) -> (due: (
        bool,
        Vec<String>,
    ))
        ensures
            due.0 == (cached_dirs@.len() > 0 && (previous@.len() == 0 || diff_set(
                views(previous@),
                views(current@),
            ).len() > 0)),
            line_views(due.1@) == if cached_dirs@.len() == 0 {
                seq!["No cached directories found, exiting"@]
            } else if previous@.len() == 0 {
                seq!["No files from a previous snapshot, assume it isn't cached before"@]
            } else {
                change_lines(
                    crate::snapshot::diff::diff_seq(views(previous@), views(current@)),
                    self.config().verbose,
                )
            },
            cached_dirs@.len() > 0 && previous@.len() > 0 && distinct_paths(views(previous@))
                && distinct_paths(views(current@)) && unchanged(views(previous@), views(current@))
                ==> !due.0 && line_views(due.1@) == seq!["No changes detected"@],
    {
        proof {
            if distinct_paths(views(previous@)) && distinct_paths(views(current@)) && unchanged(
                views(previous@),
                views(current@),
            ) {
                lemma_diff_of_unchanged_is_empty(views(previous@), views(current@));
            }
        }
        let mut lines: Vec<String> = Vec::new();
        if cached_dirs.len() == 0 {
            lines.push(String::from_str("No cached directories found, exiting"));
            assert(line_views(lines@) =~= seq!["No cached directories found, exiting"@]);
            return (false, lines);
        }
        if previous.len() == 0 {
            lines.push(
                String::from_str("No files from a previous snapshot, assume it isn't cached before"),
            );
            assert(line_views(lines@) =~= seq![
                "No files from a previous snapshot, assume it isn't cached before"@,
            ]);
            return (true, lines);
        }
        let differences = diff(previous, current);
        detect_changes(differences.as_slice(), self.cfg.verbose)
    }

    /// Builds the snapshot of `entries`, which are to be sorted by path,
    /// with the contents of the files among them: the compressed archive
    /// and the number of bytes it holds before compression. Decompressed,
    /// the archive is the version header followed by the records of the
    /// entries.
    pub fn snapshot(&self, entries: &[Entry], contents: &[Vec<u8>]) -> (result: Result<
        (Vec<u8>, usize),
        Error,
    >)
        ensures
            match result {
                Ok((archive, written)) => {
                    let records = records_of(views(entries@), content_views(contents@));
                    &&& packable(views(entries@), content_views(contents@))
                    &&& records_ok(records)
                    &&& archive@ == snap_frame(archive_bytes(records))
                    &&& snap_decode(archive@) == (archive_bytes(records), true)
                    &&& chunks_hold_checksum(archive@, 0)
                    &&& written + 4 == archive_bytes(records).len()
                },
                Err(error) => {
                    &&& !packable(views(entries@), content_views(contents@))
                    &&& exists|i: int|
                        first_unpackable(views(entries@), content_views(contents@), i) && error@
                            == pack_error(views(entries@), i)
                },
            },
    {
        let mut writing = match Writing::from(Vec::new()) {
            Ok(writing) => writing,
            Err(error) => {
                return Err(error);
            },
        };
        let written = match writing.pack_with_entries(entries, contents) {
            Ok(written) => written,
            Err(error) => {
                return Err(error);
            },
        };
        let archive = writing.into_inner();
        proof {
            let records = records_of(views(entries@), content_views(contents@));
            assert(archive_bytes(records).len() >= 4);
            assert(archive@ =~= snap_frame(archive_bytes(records)));
        }
        Ok((archive, written))
    }

    /// The upload of the snapshot of `len` bytes: none unless there is a
    /// store and the build may upload.
    pub fn upload(&self, len: usize) -> (result: Result<Option<Upload>, Error>)
        ensures
            if self.store().backend is Some && self.store().uploadable {
                self.store().stores(self.config().snapshot_file@, len, result)
            } else {
                result == Ok::<Option<Upload>, Error>(None)
            },
    {
        if !self.storage.is_uploadable() {
            return Ok(None);
        }
        self.storage.upload(self.cfg.snapshot_file.as_str(), len)
    }
}

} // verus!
