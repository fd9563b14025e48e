//! One filesystem object as the snapshot records it.

use vstd::prelude::*;
use vstd::string::*;

use crate::errors::{quote_path, quote_text, quoted_path, quoted_text, Error, ErrorView, KindView};
use crate::hashing::{bytes, md5_text};
use crate::paths::path_le;
use crate::text::{decimal, decimal_text, same_text, signed, signed_text};

verus! {

/// POSIX attributes of an entry. Two sets of attributes count as equal when
/// their modes are equal: timestamps are kept but never compared.
#[derive(Debug, Clone, Copy)]
pub struct Attributes {
    pub mode: u32,
    pub atime: i64,
    pub mtime: i64,
}

impl Attributes {
    pub fn new(mode: u32, atime: i64, mtime: i64) -> (attr: Attributes)
        ensures
            attr == (Attributes { mode, atime, mtime }),
    {
        Attributes { mode, atime, mtime }
    }
}

impl PartialEq for Attributes {
    fn eq(&self, other: &Attributes) -> (equal: bool) {
        self.mode == other.mode
    }
}

impl Eq for Attributes {

}

impl vstd::std_specs::cmp::PartialEqSpecImpl for Attributes {
    open spec fn obeys_eq_spec() -> bool {
        true
    }

    open spec fn eq_spec(&self, other: &Attributes) -> bool {
        self.mode == other.mode
    }
}

/// Which of the three shapes an entry has.
#[derive(Debug, Clone, Copy, PartialEq, Eq, Structural)]
pub enum EntryKind {
    File,
    Symlink,
    Dir,
}

/// A regular file, a symbolic link or a directory, with its path and attributes.
#[derive(Debug)]
pub enum Entry {
    File { path: String, attr: Attributes, md5: String, len: u32 },
    Symlink { path: String, target: String, attr: Attributes },
    Dir { path: String, attr: Attributes },
}

/// Mathematical value of an [`Entry`].
pub enum EntryView {
    File { path: Seq<char>, attr: Attributes, md5: Seq<char>, len: u32 },
    Symlink { path: Seq<char>, target: Seq<char>, attr: Attributes },
    Dir { path: Seq<char>, attr: Attributes },
}

impl EntryView {
    pub open spec fn path(self) -> Seq<char> {
        match self {
            EntryView::File { path, .. } => path,
            EntryView::Symlink { path, .. } => path,
            EntryView::Dir { path, .. } => path,
        }
    }

    pub open spec fn attr(self) -> Attributes {
        match self {
            EntryView::File { attr, .. } => attr,
            EntryView::Symlink { attr, .. } => attr,
            EntryView::Dir { attr, .. } => attr,
        }
    }

    pub open spec fn kind(self) -> EntryKind {
        match self {
            EntryView::File { .. } => EntryKind::File,
            EntryView::Symlink { .. } => EntryKind::Symlink,
            EntryView::Dir { .. } => EntryKind::Dir,
        }
    }

    /// Number of payload bytes that follow the entry in an archive.
    pub open spec fn payload_len(self) -> nat {
        match self {
            EntryView::File { len, .. } => len as nat,
            _ => 0,
        }
    }

    /// Equality of entries: the same shape, path and mode, and for files the
    /// same digest and length, for links the same target. Timestamps do not
    /// take part.
    pub open spec fn same(self, other: EntryView) -> bool {
        match (self, other) {
            (
                EntryView::File { path: pa, attr: aa, md5: ma, len: la },
                EntryView::File { path: pb, attr: ab, md5: mb, len: lb },
            ) => pa == pb && ma == mb && la == lb && aa.mode == ab.mode,
            (
                EntryView::Symlink { path: pa, target: ta, attr: aa },
                EntryView::Symlink { path: pb, target: tb, attr: ab },
            ) => pa == pb && ta == tb && aa.mode == ab.mode,
            (EntryView::Dir { path: pa, attr: aa }, EntryView::Dir { path: pb, attr: ab }) => pa
                == pb && aa.mode == ab.mode,
            _ => false,
        }
    }
}

impl View for Entry {
    type V = EntryView;

    open spec fn view(&self) -> EntryView {
        match self {
            Entry::File { path, attr, md5, len } => EntryView::File {
                path: path@,
                attr: *attr,
                md5: md5@,
                len: *len,
            },
            Entry::Symlink { path, target, attr } => EntryView::Symlink {
                path: path@,
                target: target@,
                attr: *attr,
            },
            Entry::Dir { path, attr } => EntryView::Dir { path: path@, attr: *attr },
        }
    }
}

/// The attributes as `{:?}` prints them.
pub open spec fn attr_text(attr: Attributes) -> Seq<char> {
    "Attributes { mode: "@ + decimal_text(attr.mode as nat) + ", atime: "@ + signed_text(
        attr.atime as int,
    ) + ", mtime: "@ + signed_text(attr.mtime as int) + " }"@
}

/// The entry as `{:?}` prints it: its shape, then its fields by name.
pub open spec fn entry_text(entry: EntryView) -> Seq<char> {
    match entry {
        EntryView::File { path, attr, md5, len } => "File { path: "@ + quoted_path(path)
            + ", attr: "@ + attr_text(attr) + ", md5: "@ + quoted_text(md5) + ", len: "@
            + decimal_text(len as nat) + " }"@,
        EntryView::Symlink { path, target, attr } => "Symlink { path: "@ + quoted_path(path)
            + ", target: "@ + quoted_path(target) + ", attr: "@ + attr_text(attr) + " }"@,
        EntryView::Dir { path, attr } => "Dir { path: "@ + quoted_path(path) + ", attr: "@
            + attr_text(attr) + " }"@,
    }
}

/// The views of a sequence of entries, in the same order.
pub open spec fn views(entries: Seq<Entry>) -> Seq<EntryView> {
    entries.map_values(|e: Entry| e@)
}

/// The cause recorded when a file is too long for a 32-bit length.
pub open spec fn out_of_range() -> Seq<char> {
    "out of range integral type conversion attempted"@
}

impl Clone for Entry {
    fn clone(&self) -> (copy: Entry)
        ensures
            copy == *self,
    {
        match self {
            Entry::File { path, attr, md5, len } => Entry::File {
                path: path.clone(),
                attr: *attr,
                md5: md5.clone(),
                len: *len,
            },
            Entry::Symlink { path, target, attr } => Entry::Symlink {
                path: path.clone(),
                target: target.clone(),
                attr: *attr,
            },
            Entry::Dir { path, attr } => Entry::Dir { path: path.clone(), attr: *attr },
        }
    }
}

impl PartialEq for Entry {
    fn eq(&self, other: &Entry) -> (equal: bool) {
        match (self, other) {
            (
                Entry::File { path: pa, attr: aa, md5: ma, len: la },
                Entry::File { path: pb, attr: ab, md5: mb, len: lb },
            ) => same_text(pa, pb) && same_text(ma, mb) && *la == *lb && aa.mode == ab.mode,
            (
                Entry::Symlink { path: pa, target: ta, attr: aa },
                Entry::Symlink { path: pb, target: tb, attr: ab },
            ) => same_text(pa, pb) && same_text(ta, tb) && aa.mode == ab.mode,
            (Entry::Dir { path: pa, attr: aa }, Entry::Dir { path: pb, attr: ab }) => same_text(
                pa,
                pb,
            ) && aa.mode == ab.mode,
            _ => false,
        }
    }
}

impl Eq for Entry {

}

impl vstd::std_specs::cmp::PartialEqSpecImpl for Entry {
    open spec fn obeys_eq_spec() -> bool {
        true
    }

    open spec fn eq_spec(&self, other: &Entry) -> bool {
        self@.same(other@)
    }
}

impl Entry {
    /// A file entry, unless `len` does not fit in 32 bits.
    pub fn file(path: &str, attr: Attributes, md5: &str, len: u64) -> (result: Result<Entry, Error>)
        ensures
            len <= u32::MAX ==> result is Ok && result->Ok_0@ == (EntryView::File {
                path: path@,
                attr,
                md5: md5@,
                len: len as u32,
            }),
            len > u32::MAX ==> result is Err && result->Err_0@ == (ErrorView {
                kind: KindView::Io(path@),
                cause: Some(out_of_range()),
            }),
    {
        if len > 0xffff_ffff {
            return Err(Error::io(path, "out of range integral type conversion attempted"));
        }
        Ok(
            Entry::File {
                path: String::from_str(path),
                attr,
                md5: String::from_str(md5),
                len: len as u32,
            },
        )
    }

    pub fn symlink(path: &str, target: &str, attr: Attributes) -> (entry: Entry)
        ensures
            entry@ == (EntryView::Symlink { path: path@, target: target@, attr }),
    {
        Entry::Symlink { path: String::from_str(path), target: String::from_str(target), attr }
    }

    pub fn dir(path: &str, attr: Attributes) -> (entry: Entry)
        ensures
            entry@ == (EntryView::Dir { path: path@, attr }),
    {
        Entry::Dir { path: String::from_str(path), attr }
    }

    /// Path, attributes, digest and length, if the entry is a file.
    pub fn as_file(&self) -> (parts: Option<(&str, &Attributes, &str, usize)>)
        ensures
            match parts {
                Some((path, attr, md5, len)) => self@ == (EntryView::File {
                    path: path@,
                    attr: *attr,
                    md5: md5@,
                    len: len as u32,
                }) && len <= u32::MAX,
                None => !(self@ is File),
            },
    {
        match self {
            Entry::File { path, attr, md5, len } => Some(
                (path.as_str(), attr, md5.as_str(), *len as usize),
            ),
            _ => None,
        }
    }

    /// Path, target and attributes, if the entry is a symbolic link.
    pub fn as_symlink(&self) -> (parts: Option<(&str, &str, &Attributes)>)
        ensures
            match parts {
                Some((path, target, attr)) => self@ == (EntryView::Symlink {
                    path: path@,
                    target: target@,
                    attr: *attr,
                }),
                None => !(self@ is Symlink),
            },
    {
        match self {
            Entry::Symlink { path, target, attr } => Some((path.as_str(), target.as_str(), attr)),
            _ => None,
        }
    }

    /// Path and attributes, if the entry is a directory.
    pub fn as_dir(&self) -> (parts: Option<(&str, &Attributes)>)
        ensures
            match parts {
                Some((path, attr)) => self@ == (EntryView::Dir { path: path@, attr: *attr }),
                None => !(self@ is Dir),
            },
    {
        match self {
            Entry::Dir { path, attr } => Some((path.as_str(), attr)),
            _ => None,
        }
    }

    pub fn kind(&self) -> (kind: EntryKind)
        ensures
            kind == self@.kind(),
    {
        match self {
            Entry::File { .. } => EntryKind::File,
            Entry::Symlink { .. } => EntryKind::Symlink,
            Entry::Dir { .. } => EntryKind::Dir,
        }
    }

    /// The digest of the contents, for a file.
    pub fn as_md5(&self) -> (md5: Option<&str>)
        ensures
            match md5 {
                Some(text) => self@ is File && self@->File_md5 == text@,
                None => !(self@ is File),
            },
    {
        match self {
            Entry::File { md5, .. } => Some(md5.as_str()),
            Entry::Symlink { .. } => None,
            Entry::Dir { .. } => None,
        }
    }

    pub fn as_path(&self) -> (path: &str)
        ensures
            path@ == self@.path(),
    {
        match self {
            Entry::File { path, .. } => path.as_str(),
            Entry::Symlink { path, .. } => path.as_str(),
            Entry::Dir { path, .. } => path.as_str(),
        }
    }

    /// The entry as `{:?}` prints it.
    pub fn describe(&self) -> (text: String)
        ensures
            text@ == entry_text(self@),
    {
        let attr = self.as_attr();
        let mut attrs = String::from_str("Attributes { mode: ");
        attrs.append(decimal(attr.mode as u64).as_str());
        attrs.append(", atime: ");
        attrs.append(signed(attr.atime).as_str());
        attrs.append(", mtime: ");
        attrs.append(signed(attr.mtime).as_str());
        attrs.append(" }");
        assert(attrs@ =~= attr_text(*attr));
        match self {
            Entry::File { path, md5, len, .. } => {
                let mut text = String::from_str("File { path: ");
                text.append(quote_path(path.as_str()).as_str());
                text.append(", attr: ");
                text.append(attrs.as_str());
                text.append(", md5: ");
                text.append(quote_text(md5.as_str()).as_str());
                text.append(", len: ");
                text.append(decimal(*len as u64).as_str());
                text.append(" }");
                text
            },
            Entry::Symlink { path, target, .. } => {
                let mut text = String::from_str("Symlink { path: ");
                text.append(quote_path(path.as_str()).as_str());
                text.append(", target: ");
                text.append(quote_path(target.as_str()).as_str());
                text.append(", attr: ");
                text.append(attrs.as_str());
                text.append(" }");
                text
            },
            Entry::Dir { path, .. } => {
                let mut text = String::from_str("Dir { path: ");
                text.append(quote_path(path.as_str()).as_str());
                text.append(", attr: ");
                text.append(attrs.as_str());
                text.append(" }");
                text
            },
        }
    }

    /// The path as the owned string that the entry holds.
    pub(crate) fn path_string(&self) -> (path: &String)
        ensures
            path@ == self@.path(),
    {
        match self {
            Entry::File { path, .. } => path,
            Entry::Symlink { path, .. } => path,
            Entry::Dir { path, .. } => path,
        }
    }

    pub fn as_attr(&self) -> (attr: &Attributes)
        ensures
            *attr == self@.attr(),
    {
        match self {
            Entry::Dir { attr, .. } => attr,
            Entry::Symlink { attr, .. } => attr,
            Entry::File { attr, .. } => attr,
        }
    }
}


/// What was found at a path, without following a symbolic link.
#[derive(Debug)]
pub enum Found<'a> {
    /// A regular file with its attributes and contents.
    File { attr: Attributes, content: &'a [u8] },
    /// A directory.
    Dir { attr: Attributes },
    /// A symbolic link and the path it holds.
    Symlink { attr: Attributes, target: String },
    /// Anything else: a device, a socket, a pipe.
    Other,
}

/// The cause recorded for a path that is neither file, directory nor link.
pub open spec fn unknown_file_type() -> Seq<char> {
    "Unknown file type, neither of a file nor a directory nor a symlink"@
}

/// The entry that [`Entry::try_from_path`] builds, where it builds one.
pub open spec fn entry_of(path: Seq<char>, found: Found<'_>) -> Option<EntryView> {
    match found {
        Found::File { attr, content } => if content@.len() <= u32::MAX {
            Some(
                EntryView::File {
                    path,
                    attr,
                    md5: md5_text(content@),
                    len: content@.len() as u32,
                },
            )
        } else {
            None
        },
        Found::Dir { attr } => Some(EntryView::Dir { path, attr }),
        Found::Symlink { attr, target } => Some(EntryView::Symlink { path, target: target@, attr }),
        Found::Other => None,
    }
}

/// The position of the first failure among `items`, or their number where
/// there is none.
pub open spec fn first_failure(items: Seq<Result<Entry, Error>>) -> int
    decreases items.len(),
{
    if items.len() == 0 {
        0
    } else if items[0] is Err {
        0
    } else {
        1 + first_failure(items.drop_first())
    }
}

/// The views of the entries among `items`.
pub open spec fn found_views(items: Seq<Result<Entry, Error>>) -> Seq<EntryView> {
    items.map_values(|item: Result<Entry, Error>| item->Ok_0@)
}

/// Whether the entries stand in the order of their paths.
pub open spec fn sorted_by_path(entries: Seq<EntryView>) -> bool {
    forall|i: int, j: int|
        0 <= i < j < entries.len() ==> path_le(
            (#[trigger] entries[i]).path(),
            (#[trigger] entries[j]).path(),
        )
}

/// `sort_by_key` of slices with the path, as a `PathBuf`, for the key: the
/// same entries, each before every entry whose path is not smaller.
#[verifier::external_body]
fn sort_by_path(entries: &mut Vec<Entry>)
    ensures
        views(final(entries)@).to_multiset() == views(old(entries)@).to_multiset(),
        forall|i: int, j: int|
            0 <= i < j < final(entries)@.len() ==> path_le(
                (#[trigger] views(final(entries)@)[i]).path(),
                (#[trigger] views(final(entries)@)[j]).path(),
            ),
{
    entries.sort_by_key(|entry| std::path::PathBuf::from(entry.as_path()));
}

proof fn lemma_first_failure(items: Seq<Result<Entry, Error>>)
    ensures
        0 <= first_failure(items) <= items.len(),
        forall|i: int| 0 <= i < first_failure(items) ==> (#[trigger] items[i]) is Ok,
        first_failure(items) < items.len() ==> items[first_failure(items)] is Err,
    decreases items.len(),
{
    if items.len() > 0 && items[0] is Ok {
        lemma_first_failure(items.drop_first());
        assert forall|i: int| 0 <= i < first_failure(items) implies (#[trigger] items[i]) is Ok by {
            if i > 0 {
                assert(items.drop_first()[i - 1] == items[i]);
            }
        }
    }
}

impl Entry {
    /// The entry for what was found at `path`. A file longer than 32 bits
    /// can count and anything that is neither file, directory nor link are
    /// I/O errors at that path.
    pub fn try_from_path(path: &str, found: &Found<'_>) -> (result: Result<Entry, Error>)
        ensures
            match result {
                Ok(entry) => entry_of(path@, *found) == Some(entry@),
                Err(error) => entry_of(path@, *found) is None && error@ == (ErrorView {
                    kind: KindView::Io(path@),
                    cause: Some(
                        if *found is Other {
                            unknown_file_type()
                        } else {
                            out_of_range()
                        },
                    ),
                }),
            },
    {
        match found {
            Found::Symlink { attr, target } => Ok(Entry::symlink(path, target.as_str(), *attr)),
            Found::Dir { attr } => Ok(Entry::dir(path, *attr)),
            Found::File { attr, content } => {
                let md5 = bytes(content);
                Entry::file(path, *attr, md5.as_str(), content.len() as u64)
            },
            Found::Other => Err(
                Error::io(
                    path,
                    "Unknown file type, neither of a file nor a directory nor a symlink",
                ),
            ),
        }
    }

    /// The entries of a walk in the order of their paths, or the first
    /// failure of the walk.
    pub fn walk_into_vec(items: Vec<Result<Entry, Error>>) -> (result: Result<Vec<Entry>, Error>)
        ensures
            match result {
                Ok(entries) => {
                    &&& first_failure(items@) == items@.len()
                    &&& views(entries@).to_multiset() == found_views(items@).to_multiset()
                    &&& sorted_by_path(views(entries@))
                },
                Err(error) => {
                    &&& first_failure(items@) < items@.len()
                    &&& error == items@[first_failure(items@)]->Err_0
                },
            },
    {
        let ghost all = items@;
        let mut entries: Vec<Entry> = Vec::new();
        proof {
            lemma_first_failure(all);
        }
        for item in it: items.into_iter()
            invariant
                it.seq() == all,
                views(entries@) == found_views(all.take(it.index() as int)),
                it.index() <= first_failure(all) <= all.len(),
                forall|i: int| 0 <= i < first_failure(all) ==> (#[trigger] all[i]) is Ok,
                first_failure(all) < all.len() ==> all[first_failure(all)] is Err,
        {
            let ghost n = it.index() as int;
            match item {
                Ok(entry) => {
                    assert(all[n] == Ok::<Entry, Error>(entry));
                    assert(all.take(n + 1) =~= all.take(n).push(all[n]));
                    assert(found_views(all.take(n + 1)) =~= found_views(all.take(n)).push(entry@));
                    assert(views(entries@.push(entry)) =~= found_views(all.take(n + 1)));
                    entries.push(entry);
                },
                Err(error) => {
                    return Err(error);
                },
            }
        }
        assert(all.take(all.len() as int) =~= all);
        sort_by_path(&mut entries);
        Ok(entries)
    }
}

} // verus!
