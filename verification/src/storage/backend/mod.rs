//! What a blob store is asked to do.

use vstd::prelude::*;

pub mod s3;

pub use self::s3::S3;

verus! {

/// Fetch the object `key` into the file at `path`.
#[derive(Debug)]
pub struct DownloadRequest {
    pub path: String,
    pub key: String,
}

/// Store the `len` bytes of the file at `path` as the object `key`.
#[derive(Debug)]
pub struct UploadRequest {
    pub path: String,
    pub len: usize,
    pub key: String,
}

/// One part of an upload in several parts: its number, counted from one,
/// and the range of the file that it holds.
#[derive(Debug, Clone, Copy, PartialEq, Eq, Structural)]
pub struct Part {
    pub number: u64,
    pub offset: usize,
    pub len: usize,
}

/// A single fetch of a whole object.
#[derive(Debug)]
pub struct Download {
    pub bucket: String,
    pub key: String,
    pub path: String,
}

/// An upload in parts, to be put together in the order of the parts.
#[derive(Debug)]
pub struct Upload {
    pub bucket: String,
    pub key: String,
    pub path: String,
    pub parts: Vec<Part>,
    /// The number of parts that are in flight at once.
    pub concurrency: usize,
}

/// A blob store: it turns a request into the transfer to carry out.
pub trait Backend {
    /// The bucket that objects are kept in.
    spec fn bucket(&self) -> Seq<char>;

    /// The key under which the store keeps the object `key`.
    spec fn object_key(&self, key: Seq<char>) -> Seq<char>;

    /// The size of the parts of an upload.
    spec fn part_size(&self) -> nat;

    fn download(&self, req: DownloadRequest) -> (plan: Download)
        ensures
            plan.bucket@ == self.bucket(),
            plan.key@ == self.object_key(req.key@),
            plan.path@ == req.path@,
    ;

    fn upload(&self, req: UploadRequest) -> (plan: Upload)
        ensures
            plan.bucket@ == self.bucket(),
            plan.key@ == self.object_key(req.key@),
            plan.path@ == req.path@,
            plan.parts@ == parts_of(req.len as nat, self.part_size()),
            plan.concurrency == 10,
    ;
}

/// The number of parts of `size` bytes that `len` bytes take.
pub open spec fn part_count(len: nat, size: nat) -> nat
    decreases len,
{
    if len == 0 || size == 0 {
        0
    } else if len <= size {
        1
    } else {
        1 + part_count((len - size) as nat, size)
    }
}

/// The parts of an upload of `len` bytes in parts of `size` bytes: they
/// follow each other without a gap, and all but the last are full.
pub open spec fn parts_of(len: nat, size: nat) -> Seq<Part> {
    Seq::new(
        part_count(len, size),
        |i: int|
            Part {
                number: (i + 1) as u64,
                offset: (i * size) as usize,
                len: if (i + 1) * size <= len {
                    size as usize
                } else {
                    (len - i * size) as usize
                },
            },
    )
}

} // verus!
