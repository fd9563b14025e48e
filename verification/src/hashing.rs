//! MD5 digests of file contents, as lower-case hexadecimal text.

use md5::Digest;
use vstd::prelude::*;
use vstd::string::*;

verus! {

/// Contents of this length and more are mapped into memory to be hashed;
/// shorter ones are read into a buffer.
pub const MEM_MAP_THRESHOLD: usize = 65536;

/// The sixteen bytes of the MD5 digest of `data`.
pub uninterp spec fn md5_digest(data: Seq<u8>) -> Seq<u8>;

/// The hexadecimal digit of a number below sixteen.
pub open spec fn hex_digit(n: int) -> char {
    seq!['0', '1', '2', '3', '4', '5', '6', '7', '8', '9', 'a', 'b', 'c', 'd', 'e', 'f'][n]
}

/// Two lower-case hexadecimal digits for each byte, in order.
pub open spec fn hex_text(data: Seq<u8>) -> Seq<char>
    decreases data.len(),
{
    if data.len() == 0 {
        Seq::empty()
    } else {
        hex_text(data.drop_last()).push(hex_digit(data.last() as int / 16)).push(
            hex_digit(data.last() as int % 16),
        )
    }
}

/// The digest as it stands in an entry.
pub open spec fn md5_text(data: Seq<u8>) -> Seq<char> {
    hex_text(md5_digest(data))
}

/// `Md5::new`, `input` and `result` of the `md-5` crate: the digest of the
/// bytes, which is sixteen bytes long.
#[verifier::external_body]
fn digest(data: &[u8]) -> (sum: Vec<u8>)
    ensures
        sum@ == md5_digest(data@),
        sum@.len() == 16,
{
    let mut hasher = md5::Md5::new();
    hasher.input(data);
    hasher.result().to_vec()
}

/// `hex::encode`: each byte as two lower-case hexadecimal digits.
#[verifier::external_body]
fn hex_encode(data: &[u8]) -> (text: String)
    ensures
        text@ == hex_text(data@),
{
    hex::encode(data)
}

/// How the contents of a file of a given length are brought into memory.
#[derive(Debug, Clone, Copy, PartialEq, Eq, Structural)]
pub enum ReadPlan {
    /// One read into a buffer of [`MEM_MAP_THRESHOLD`] bytes.
    Buffer,
    /// A memory mapping of the file.
    Mapping,
}

/// The way to read a file of `len` bytes: mapped from 64 KiB on.
pub fn read_plan(len: usize) -> (plan: ReadPlan)
    ensures
        plan == if len < MEM_MAP_THRESHOLD {
            ReadPlan::Buffer
        } else {
            ReadPlan::Mapping
        },
{
    if len < MEM_MAP_THRESHOLD {
        ReadPlan::Buffer
    } else {
        ReadPlan::Mapping
    }
}

/// The MD5 digest of `src` as 32 hexadecimal digits.
pub fn bytes(src: &[u8]) -> (text: String)
    ensures
        text@ == md5_text(src@),
{
    let sum = digest(src);
    hex_encode(sum.as_slice())
}

/// The MD5 digest of the first `len` bytes of a file's contents, or the
/// failure of reading them where the file is shorter.
pub fn file(content: &[u8], len: usize) -> (result: Result<String, String>)
    ensures
        match result {
            Ok(text) => len <= content@.len() && text@ == md5_text(content@.subrange(0, len as int)),
            Err(cause) => len > content@.len() && cause@ == "failed to fill whole buffer"@,
        },
{
    if len > content.len() {
        return Err(String::from_str("failed to fill whole buffer"));
    }
    let part = vstd::slice::slice_subrange(content, 0, len);
    Ok(bytes(part))
}

} // verus!
