//! The object store driver: how an address names a bucket, a key prefix
//! and a region, and how a transfer is laid out.

use vstd::prelude::*;
use vstd::string::*;

use crate::errors::{Error, ErrorView, KindView};
use crate::storage::backend::{
    part_count, parts_of, Backend, Download, DownloadRequest, Part, Upload, UploadRequest,
};
use crate::storage::uri::Uri;
use crate::text::{chars_of, opt_view, same_str, signed, signed_text, string_of};

verus! {

/// Size of the parts of an upload: 10 MiB.
pub const CHUNK_SIZE: usize = 10485760;

/// Number of parts of an upload that are in flight at once.
pub const CONCURRENCY: usize = 10;

/// Where the bucket lives.
#[derive(Debug)]
pub enum Region {
    /// The region that the environment of the process names.
    Default,
    /// A region of the provider, by its name.
    Named(String),
    /// A store of one's own at `endpoint`.
    Custom { name: String, endpoint: String },
}

/// Mathematical value of a [`Region`].
pub enum RegionView {
    Default,
    Named(Seq<char>),
    Custom { name: Seq<char>, endpoint: Seq<char> },
}

impl View for Region {
    type V = RegionView;

    open spec fn view(&self) -> RegionView {
        match self {
            Region::Default => RegionView::Default,
            Region::Named(name) => RegionView::Named(name@),
            Region::Custom { name, endpoint } => RegionView::Custom {
                name: name@,
                endpoint: endpoint@,
            },
        }
    }
}

/// A bucket, the prefix of the keys in it, and its region.
#[derive(Debug)]
pub struct S3 {
    pub bucket_name: String,
    pub key_prefix: Option<String>,
    pub region: Region,
}

/// The name of the provider's region that `name` stands for, if any.
pub uninterp spec fn known_region(name: Seq<char>) -> Option<Seq<char>>;

/// `str::parse` into a `Region` of `rusoto_core`, and `Region::name` of what it
/// found: the name of the region, or none for a name it does not know.
#[verifier::external_body]
fn region_name(name: &str) -> (found: Option<String>)
    ensures
        match found {
            Some(known) => known_region(name@) == Some(known@),
            None => known_region(name@) is None,
        },
{
    name.parse::<rusoto_core::Region>().ok().map(|region| region.name().to_string())
}

/// The key prefix that the path of an address names: the path without its
/// leading slash, or none where nothing is left.
pub open spec fn key_prefix_of(path: Seq<char>) -> Option<Seq<char>> {
    let rest = if path.len() > 0 && path[0] == '/' {
        path.subrange(1, path.len() as int)
    } else {
        path
    };
    if rest.len() == 0 {
        None
    } else {
        Some(rest)
    }
}

/// The value of the first pair from position `from` on whose key is `key`.
pub open spec fn first_value(
    query: Seq<(Seq<char>, Seq<char>)>,
    key: Seq<char>,
    from: int,
) -> Option<Seq<char>>
    decreases query.len() - from,
{
    if from < 0 || from >= query.len() {
        None
    } else if query[from].0 == key {
        Some(query[from].1)
    } else {
        first_value(query, key, from + 1)
    }
}

/// The region that the query of an address names. An endpoint wins over a
/// region; a region that the provider does not know counts as none.
pub open spec fn region_of(query: Seq<(Seq<char>, Seq<char>)>) -> RegionView {
    match first_value(query, "endpoint"@, 0) {
        Some(endpoint) => RegionView::Custom { name: "custom"@, endpoint },
        None => match first_value(query, "region"@, 0) {
            Some(name) => match known_region(name) {
                Some(known) => RegionView::Named(known),
                None => RegionView::Default,
            },
            None => RegionView::Default,
        },
    }
}

/// `key` below `prefix`, or `key` itself where there is no prefix.
pub open spec fn below(prefix: Option<Seq<char>>, key: Seq<char>) -> Seq<char> {
    match prefix {
        Some(p) => p + "/"@ + key,
        None => key,
    }
}

/// The address of a store, as text.
pub open spec fn address(bucket: Seq<char>, prefix: Option<Seq<char>>, region: RegionView) -> Seq<
    char,
> {
    "s3://"@ + bucket + match prefix {
        Some(p) => "/"@ + p,
        None => Seq::empty(),
    } + match region {
        RegionView::Custom { endpoint, .. } => "?endpoint="@ + endpoint,
        RegionView::Named(name) => "?region="@ + name,
        RegionView::Default => "?region="@,
    }
}

/// The error of a fetch that cannot be used, if it is one: no body, no
/// length, or a length that is not positive.
pub open spec fn download_error(has_body: bool, content_length: Option<i64>) -> Option<Seq<char>> {
    if !has_body {
        Some("body must be"@)
    } else {
        match content_length {
            None => Some("content length must be"@),
            Some(n) => if n < 1 || n > usize::MAX {
                Some("Content length must be positive, got "@ + signed_text(n as int))
            } else {
                None
            },
        }
    }
}

fn find_value(query: &Vec<(String, String)>, key: &str) -> (found: Option<String>)
    ensures
        opt_view(found) == first_value(
            query@.map_values(|pair: (String, String)| (pair.0@, pair.1@)),
            key@,
            0,
        ),
{
    let ghost pairs = query@.map_values(|pair: (String, String)| (pair.0@, pair.1@));
    let mut i: usize = 0;
    while i < query.len()
        invariant
            i <= query@.len(),
            pairs == query@.map_values(|pair: (String, String)| (pair.0@, pair.1@)),
            first_value(pairs, key@, 0) == first_value(pairs, key@, i as int),
        decreases query@.len() - i,
    {
        if same_str(query[i].0.as_str(), key) {
            return Some(query[i].1.clone());
        }
        i += 1;
    }
    None
}

impl S3 {
    /// The store that an address names: the host is the bucket, the path
    /// the key prefix, and the query gives the region or the endpoint.
    pub fn from(uri: &Uri) -> (result: Result<S3, Error>)
        ensures
            match uri@.domain {
                Some(domain) => {
                    &&& result is Ok
                    &&& result->Ok_0.bucket_name@ == domain
                    &&& opt_view(result->Ok_0.key_prefix) == key_prefix_of(uri@.path)
                    &&& result->Ok_0.region@ == region_of(uri@.query)
                },
                None => result is Err && result->Err_0@ == (ErrorView {
                    kind: KindView::Storage,
                    cause: Some("Unrecognized bucket '"@ + uri@.host + "'"@),
                }),
            },
    {
        let bucket_name = match &uri.domain {
            Some(domain) => domain.clone(),
            None => {
                let mut cause = String::from_str("Unrecognized bucket '");
                cause.append(uri.host.as_str());
                cause.append("'");
                return Err(Error::storage(cause.as_str()));
            },
        };
        let path = chars_of(uri.path.as_str());
        let rest = if path.len() > 0 && path[0] == '/' {
            vstd::slice::slice_subrange(path.as_slice(), 1, path.len())
        } else {
            path.as_slice()
        };
        let key_prefix = if rest.len() == 0 {
            None
        } else {
            Some(string_of(rest))
        };
        let region = match find_value(&uri.query, "endpoint") {
            Some(endpoint) => Region::Custom { name: String::from_str("custom"), endpoint },
            None => match find_value(&uri.query, "region") {
                Some(name) => match region_name(name.as_str()) {
                    Some(known) => Region::Named(known),
                    None => Region::Default,
                },
                None => Region::Default,
            },
        };
        Ok(S3 { bucket_name, key_prefix, region })
    }

    /// The scheme of the addresses of this kind of store.
    pub fn scheme() -> (scheme: &'static str)
        ensures
            scheme@ == "s3"@,
    {
        "s3"
    }

    /// The key of the object `key` in the bucket.
    pub fn key_prefixed(&self, key: &str) -> (full: String)
        ensures
            full@ == below(opt_view(self.key_prefix), key@),
    {
        match &self.key_prefix {
            Some(prefix) => {
                let mut full = prefix.clone();
                full.append("/");
                full.append(key);
                full
            },
            None => String::from_str(key),
        }
    }

    /// The address of the store. The default region is written without a name.
    pub fn to_string(&self) -> (text: String)
        ensures
            text@ == address(self.bucket_name@, opt_view(self.key_prefix), self.region@),
    {
        let mut text = String::from_str("s3://");
        text.append(self.bucket_name.as_str());
        match &self.key_prefix {
            Some(prefix) => {
                text.append("/");
                text.append(prefix.as_str());
                assert(text@ =~= "s3://"@ + self.bucket_name@ + ("/"@ + prefix@));
            },
            None => {
                assert(text@ =~= "s3://"@ + self.bucket_name@ + Seq::<char>::empty());
            },
        }
        let ghost front = text@;
        match &self.region {
            Region::Custom { endpoint, .. } => {
                text.append("?endpoint=");
                text.append(endpoint.as_str());
                assert(text@ =~= front + ("?endpoint="@ + endpoint@));
            },
            Region::Named(name) => {
                text.append("?region=");
                text.append(name.as_str());
                assert(text@ =~= front + ("?region="@ + name@));
            },
            Region::Default => {
                text.append("?region=");
            },
        }
        text
    }

    /// The length of a fetched object, where the answer to the fetch can be
    /// used: it has a body and a length that is positive.
    pub fn downloaded(has_body: bool, content_length: Option<i64>) -> (result: Result<
        usize,
        Error,
    >)
        ensures
            match download_error(has_body, content_length) {
                Some(cause) => result is Err && result->Err_0@ == (ErrorView {
                    kind: KindView::Storage,
                    cause: Some(cause),
                }),
                None => result is Ok && result->Ok_0 == content_length->Some_0,
            },
    {
        if !has_body {
            return Err(Error::storage("body must be"));
        }
        let n = match content_length {
            Some(n) => n,
            None => {
                return Err(Error::storage("content length must be"));
            },
        };
        if n < 1 || n as u64 > usize::MAX as u64 {
            let mut cause = String::from_str("Content length must be positive, got ");
            cause.append(signed(n).as_str());
            return Err(Error::storage(cause.as_str()));
        }
        Ok(n as usize)
    }
}

/// The parts of an upload of `len` bytes in parts of `size` bytes.
pub fn parts(len: usize, size: usize) -> (parts: Vec<Part>)
    ensures
        parts@ == parts_of(len as nat, size as nat),
{
    let mut parts: Vec<Part> = Vec::new();
    let mut offset: usize = 0;
    let ghost wanted = parts_of(len as nat, size as nat);
    if size == 0 {
        assert(parts@ =~= wanted);
        return parts;
    }
    while offset < len
        invariant
            size > 0,
            offset <= len,
            wanted == parts_of(len as nat, size as nat),
            offset < len ==> offset == parts@.len() * size,
            part_count(len as nat, size as nat) == parts@.len() + part_count(
                (len - offset) as nat,
                size as nat,
            ),
            parts@ == wanted.take(parts@.len() as int),
        decreases len - offset,
    {
        let ghost i = parts@.len();
        let left = len - offset;
        let part_len = if left < size {
            left
        } else {
            size
        };
        proof {
            assert((i + 1) * size == i * size + size) by (nonlinear_arith);
            assert(i * size >= i) by (nonlinear_arith)
                requires
                    size >= 1,
                    i >= 0,
            ;
            assert(part_count(left as nat, size as nat) >= 1);
        }
        let number = parts.len() as u64 + 1;
        parts.push(Part { number, offset, len: part_len });
        assert(parts@ =~= wanted.take(i + 1 as int));
        offset = offset + part_len;
    }
    proof {
        assert(part_count(0, size as nat) == 0);
        assert(wanted.take(parts@.len() as int) =~= wanted);
    }
    parts
}

impl Backend for S3 {
    open spec fn bucket(&self) -> Seq<char> {
        self.bucket_name@
    }

    open spec fn object_key(&self, key: Seq<char>) -> Seq<char> {
        below(opt_view(self.key_prefix), key)
    }

    open spec fn part_size(&self) -> nat {
        CHUNK_SIZE as nat
    }

    fn download(&self, req: DownloadRequest) -> (plan: Download) {
        Download {
            bucket: self.bucket_name.clone(),
            key: self.key_prefixed(req.key.as_str()),
            path: req.path,
        }
    }

    fn upload(&self, req: UploadRequest) -> (plan: Upload) {
        Upload {
            bucket: self.bucket_name.clone(),
            key: self.key_prefixed(req.key.as_str()),
            path: req.path,
            parts: parts(req.len, CHUNK_SIZE),
            concurrency: CONCURRENCY,
        }
    }
}

} // verus!
