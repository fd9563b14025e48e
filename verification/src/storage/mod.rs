//! The storage descriptor: where snapshots are kept, under which key
//! prefix, and whether this build may upload one.

use vstd::prelude::*;
use vstd::string::*;

pub mod backend;
pub mod uri;

use crate::config::Config;
use crate::errors::{quote_path, quoted_path, Error, ErrorView, KindView};
use crate::paths::{file_name, path_file_name};
use crate::storage::backend::s3::{below, key_prefix_of, region_of, S3};
use crate::storage::backend::{
    parts_of, Backend, Download, DownloadRequest, Upload, UploadRequest,
};
use crate::storage::uri::{parse_uri, uri_of, Uri, UriView};
use crate::text::{opt_view, same_str};

verus! {

/// The store that snapshots are kept in, if there is one, with the key
/// prefix, the file that the descriptor is saved in, and whether this build
/// may upload.
#[derive(Debug)]
pub struct Storage {
    pub backend: Option<S3>,
    pub uri: Option<String>,
    pub key_prefix: Option<String>,
    pub path: String,
    pub uploadable: bool,
}

/// The error of a file path without a file name.
pub open spec fn empty_file_name(path: Seq<char>) -> ErrorView {
    ErrorView { kind: KindView::Storage, cause: Some("Empty file name for "@ + quoted_path(path)) }
}

/// The error of an address of a kind that no driver serves.
pub open spec fn unknown_uri(text: Seq<char>) -> ErrorView {
    ErrorView { kind: KindView::Storage, cause: Some("Unknown remote uri '"@ + text + "'"@) }
}

/// The file name of a path, or the error of a path without one.
pub fn storage_file_name(path: &str) -> (result: Result<String, Error>)
    ensures
        match result {
            Ok(name) => path_file_name(path@) == Some(name@),
            Err(error) => path_file_name(path@) is None && error@ == empty_file_name(path@),
        },
{
    match file_name(path) {
        Some(name) => Ok(name),
        None => {
            let mut cause = String::from_str("Empty file name for ");
            cause.append(quote_path(path).as_str());
            Err(Error::storage(cause.as_str()))
        },
    }
}

impl Storage {
    /// Whether the store is the one that the address with these parts names.
    pub open spec fn serves(&self, parts: UriView) -> bool {
        &&& parts.scheme == "s3"@
        &&& parts.domain is Some
        &&& self.backend is Some
        &&& self.backend->Some_0.bucket_name@ == parts.domain->Some_0
        &&& opt_view(self.backend->Some_0.key_prefix) == key_prefix_of(parts.path)
        &&& self.backend->Some_0.region@ == region_of(parts.query)
        &&& opt_view(self.uri) == Some(parts.text)
    }

    /// The error of an address with these parts that names no store.
    pub open spec fn refusal(parts: UriView) -> ErrorView {
        if parts.scheme != "s3"@ {
            unknown_uri(parts.text)
        } else {
            ErrorView {
                kind: KindView::Storage,
                cause: Some("Unrecognized bucket '"@ + parts.host + "'"@),
            }
        }
    }

    /// Whether `result` is what asking for the fetch of the snapshot into
    /// the file at `path` gives: none without a store; the error of a path
    /// without a file name; otherwise the fetch of the object named by the
    /// key prefixes and the file name.
    pub open spec fn fetches(&self, path: Seq<char>, result: Result<Option<Download>, Error>) -> bool {
        match self.backend {
            None => result == Ok::<Option<Download>, Error>(None),
            Some(store) => match path_file_name(path) {
                None => result is Err && result->Err_0@ == empty_file_name(path),
                Some(name) => {
                    &&& result is Ok
                    &&& result->Ok_0 is Some
                    &&& result->Ok_0->Some_0.bucket@ == store.bucket_name@
                    &&& result->Ok_0->Some_0.path@ == path
                    &&& result->Ok_0->Some_0.key@ == below(
                        opt_view(store.key_prefix),
                        below(opt_view(self.key_prefix), name),
                    )
                },
            },
        }
    }

    /// Whether `result` is what asking for the upload of the `len` bytes of
    /// the file at `path` gives: as for a fetch, with the parts of the upload.
    pub open spec fn stores(
        &self,
        path: Seq<char>,
        len: usize,
        result: Result<Option<Upload>, Error>,
    ) -> bool {
        match self.backend {
            None => result == Ok::<Option<Upload>, Error>(None),
            Some(store) => match path_file_name(path) {
                None => result is Err && result->Err_0@ == empty_file_name(path),
                Some(name) => {
                    &&& result is Ok
                    &&& result->Ok_0 is Some
                    &&& result->Ok_0->Some_0.bucket@ == store.bucket_name@
                    &&& result->Ok_0->Some_0.path@ == path
                    &&& result->Ok_0->Some_0.key@ == below(
                        opt_view(store.key_prefix),
                        below(opt_view(self.key_prefix), name),
                    )
                    &&& result->Ok_0->Some_0.parts@ == parts_of(len as nat, store.part_size())
                    &&& result->Ok_0->Some_0.concurrency == 10
                },
            },
        }
    }

    /// A descriptor without a store, kept in the storage file of `cfg`.
    pub fn new(cfg: &Config) -> (storage: Storage)
        ensures
            storage.backend is None,
            storage.uri is None,
            storage.key_prefix is None,
            storage.path@ == cfg.storage_file@,
            !storage.uploadable,
    {
        Storage {
            backend: None,
            uri: None,
            key_prefix: None,
            path: cfg.storage_file.clone(),
            uploadable: false,
        }
    }

    /// Sets the store from its address, once the address is taken apart.
    /// Only the scheme `s3` is served.
    pub fn uri_parsed(&mut self, uri: &Uri) -> (result: Result<(), Error>)
        ensures
            final(self).key_prefix == old(self).key_prefix,
            final(self).path == old(self).path,
            final(self).uploadable == old(self).uploadable,
            match result {
                Ok(()) => final(self).serves(uri@),
                Err(error) => {
                    &&& uri@.scheme != "s3"@ || uri@.domain is None
                    &&& final(self).backend == old(self).backend
                    &&& final(self).uri == old(self).uri
                    &&& error@ == Storage::refusal(uri@)
                },
            },
    {
        if same_str(uri.scheme.as_str(), S3::scheme()) {
            let s3 = match S3::from(uri) {
                Ok(s3) => s3,
                Err(error) => {
                    return Err(error);
                },
            };
            self.backend = Some(s3);
            self.uri = Some(uri.text.clone());
            return Ok(());
        }
        let mut cause = String::from_str("Unknown remote uri '");
        cause.append(uri.text.as_str());
        cause.append("'");
        Err(Error::storage(cause.as_str()))
    }

    /// Sets the store from its address. Fails, and changes nothing, where
    /// the text is no address, its scheme is not `s3`, or its host is no
    /// domain name.
    pub fn uri(&mut self, uri: &str) -> (result: Result<(), Error>)
        ensures
            final(self).key_prefix == old(self).key_prefix,
            final(self).path == old(self).path,
            final(self).uploadable == old(self).uploadable,
            match uri_of(uri@) {
                Ok(parts) => if parts.scheme == "s3"@ && parts.domain is Some {
                    result is Ok && final(self).serves(parts)
                } else {
                    &&& result is Err
                    &&& final(self).backend == old(self).backend
                    &&& final(self).uri == old(self).uri
                    &&& result->Err_0@ == Storage::refusal(parts)
                },
                Err(reason) => {
                    &&& result is Err
                    &&& final(self).backend == old(self).backend
                    &&& final(self).uri == old(self).uri
                    &&& result->Err_0@ == (ErrorView {
                        kind: KindView::Storage,
                        cause: Some(reason),
                    })
                },
            },
    {
        match parse_uri(uri) {
            Ok(parts) => self.uri_parsed(&parts),
            Err(reason) => Err(Error::storage(reason.as_str())),
        }
    }

    /// Appends `key` to the key prefix, after a slash where there is one already.
    pub fn key_prefix(&mut self, key: &str)
        ensures
            opt_view(final(self).key_prefix) == Some(below(opt_view(old(self).key_prefix), key@)),
            final(self).backend == old(self).backend,
            final(self).uri == old(self).uri,
            final(self).path == old(self).path,
            final(self).uploadable == old(self).uploadable,
    {
        let key_prefix = self.key_prefixed(key);
        self.key_prefix = Some(key_prefix);
    }

    /// Says whether this build may upload a snapshot.
    pub fn uploadable(&mut self, uploadable: bool)
        ensures
            final(self).uploadable == uploadable,
            final(self).backend == old(self).backend,
            final(self).uri == old(self).uri,
            final(self).key_prefix == old(self).key_prefix,
            final(self).path == old(self).path,
    {
        self.uploadable = uploadable;
    }

    /// Whether a snapshot is to be uploaded: there is a store and the build may.
    pub fn is_uploadable(&self) -> (yes: bool)
        ensures
            yes == (self.backend is Some && self.uploadable),
    {
        self.backend.is_some() && self.uploadable
    }

    /// Whether a snapshot can be fetched: there is a store.
    pub fn is_downloable(&self) -> (yes: bool)
        ensures
            yes == (self.backend is Some),
    {
        self.backend.is_some()
    }

    /// `key` below the key prefix, or `key` itself where there is none.
    pub fn key_prefixed(&self, key: &str) -> (full: String)
        ensures
            full@ == below(opt_view(self.key_prefix), key@),
    {
        match &self.key_prefix {
            Some(prefix) => {
                let mut full = prefix.clone();
                full.append("/");
                full.append(key);
                full
            },
            None => String::from_str(key),
        }
    }

    /// The fetch that brings the snapshot to the file at `path`: none
    /// without a store; otherwise of the object named by the key prefix and
    /// the file name of `path`.
    pub fn download(&self, path: &str) -> (result: Result<Option<Download>, Error>)
        ensures
            self.fetches(path@, result),
    {
        let inner = match &self.backend {
            Some(store) => store,
            None => {
                return Ok(None);
            },
        };
        let name = match storage_file_name(path) {
            Ok(name) => name,
            Err(error) => {
                return Err(error);
            },
        };
        let key = self.key_prefixed(name.as_str());
        let req = DownloadRequest { path: String::from_str(path), key };
        Ok(Some(inner.download(req)))
    }

    /// The upload that stores the `len` bytes of the file at `path`: none
    /// without a store; otherwise in parts, under the key named by the key
    /// prefix and the file name of `path`.
    pub fn upload(&self, path: &str, len: usize) -> (result: Result<Option<Upload>, Error>)
        ensures
            self.stores(path@, len, result),
    {
        let inner = match &self.backend {
            Some(store) => store,
            None => {
                return Ok(None);
            },
        };
        let name = match storage_file_name(path) {
            Ok(name) => name,
            Err(error) => {
                return Err(error);
            },
        };
        let key = self.key_prefixed(name.as_str());
        let req = UploadRequest { path: String::from_str(path), len, key };
        Ok(Some(inner.upload(req)))
    }

    /// The descriptor as it is saved: address, key prefix, and whether the
    /// build may upload.
    pub fn save(&self) -> (saved: (Option<String>, Option<String>, bool))
        ensures
            opt_view(saved.0) == opt_view(self.uri),
            opt_view(saved.1) == opt_view(self.key_prefix),
            saved.2 == self.uploadable,
    {
        let uri = match &self.uri {
            Some(uri) => Some(uri.clone()),
            None => None,
        };
        let key_prefix = match &self.key_prefix {
            Some(prefix) => Some(prefix.clone()),
            None => None,
        };
        (uri, key_prefix, self.uploadable)
    }

    /// The descriptor that was saved at `path` with these values: each
    /// value that is there is set; an address that cannot be used fails.
    pub fn load(
        path: &str,
        uri: Option<&str>,
        key_prefix: Option<&str>,
        uploadable: Option<bool>,
    ) -> (result: Result<Storage, Error>)
        ensures
            match result {
                Ok(storage) => {
                    &&& storage.path@ == path@
                    &&& match uri {
                        Some(text) => uri_of(text@) is Ok && storage.serves(uri_of(text@)->Ok_0),
                        None => storage.backend is None && storage.uri is None,
                    }
                    &&& opt_view(storage.key_prefix) == match key_prefix {
                        Some(key) => Some(key@),
                        None => None,
                    }
                    &&& storage.uploadable == match uploadable {
                        Some(yes) => yes,
                        None => false,
                    }
                },
                Err(error) => {
                    &&& uri is Some
                    &&& match uri_of(uri->Some_0@) {
                        Ok(parts) => (parts.scheme != "s3"@ || parts.domain is None) && error@
                            == Storage::refusal(parts),
                        Err(reason) => error@ == (ErrorView {
                            kind: KindView::Storage,
                            cause: Some(reason),
                        }),
                    }
                },
            },
    {
        let mut storage = Storage {
            backend: None,
            uri: None,
            key_prefix: None,
            path: String::from_str(path),
            uploadable: false,
        };
        if let Some(uri) = uri {
            match storage.uri(uri) {
                Ok(()) => {},
                Err(error) => {
                    return Err(error);
                },
            }
        }
        if let Some(key_prefix) = key_prefix {
            storage.key_prefix(key_prefix);
        }
        if let Some(uploadable) = uploadable {
            storage.uploadable(uploadable);
        }
        Ok(storage)
    }
}

} // verus!
