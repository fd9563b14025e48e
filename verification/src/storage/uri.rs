//! The address of a blob store, taken apart.

use vstd::prelude::*;

verus! {

/// The parts of an address that the library reads.
#[derive(Debug)]
pub struct Uri {
    /// The address in its normal form.
    pub text: String,
    pub scheme: String,
    /// The host, where it is a domain name.
    pub domain: Option<String>,
    /// The host as `{:?}` prints it.
    pub host: String,
    pub path: String,
    /// The pairs of the query, decoded, in their order.
    pub query: Vec<(String, String)>,
}

/// Mathematical value of a [`Uri`].
pub struct UriView {
    pub text: Seq<char>,
    pub scheme: Seq<char>,
    pub domain: Option<Seq<char>>,
    pub host: Seq<char>,
    pub path: Seq<char>,
    pub query: Seq<(Seq<char>, Seq<char>)>,
}

impl View for Uri {
    type V = UriView;

    open spec fn view(&self) -> UriView {
        UriView {
            text: self.text@,
            scheme: self.scheme@,
            domain: match self.domain {
                Some(domain) => Some(domain@),
                None => None,
            },
            host: self.host@,
            path: self.path@,
            query: self.query@.map_values(|pair: (String, String)| (pair.0@, pair.1@)),
        }
    }
}

/// The parts of the address `text`, or the reason why it is no address.
pub uninterp spec fn uri_of(text: Seq<char>) -> Result<UriView, Seq<char>>;

/// `Url::parse` of the `url` crate, with the parts of the address read by
/// `as_str`, `scheme`, `domain`, `host`, `path` and `query_pairs`.
#[verifier::external_body]
pub(crate) fn parse_uri(text: &str) -> (result: Result<Uri, String>)
    ensures
        match result {
            Ok(uri) => uri_of(text@) == Ok::<UriView, Seq<char>>(uri@),
            Err(reason) => uri_of(text@) == Err::<UriView, Seq<char>>(reason@),
        },
{
    let url = url::Url::parse(text).map_err(|e| e.to_string())?;
    Ok(
        Uri {
            text: url.as_str().to_string(),
            scheme: url.scheme().to_string(),
            domain: url.domain().map(|d| d.to_string()),
            host: format!("{:?}", url.host()),
            path: url.path().to_string(),
            query: url.query_pairs().into_owned().collect(),
        },
    )
}

} // verus!
