//! What the crawler reads of an absolute URL, and the one call that obtains
//! it from the URL parser.

use vstd::prelude::*;
use reqwest::Url;

verus! {

/// The scheme, the host and the path of an absolute URL.
pub struct UrlParts {
    /// The scheme, in lower case and without the `:` behind it.
    pub scheme: String,
    /// The host as the parser writes it, if the URL has one.
    pub host: Option<String>,
    /// The path as the parser writes it, without query and fragment.
    pub path: String,
}

/// The mathematical value of a `UrlParts`.
pub struct UrlModel {
    /// The characters of the scheme.
    pub scheme: Seq<char>,
    /// The characters of the host, if there is one.
    pub host: Option<Seq<char>>,
    /// The characters of the path.
    pub path: Seq<char>,
}

impl View for UrlParts {
    type V = UrlModel;

    open spec fn view(&self) -> UrlModel {
        UrlModel {
            scheme: self.scheme@,
            host: match self.host {
                Some(host) => Some(host@),
                None => None,
            },
            path: self.path@,
        }
    }
}

/// The value of an optional `UrlParts`.
pub open spec fn parts_view(parts: Option<UrlParts>) -> Option<UrlModel> {
    match parts {
        Some(p) => Some(p@),
        None => None,
    }
}

/// What the URL parser makes of `text`: nothing when `text` is no absolute
/// URL, else the scheme, host and path of the URL it reads.
pub uninterp spec fn parsed_url(text: Seq<char>) -> Option<UrlModel>;

/// Parses `text` with `reqwest::Url::parse` and copies out what
/// `Url::scheme`, `Url::host_str` and `Url::path` return for the result.
///
/// Trusted: the parser is a function of its input alone, so the parts are
/// those that `parsed_url` names for `text`. Nothing is claimed about what
/// they are.
#[verifier::external_body]
pub(crate) fn parse_url(text: &str) -> (parts: Option<UrlParts>)
    ensures
        parts_view(parts) == parsed_url(text@),
{
    match Url::parse(text) {
        Ok(url) => Some(UrlParts {
            scheme: url.scheme().to_string(),
            host: url.host_str().map(|host| host.to_string()),
            path: url.path().to_string(),
        }),
        Err(_) => None,
    }
}

} // verus!
