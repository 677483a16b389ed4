//! The scoping rule of the crawl: which links of a page are followed, and
//! under which canonical URL.

use vstd::prelude::*;
use vstd::string::StringExecFns;
use crate::link::{
    chars_of, is_root_relative, names_file, path_names_file, relative_path, relative_path_of,
    starts_at_root,
};
use crate::parts::{parse_url, parsed_url, parts_view, UrlModel, UrlParts};

verus! {

/// What separates a scheme from the host behind it.
pub open spec fn scheme_separator() -> Seq<char> {
    seq![':', '/', '/']
}

/// Whether the link `raw` names a file with an extension, given what the
/// URL parser makes of it. Of an absolute URL the path is the one the
/// parser reads; of any other link it is the link without its query and
/// fragment.
pub open spec fn link_names_file(raw: Seq<char>, link: Option<UrlModel>) -> bool {
    match link {
        Some(absolute) => names_file(absolute.path),
        None => names_file(relative_path(raw)),
    }
}

/// Whether the link `raw` names a file with an extension.
pub open spec fn has_file_extension_spec(raw: Seq<char>) -> bool {
    link_names_file(raw, parsed_url(raw))
}

/// The canonical URL of the link `raw`, or `None` where the link is out of
/// scope, given what the URL parser makes of the link and of the origin.
///
/// A link that names a file with an extension is rejected. So is every
/// link when the origin is no absolute URL or has no host. A link that is
/// an absolute URL is kept as it stands if its host is the origin's, and
/// rejected otherwise. Any other link is followed only if it starts with
/// `/`: it is then put behind the origin's scheme and host.
pub open spec fn normalized(
    raw: Seq<char>,
    link: Option<UrlModel>,
    origin: Option<UrlModel>,
) -> Option<Seq<char>> {
    if link_names_file(raw, link) {
        None
    } else {
        match origin {
            Some(UrlModel { scheme, host: Some(host), path }) => match link {
                Some(absolute) => if absolute.host == Some(host) {
                    Some(raw)
                } else {
                    None
                },
                None => if is_root_relative(raw) {
                    Some(scheme + scheme_separator() + host + raw)
                } else {
                    None
                },
            },
            _ => None,
        }
    }
}

/// The canonical URL of the link `raw` found under `origin`, or `None`
/// where the link is out of scope.
pub open spec fn normalize_spec(raw: Seq<char>, origin: Seq<char>) -> Option<Seq<char>> {
    normalized(raw, parsed_url(raw), parsed_url(origin))
}

/// The value of an optional string.
pub open spec fn text_view(text: Option<String>) -> Option<Seq<char>> {
    match text {
        Some(t) => Some(t@),
        None => None,
    }
}

/// Whether the link `raw` names a file with an extension, given the parts
/// of the link as the URL parser found them (`None` where it found no
/// absolute URL).
pub fn names_file_parsed(raw: &str, link: &Option<UrlParts>) -> (found: bool)
    ensures
        found == link_names_file(raw@, parts_view(*link)),
{
    match link {
        Some(absolute) => {
            let path = chars_of(absolute.path.as_str());
            path_names_file(&path)
        },
        None => {
            let chars = chars_of(raw);
            let path = relative_path_of(&chars);
            path_names_file(&path)
        },
    }
}

/// Whether the link `raw` names a file with an extension.
pub fn has_file_extension(raw: &str) -> (found: bool)
    ensures
        found == has_file_extension_spec(raw@),
{
    let link = parse_url(raw);
    names_file_parsed(raw, &link)
}

/// Canonicalizes the link `raw`, given the parts of the link and of the
/// origin as the URL parser found them (`None` where it found no absolute
/// URL).
pub fn normalize_parsed(raw: &str, link: &Option<UrlParts>, origin: &Option<UrlParts>) -> (url:
    Option<String>)
    ensures
        text_view(url) == normalized(raw@, parts_view(*link), parts_view(*origin)),
{
    if names_file_parsed(raw, link) {
        return None;
    }
    match origin {
        Some(UrlParts { scheme, host: Some(host), path: _ }) => match link {
            Some(absolute) => match &absolute.host {
                Some(link_host) => if *link_host == *host {
                    Some(raw.to_owned())
                } else {
                    None
                },
                None => None,
            },
            None => if starts_at_root(raw) {
                let mut url = scheme.clone();
                url.append("://");
                url.append(host.as_str());
                url.append(raw);
                proof {
                    reveal_strlit("://");
                    assert("://"@ =~= scheme_separator());
                }
                Some(url)
            } else {
                None
            },
        },
        _ => None,
    }
}

/// Canonicalizes the link `raw` found on a page of the site at `origin`:
/// the absolute URL under which the crawl knows the link, or `None` where
/// the link is not followed.
pub fn normalize_url(raw: &str, origin: &str) -> (url: Option<String>)
    ensures
        text_view(url) == normalize_spec(raw@, origin@),
{
    let link = parse_url(raw);
    let base = parse_url(origin);
    normalize_parsed(raw, &link, &base)
}

/// Canonicalizing is a function of the link and the origin: whatever two
/// calls on the same link and origin return is the same.
pub proof fn lemma_same_link_same_url(
    raw: Seq<char>,
    origin: Seq<char>,
    first: Option<Seq<char>>,
    second: Option<Seq<char>>,
)
    requires
        first == normalize_spec(raw, origin),
        second == normalize_spec(raw, origin),
    ensures
        first == second,
{
}

/// A link that is an absolute URL on another host than the origin's, or
/// without a host, is rejected.
pub proof fn lemma_cross_host_rejected(raw: Seq<char>, origin: Seq<char>)
    requires
        parsed_url(raw) is Some,
        parsed_url(origin) is Some ==> parsed_url(raw)->0.host is None || parsed_url(raw)->0.host
            != parsed_url(origin)->0.host,
    ensures
        normalize_spec(raw, origin) is None,
{
}

/// A link that is no absolute URL, starts with `/` and names no file with
/// an extension is put behind the scheme and host of the origin.
pub proof fn lemma_root_relative_resolved(
    raw: Seq<char>,
    origin: Seq<char>,
    scheme: Seq<char>,
    host: Seq<char>,
)
    requires
        parsed_url(raw) is None,
        is_root_relative(raw),
        !names_file(relative_path(raw)),
        parsed_url(origin) matches Some(base) && base.scheme == scheme && base.host == Some(host),
    ensures
        normalize_spec(raw, origin) == Some(scheme + scheme_separator() + host + raw),
{
}

/// A link that names a file with an extension is rejected, whatever its
/// host and whatever the origin: an absolute URL whose path, as the URL
/// parser reads it, names such a file, and any other link whose text up
/// to its query or fragment does.
pub proof fn lemma_extension_rejected(raw: Seq<char>, origin: Seq<char>)
    requires
        match parsed_url(raw) {
            Some(absolute) => names_file(absolute.path),
            None => names_file(relative_path(raw)),
        },
    ensures
        normalize_spec(raw, origin) is None,
{
}

/// A link that is neither an absolute URL nor starts with `/` is rejected.
pub proof fn lemma_other_relative_rejected(raw: Seq<char>, origin: Seq<char>)
    requires
        parsed_url(raw) is None,
        !is_root_relative(raw),
    ensures
        normalize_spec(raw, origin) is None,
{
}

/// A link that is kept names no file with an extension. It is an absolute
/// URL on the origin's host, kept as it stands, or a root-relative link.
pub proof fn lemma_accepted_link(raw: Seq<char>, origin: Seq<char>)
    requires
        normalize_spec(raw, origin) is Some,
    ensures
        !has_file_extension_spec(raw),
        parsed_url(origin) is Some,
        parsed_url(origin)->0.host is Some,
        parsed_url(raw) matches Some(absolute) ==> normalize_spec(raw, origin) == Some(raw)
            && absolute.host == parsed_url(origin)->0.host && !names_file(absolute.path),
        parsed_url(raw) is None ==> is_root_relative(raw) && !names_file(relative_path(raw)),
{
}

/// The canonical URL of a link that is an absolute URL is a fixed point:
/// canonicalizing it again gives it back.
pub proof fn lemma_absolute_fixed_point(raw: Seq<char>, origin: Seq<char>)
    requires
        parsed_url(raw) is Some,
        normalize_spec(raw, origin) is Some,
    ensures
        normalize_spec(normalize_spec(raw, origin)->0, origin) == normalize_spec(raw, origin),
{
}

/// The canonical URL of a root-relative link is a fixed point wherever the
/// URL parser reads it back as a URL on the origin's host whose path names
/// no file with an extension.
pub proof fn lemma_resolved_fixed_point(raw: Seq<char>, origin: Seq<char>)
    requires
        parsed_url(raw) is None,
        normalize_spec(raw, origin) matches Some(url) && (parsed_url(url) matches Some(again)
            && again.host == parsed_url(origin)->0.host && !names_file(again.path)),
    ensures
        normalize_spec(normalize_spec(raw, origin)->0, origin) == normalize_spec(raw, origin),
{
}

} // verus!
