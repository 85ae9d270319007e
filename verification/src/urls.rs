//! Trusted declarations around the `url` crate: store URLs are parsed by
//! `url::Url`, and the parse outcome — whether the string is an absolute
//! URL or a relative reference, and the scheme, host, port and path of
//! an absolute one — is a function of the string alone, so each part is
//! given a name that the verified dispatch logic speaks of.

use vstd::prelude::*;

verus! {

/// Whether `url::Url::parse` accepts the string as an absolute URL.
pub uninterp spec fn url_parses(s: Seq<char>) -> bool;

/// Whether the string is a relative reference — one `url::Url::parse`
/// rejects only for carrying no scheme.
pub uninterp spec fn url_is_relative(s: Seq<char>) -> bool;

/// The scheme of the URL parsed from the string.
pub uninterp spec fn url_scheme_of(s: Seq<char>) -> Seq<char>;

/// The host of the URL parsed from the string, if it has one.
pub uninterp spec fn url_host_of(s: Seq<char>) -> Option<Seq<char>>;

/// The explicit or scheme-default port of the URL parsed from the
/// string, where one is known.
pub uninterp spec fn url_port_of(s: Seq<char>) -> Option<u16>;

/// The percent-encoded path of the URL parsed from the string.
pub uninterp spec fn url_path_of(s: Seq<char>) -> Seq<char>;

/// The outcome of parsing a store URL string: the parts of an absolute
/// URL, a relative reference (a bare filesystem path), or nothing
/// parseable.
pub(crate) enum UrlParseOutcome {
    Parsed { scheme: String, host: Option<String>, port: Option<u16>, path: String },
    RelativeWithoutBase,
    Invalid,
}

/// Relies on url::Url::parse and the accessors Url::scheme,
/// Url::host_str, Url::port_or_known_default and Url::path: parsing and
/// each accessor depend on the string alone, `RelativeUrlWithoutBase`
/// is the error a string without a scheme gets, and the parts reported
/// for an absolute URL are exactly what the accessors return.
#[verifier::external_body]
pub(crate) fn parse_url(s: &str) -> (r: UrlParseOutcome)
    ensures
        (r is Parsed) == url_parses(s@),
        (r is RelativeWithoutBase) == (!url_parses(s@) && url_is_relative(s@)),
        (r is Invalid) == (!url_parses(s@) && !url_is_relative(s@)),
        r matches UrlParseOutcome::Parsed { scheme, host, port, path } ==> {
            &&& scheme@ == url_scheme_of(s@)
            &&& (match host {
                Some(h) => Some(h@),
                None => None::<Seq<char>>,
            }) == url_host_of(s@)
            &&& port == url_port_of(s@)
            &&& path@ == url_path_of(s@)
        },
{
    match url::Url::parse(s) {
        Ok(u) => UrlParseOutcome::Parsed {
            scheme: u.scheme().to_string(),
            host: u.host_str().map(|h| h.to_string()),
            port: u.port_or_known_default(),
            path: u.path().to_string(),
        },
        Err(url::ParseError::RelativeUrlWithoutBase) => UrlParseOutcome::RelativeWithoutBase,
        Err(_) => UrlParseOutcome::Invalid,
    }
}

} // verus!
