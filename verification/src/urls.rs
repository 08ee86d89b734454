//! Resolving a comic URL to the site that serves it.
//!
//! The registry is a fixed map from canonical domains to [`ComicSource`]
//! variants; an input URL is matched by its exact host.

use vstd::prelude::*;
use crate::model::{ComicSource, SiteDownloaderError};
use crate::text::str_eq;

verus! {

/// The host part of a URL, as WHATWG URL parsing extracts it: a function of
/// the string alone, `None` when the string is no URL or has no domain host.
pub uninterp spec fn domain_of(url: Seq<char>) -> Option<Seq<char>>;

/// Relies on `reqwest::Url::parse` (the `url` crate's parser) and
/// `Url::domain`: parsing is deterministic, and `domain` returns the host
/// exactly when the URL has a domain host.
#[verifier::external_body]
fn url_domain(url: &str) -> (r: Option<String>)
    ensures
        match r {
            Some(d) => domain_of(url@) == Some(d@),
            None => domain_of(url@) is None,
        },
{
    match reqwest::Url::parse(url) {
        Ok(parsed) => parsed.domain().map(|d| d.to_string()),
        Err(_) => None,
    }
}

/// The site registered for a host, if any.
pub open spec fn site_for_domain(d: Option<Seq<char>>) -> Option<ComicSource> {
    match d {
        Some(h) => if h == "readcomic.me"@ {
            Some(ComicSource::ReadcomicMe)
        } else if h == "www.zerocalcare.net"@ {
            Some(ComicSource::ZerocalcareNet)
        } else if h == "scanita.org"@ {
            Some(ComicSource::ScanitaOrg)
        } else {
            None
        },
        None => None,
    }
}

/// Matches the URL's host against the registry of supported sites.
/// Unrecognized or unparsable URLs fail with `ParsingError`.
pub fn identify_website(url: &str) -> (r: Result<ComicSource, SiteDownloaderError>)
    ensures
        match r {
            Ok(site) => site_for_domain(domain_of(url@)) == Some(site),
            Err(e) => e == SiteDownloaderError::ParsingError && site_for_domain(domain_of(url@)) is None,
        },
{
    match url_domain(url) {
        Some(host) => {
            if str_eq(host.as_str(), "readcomic.me") {
                Ok(ComicSource::ReadcomicMe)
            } else if str_eq(host.as_str(), "www.zerocalcare.net") {
                Ok(ComicSource::ZerocalcareNet)
            } else if str_eq(host.as_str(), "scanita.org") {
                Ok(ComicSource::ScanitaOrg)
            } else {
                Err(SiteDownloaderError::ParsingError)
            }
        },
        None => Err(SiteDownloaderError::ParsingError),
    }
}

/// The base URL of the URL's site: the HTTPS scheme joined to its host.
pub fn base_url_of(url: &str) -> (r: Option<String>)
    ensures
        match r {
            Some(b) => domain_of(url@) is Some && b@ == "https://"@ + domain_of(url@).unwrap(),
            None => domain_of(url@) is None,
        },
{
    match url_domain(url) {
        Some(host) => Some(String::from_str("https://").concat(host.as_str())),
        None => None,
    }
}

/// The sites this library can download from, one per line.
pub fn print_supported_websites() -> (r: String)
    ensures
        r@ == "\n- https://readcomic.me\n- https://www.zerocalcare.net\n- https://scanita.org\n"@,
{
    String::from_str("\n- https://readcomic.me\n- https://www.zerocalcare.net\n- https://scanita.org\n")
}

} // verus!
