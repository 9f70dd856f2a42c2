//! What a domain serves right now: one request, and a fixed ladder of checks
//! on what came back.

use crate::text::{chars_of, contains, has_substring, to_ascii_lowercase, ascii_lowercase};
use vstd::prelude::*;
use vstd::string::StringExecFns;

verus! {

/// The result of the live check of one domain.
#[derive(Debug, Clone, PartialEq, Eq)]
pub enum DomainStatus {
    /// The domain serves a wiki of this platform.
    Healthy,
    /// The platform answers that it has no wiki under this name.
    WikiNotFound,
    /// The platform answers that the domain is not set up for it.
    DomainMisconfigured,
    /// The name does not resolve, or the page says that it has expired.
    Expired,
    /// The wiki software runs there, but not on this platform.
    MediaWikiWebsite,
    /// Some other website.
    Website,
    /// The request failed in a way that says nothing about the domain.
    Unknown(String),
}

/// A request that got no response, with the transport's own account of why.
#[derive(Debug, Clone, PartialEq, Eq)]
pub struct TransportError {
    pub detail: String,
}

/// The transport: one GET, answered by a status code and a body, or not at
/// all.
pub trait HttpClient {
    fn get(&self, url: &str) -> Result<(u16, String), TransportError>;
}

/// Whether the pattern, read as a regular expression, matches somewhere in the
/// text; `None` where the pattern is not a regular expression that can be
/// compiled.
pub uninterp spec fn regex_is_match(pattern: Seq<char>, text: Seq<char>) -> Option<bool>;

/// `regex::Regex::new` on the pattern, then `Regex::is_match` on the text.
/// The result depends on the two texts alone; nothing more is claimed of it.
#[verifier::external_body]
fn pattern_found(pattern: &str, text: &str) -> (found: Option<bool>)
    ensures
        found == regex_is_match(pattern@, text@),
{
    match regex::Regex::new(pattern) {
        Ok(re) => Some(re.is_match(text)),
        Err(_) => None,
    }
}

/// The pattern of a page body that the wiki software wrote.
pub open spec fn software_pattern() -> Seq<char> {
    "<body class=[^>]{0,1000}mediawiki"@
}

/// The page carries one of the platform's own marks.
pub open spec fn has_platform_mark(body: Seq<char>) -> bool {
    has_substring(body, "footer-mirahezeico"@) || has_substring(body, "meta.miraheze.org"@)
}

/// The ladder of checks on a page, first match first, given whether the wiki
/// software wrote the body.
pub open spec fn page_status(by_software: bool, body: Seq<char>) -> DomainStatus {
    if by_software {
        if has_platform_mark(body) {
            DomainStatus::Healthy
        } else {
            DomainStatus::MediaWikiWebsite
        }
    } else if has_substring(body, "<title>Wiki not found</title>"@) {
        DomainStatus::WikiNotFound
    } else if has_substring(ascii_lowercase(body), "domain misconfigured"@) {
        DomainStatus::DomainMisconfigured
    } else if has_substring(ascii_lowercase(body), "expired"@) {
        DomainStatus::Expired
    } else {
        DomainStatus::Website
    }
}

/// `status` is what a page with this body is classified as.
pub open spec fn is_page_verdict(status: DomainStatus, body: Seq<char>) -> bool {
    match regex_is_match(software_pattern(), body) {
        Some(by_software) => status == page_status(by_software, body),
        None => status is Unknown,
    }
}

/// `status` is what a failed request with this account is classified as.
pub open spec fn is_error_verdict(status: DomainStatus, detail: Seq<char>) -> bool {
    if has_substring(detail, "dns error"@) {
        status is Expired
    } else {
        status matches DomainStatus::Unknown(text) && text@ == detail
    }
}

/// Classifies a page, given whether the wiki software wrote its body.
pub fn classify_page(by_software: bool, response: &str) -> (status: DomainStatus)
    ensures
        status == page_status(by_software, response@),
{
    let body = chars_of(response);
    if by_software {
        if contains(&body, &chars_of("footer-mirahezeico")) || contains(
            &body,
            &chars_of("meta.miraheze.org"),
        ) {
            return DomainStatus::Healthy;
        } else {
            return DomainStatus::MediaWikiWebsite;
        }
    }
    if contains(&body, &chars_of("<title>Wiki not found</title>")) {
        return DomainStatus::WikiNotFound;
    }
    let lower = to_ascii_lowercase(&body);
    if contains(&lower, &chars_of("domain misconfigured")) {
        return DomainStatus::DomainMisconfigured;
    }
    if contains(&lower, &chars_of("expired")) {
        return DomainStatus::Expired;
    }
    DomainStatus::Website
}

/// Classifies the page that a domain served. The status code plays no part.
/// Where the software pattern cannot be evaluated, the page is not classified
/// and the result is `Unknown`.
pub fn check_page_content(_status_code: u16, response: &str) -> (status: DomainStatus)
    ensures
        is_page_verdict(status, response@),
{
    match pattern_found("<body class=[^>]{0,1000}mediawiki", response) {
        Some(by_software) => classify_page(by_software, response),
        None => DomainStatus::Unknown(String::from_str("the page pattern could not be compiled")),
    }
}

/// Classifies a request that got no response: a failure to resolve the name
/// means that the domain has expired, anything else is passed on as it is.
pub fn classify_error(err: TransportError) -> (status: DomainStatus)
    ensures
        is_error_verdict(status, err.detail@),
{
    let detail = chars_of(err.detail.as_str());
    if contains(&detail, &chars_of("dns error")) {
        DomainStatus::Expired
    } else {
        DomainStatus::Unknown(err.detail)
    }
}

/// `status` is what this outcome of a request is classified as.
pub open spec fn is_verdict(status: DomainStatus, outcome: Result<(u16, String), TransportError>)
    -> bool {
    match outcome {
        Ok((_, body)) => is_page_verdict(status, body@),
        Err(err) => is_error_verdict(status, err.detail@),
    }
}

/// Classifies the outcome of the request to a domain.
pub fn classify_response(outcome: Result<(u16, String), TransportError>) -> (status: DomainStatus)
    ensures
        is_verdict(status, outcome),
{
    match outcome {
        Ok((status_code, text)) => check_page_content(status_code, text.as_str()),
        Err(e) => classify_error(e),
    }
}

/// Asks for `url` once and classifies what came back.
pub fn check_domain_status(client: &dyn HttpClient, url: &str) -> (status: DomainStatus)
    ensures
        exists|outcome: Result<(u16, String), TransportError>| is_verdict(status, outcome),
{
    let outcome = client.get(url);
    let status = classify_response(outcome);
    assert(is_verdict(status, outcome));
    status
}

} // verus!
