//! Trusted declarations for the outside crates the engine computes
//! with: URL parsing and resolution, the crawling-policy matcher, and
//! the random number generator.  Each wrapper's contract states what
//! the named outside function is documented to return; Verus believes
//! the contracts and verifies everything built on them.

use vstd::prelude::*;

verus! {

/// What `rand::random_range(0..n)` returns: a value drawn uniformly
/// from the half-open range, hence always below `n`.  Nothing more can
/// be promised of a random draw.
///
/// Relies on rand::random_range: it panics only on an empty range, and
/// its result lies within the given range.
#[verifier::external_body]
pub(crate) fn random_below(n: usize) -> (r: usize)
    requires
        n >= 1,
    ensures
        r < n,
{
    rand::random_range(0..n)
}

/// The normalized serialization of a URL text, if it parses: what
/// `url::Url::parse` followed by `Url::as_str` yields.
pub uninterp spec fn norm_url_of(s: Seq<u8>) -> Option<Seq<u8>>;

/// Relies on url::Url::parse and Url::as_str: parsing is a pure
/// function of the text, and `as_str` serializes the parsed,
/// normalized URL.
#[verifier::external_body]
pub(crate) fn url_normalize(s: &[u8]) -> (r: Option<Vec<u8>>)
    ensures
        match r {
            Some(v) => norm_url_of(s@) == Some(v@),
            None => norm_url_of(s@) is None,
        },
{
    match core::str::from_utf8(s) {
        Ok(t) => match url::Url::parse(t) {
            Ok(u) => Some(u.as_str().as_bytes().to_vec()),
            Err(_) => None,
        },
        Err(_) => None,
    }
}

/// The host of a URL text, if it parses and has one: what
/// `url::Url::host_str` yields after `Url::parse`.
pub uninterp spec fn host_of(s: Seq<u8>) -> Option<Seq<u8>>;

/// Relies on url::Url::parse and Url::host_str: the (normalized) host
/// of the parsed URL, absent for host-less URLs.
#[verifier::external_body]
pub(crate) fn url_host(s: &[u8]) -> (r: Option<Vec<u8>>)
    ensures
        match r {
            Some(v) => host_of(s@) == Some(v@),
            None => host_of(s@) is None,
        },
{
    match core::str::from_utf8(s) {
        Ok(t) => match url::Url::parse(t) {
            Ok(u) => u.host_str().map(|h| h.as_bytes().to_vec()),
            Err(_) => None,
        },
        Err(_) => None,
    }
}

/// The scheme of a URL text, if it parses: what `url::Url::scheme`
/// yields after `Url::parse`.
pub uninterp spec fn scheme_of(s: Seq<u8>) -> Option<Seq<u8>>;

/// Relies on url::Url::parse and Url::scheme: every parsed URL has a
/// scheme.
#[verifier::external_body]
pub(crate) fn url_scheme(s: &[u8]) -> (r: Option<Vec<u8>>)
    ensures
        match r {
            Some(v) => scheme_of(s@) == Some(v@),
            None => scheme_of(s@) is None,
        },
{
    match core::str::from_utf8(s) {
        Ok(t) => match url::Url::parse(t) {
            Ok(u) => Some(u.scheme().as_bytes().to_vec()),
            Err(_) => None,
        },
        Err(_) => None,
    }
}

/// The resolution of a reference against a base URL text, if both
/// steps succeed: what `url::Url::join` yields after `Url::parse`.
pub uninterp spec fn joined_url_of(base: Seq<u8>, href: Seq<u8>) -> Option<Seq<u8>>;

/// Relies on url::Url::parse and Url::join: relative-reference
/// resolution is a pure function of the two texts.
#[verifier::external_body]
pub(crate) fn url_join(base: &[u8], href: &[u8]) -> (r: Option<Vec<u8>>)
    ensures
        match r {
            Some(v) => joined_url_of(base@, href@) == Some(v@),
            None => joined_url_of(base@, href@) is None,
        },
{
    match (core::str::from_utf8(base), core::str::from_utf8(href)) {
        (Ok(b), Ok(h)) => match url::Url::parse(b) {
            Ok(u) => match u.join(h) {
                Ok(j) => Some(j.as_str().as_bytes().to_vec()),
                Err(_) => None,
            },
            Err(_) => None,
        },
        _ => None,
    }
}

/// The crawling-policy verdict for one agent and one URL under a
/// policy document: what `robotstxt`'s matcher decides.  The verdict is
/// a pure function of the three texts.
pub uninterp spec fn robots_allowed(robots: Seq<char>, agent: Seq<char>, url: Seq<char>) -> bool;

/// Relies on robotstxt::DefaultMatcher::default and
/// RobotsMatcher::one_agent_allowed_by_robots: a fresh matcher's
/// verdict depends only on the document, the agent and the URL.
#[verifier::external_body]
pub(crate) fn robots_allows(robots_txt: &str, agent: &str, url: &str) -> (r: bool)
    ensures
        r == robots_allowed(robots_txt@, agent@, url@),
{
    let mut matcher = robotstxt::DefaultMatcher::default();
    matcher.one_agent_allowed_by_robots(robots_txt, agent, url)
}

} // verus!
