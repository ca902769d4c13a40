//! Compliance checks: the domain allow-list and the crawling-policy
//! verdict.  Both run once per crawl, before any listing page is
//! touched; the domain validation itself performs no network work at
//! all.

use vstd::prelude::*;

use crate::outside::{host_of, norm_url_of, robots_allowed, robots_allows, scheme_of, url_host,
    url_normalize, url_scheme};
use crate::text::push_all;

verus! {

/// Why a crawl cannot run (or could not finish).
#[derive(Debug)]
pub enum CrawlError {
    /// The start URL does not parse or has no host.
    InvalidUrl,
    /// The host is not on the allow-list of known site hostnames.
    DomainNotAllowed,
    /// The site's crawling policy disallows the start URL.
    PolicyDisallowed,
    /// All retry attempts for one page were exhausted; the reason text
    /// comes from the transport or from the validity heuristic.
    FetchFailed(Vec<u8>),
    /// Kept for the error taxonomy: the verified URL builder cannot
    /// actually fail.
    BuildUrlFailed,
}

/// The allow-listed hostname with the leading `www`.
pub open spec fn host_www() -> Seq<u8> {
    seq![
        119u8, 119u8, 119u8, 46u8, 110u8, 106u8, 117u8, 115u8, 107u8, 97u8, 108u8, 111u8, 46u8,
        104u8, 114u8,
    ]
}

/// The bare allow-listed hostname.
pub open spec fn host_bare() -> Seq<u8> {
    seq![110u8, 106u8, 117u8, 115u8, 107u8, 97u8, 108u8, 111u8, 46u8, 104u8, 114u8]
}

/// A host the engine may crawl.
pub open spec fn allowed_host(h: Seq<u8>) -> bool {
    h == host_www() || h == host_bare()
}

fn host_www_vec() -> (r: Vec<u8>)
    ensures
        r@ == host_www(),
{
    let mut v: Vec<u8> = Vec::new();
    v.push(119);
    v.push(119);
    v.push(119);
    v.push(46);
    push_bare_tail(&mut v);
    proof {
        assert(v@ =~= host_www());
    }
    v
}

fn host_bare_vec() -> (r: Vec<u8>)
    ensures
        r@ == host_bare(),
{
    let mut v: Vec<u8> = Vec::new();
    push_bare_tail(&mut v);
    proof {
        assert(v@ =~= host_bare());
    }
    v
}

fn push_bare_tail(v: &mut Vec<u8>)
    ensures
        final(v)@ == old(v)@ + host_bare(),
{
    v.push(110);
    v.push(106);
    v.push(117);
    v.push(115);
    v.push(107);
    v.push(97);
    v.push(108);
    v.push(111);
    v.push(46);
    v.push(104);
    v.push(114);
    proof {
        assert(v@ =~= old(v)@ + host_bare());
    }
}

/// What the domain gate establishes: the parsed start URL's normalized
/// text, host and scheme, the site origin, and where its policy
/// document lives.
#[derive(Debug)]
pub struct GateInfo {
    pub normalized: Vec<u8>,
    pub host: Vec<u8>,
    pub scheme: Vec<u8>,
    pub origin: Vec<u8>,
    pub robots_url: Vec<u8>,
}

/// The bytes of `://`.
pub open spec fn scheme_sep() -> Seq<u8> {
    seq![58u8, 47u8, 47u8]
}

/// The bytes of `/robots.txt`.
pub open spec fn robots_path() -> Seq<u8> {
    seq![47u8, 114u8, 111u8, 98u8, 111u8, 116u8, 115u8, 46u8, 116u8, 120u8, 116u8]
}

/// Validate the start URL against the allow-list, with no network work:
/// it must parse, have a host, and the host must be allow-listed.
/// On success the caller receives the normalized URL, the origin, and
/// the policy document's URL.
pub fn domain_gate(url: &[u8]) -> (r: Result<GateInfo, CrawlError>)
    ensures
        r is Ok <==> (norm_url_of(url@) is Some && (host_of(url@) matches Some(h)
            && allowed_host(h)) && scheme_of(url@) is Some),
        match r {
            Ok(g) => {
                &&& norm_url_of(url@) == Some(g.normalized@)
                &&& host_of(url@) == Some(g.host@)
                &&& allowed_host(g.host@)
                &&& scheme_of(url@) == Some(g.scheme@)
                &&& g.origin@ == g.scheme@ + scheme_sep() + g.host@
                &&& g.robots_url@ == g.origin@ + robots_path()
            },
            Err(e) => match e {
                CrawlError::InvalidUrl => norm_url_of(url@) is None || host_of(url@) is None
                    || scheme_of(url@) is None,
                CrawlError::DomainNotAllowed => host_of(url@) matches Some(h) && !allowed_host(h),
                _ => false,
            },
        },
{
    let normalized = match url_normalize(url) {
        Some(v) => v,
        None => {
            return Err(CrawlError::InvalidUrl);
        },
    };
    let host = match url_host(url) {
        Some(v) => v,
        None => {
            return Err(CrawlError::InvalidUrl);
        },
    };
    let www = host_www_vec();
    let bare = host_bare_vec();
    let allowed = crate::text::bytes_eq(host.as_slice(), www.as_slice()) || crate::text::bytes_eq(
        host.as_slice(),
        bare.as_slice(),
    );
    if !allowed {
        return Err(CrawlError::DomainNotAllowed);
    }
    let scheme = match url_scheme(url) {
        Some(v) => v,
        None => {
            return Err(CrawlError::InvalidUrl);
        },
    };
    let mut origin: Vec<u8> = Vec::new();
    push_all(&mut origin, scheme.as_slice());
    origin.push(58);
    origin.push(47);
    origin.push(47);
    push_all(&mut origin, host.as_slice());
    proof {
        assert(origin@ =~= scheme@ + scheme_sep() + host@);
    }
    let mut robots_url: Vec<u8> = Vec::new();
    push_all(&mut robots_url, origin.as_slice());
    robots_url.push(47);
    robots_url.push(114);
    robots_url.push(111);
    robots_url.push(98);
    robots_url.push(111);
    robots_url.push(116);
    robots_url.push(115);
    robots_url.push(46);
    robots_url.push(116);
    robots_url.push(120);
    robots_url.push(116);
    proof {
        assert(robots_url@ =~= origin@ + robots_path());
    }
    Ok(GateInfo { normalized, host, scheme, origin, robots_url })
}

/// The agent name under which the policy is evaluated: the desktop
/// browser family.
pub open spec fn policy_agent() -> Seq<char> {
    "Mozilla"@
}

/// The crawling-policy verdict for the start URL.  A policy document
/// that could not be fetched counts as permissive — availability is
/// deliberately preferred over strictness — so the caller passes `None`
/// exactly when the fetch failed.
pub fn policy_allows(robots_txt: Option<&str>, url: &str) -> (r: bool)
    ensures
        r == match robots_txt {
            Some(t) => robots_allowed(t@, policy_agent(), url@),
            None => true,
        },
{
    match robots_txt {
        Some(t) => robots_allows(t, "Mozilla", url),
        None => true,
    }
}

} // verus!
