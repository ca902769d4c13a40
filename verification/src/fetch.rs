//! Fetch engine state: the retry/identity-rotation state machine, the
//! content-validity heuristic, and the browser-like header set.
//!
//! The machine performs up to five attempts, starting with the desktop
//! identity profile and flipping the profile after every failed
//! attempt.  A response body counts as genuine listing content only if
//! it is longer than a minimum size and contains a marker substring
//! that appears only in real listing markup; anti-bot defenses here
//! return 200-status pages with near-empty bodies, so the status line
//! alone proves nothing.  The network calls themselves happen outside
//! this crate; the machine decides, the caller performs.

use vstd::prelude::*;
use vstd::string::StringExecFns;

use crate::outside::random_below;
use crate::text::{contains_seq, contains_sub};

verus! {

/// Identity profile presented to the server.
#[derive(Clone, Copy, Debug, PartialEq, Eq, Structural)]
pub enum Profile {
    Desktop,
    Mobile,
}

/// The profile used after one more failed attempt.
pub open spec fn flip_profile(p: Profile) -> Profile {
    match p {
        Profile::Desktop => Profile::Mobile,
        Profile::Mobile => Profile::Desktop,
    }
}

/// The profile of the `k`-th attempt (attempts count from 1; odd
/// attempts are desktop).
pub open spec fn profile_of_attempt(k: int) -> Profile {
    if k % 2 == 1 {
        Profile::Desktop
    } else {
        Profile::Mobile
    }
}

/// Retry attempts per page.
pub const MAX_FETCH_ATTEMPTS: u8 = 5;

/// Minimum decoded body size of genuine listing content, in bytes.
pub const MIN_CONTENT_LEN: usize = 4000;

/// Bounds of the randomized backoff between attempts, in milliseconds.
pub const BACKOFF_MIN_MS: u64 = 600;

pub const BACKOFF_MAX_MS: u64 = 1500;

/// Bounds of the randomized politeness pause between pages, in
/// milliseconds.
pub const PAGE_PAUSE_MIN_MS: u64 = 900;

pub const PAGE_PAUSE_MAX_MS: u64 = 2200;

/// One fetch attempt about to be made.
#[derive(Clone, Copy, Debug, PartialEq, Eq, Structural)]
pub struct FetchAttempt {
    pub attempt: u8,
    pub profile: Profile,
}

impl FetchAttempt {
    pub open spec fn wf(self) -> bool {
        1 <= self.attempt <= MAX_FETCH_ATTEMPTS && self.profile == profile_of_attempt(
            self.attempt as int,
        )
    }

    /// The first attempt: desktop identity.
    pub fn first() -> (a: FetchAttempt)
        ensures
            a.attempt == 1,
            a.profile == Profile::Desktop,
            a.wf(),
    {
        FetchAttempt { attempt: 1, profile: Profile::Desktop }
    }
}

/// What to do after an attempt.
pub enum FetchStep {
    Accept,
    Retry(FetchAttempt),
    GiveUp,
}

/// Decide the next move from an attempt's outcome: accept genuine
/// content, retry with the other profile while attempts remain, and
/// give up after the last one.
pub fn fetch_step(a: &FetchAttempt, body_valid: bool) -> (r: FetchStep)
    requires
        a.wf(),
    ensures
        body_valid ==> r is Accept,
        !body_valid && a.attempt < MAX_FETCH_ATTEMPTS ==> (r matches FetchStep::Retry(n)
            && n.attempt == a.attempt + 1 && n.profile == flip_profile(a.profile) && n.wf()),
        !body_valid && a.attempt == MAX_FETCH_ATTEMPTS ==> r is GiveUp,
{
    if body_valid {
        FetchStep::Accept
    } else if a.attempt < MAX_FETCH_ATTEMPTS {
        let p = match a.profile {
            Profile::Desktop => Profile::Mobile,
            Profile::Mobile => Profile::Desktop,
        };
        FetchStep::Retry(FetchAttempt { attempt: a.attempt + 1, profile: p })
    } else {
        FetchStep::GiveUp
    }
}

// ---------------------------------------------------------------------
// the validity heuristic
// ---------------------------------------------------------------------

/// The marker substring that appears only in genuine listing markup:
/// the bytes of `EntityList-item`.
pub open spec fn content_marker() -> Seq<u8> {
    seq![69u8, 110u8, 116u8, 105u8, 116u8, 121u8, 76u8, 105u8, 115u8, 116u8, 45u8, 105u8, 116u8, 101u8, 109u8]
}

/// Genuine listing content: long enough and carrying the marker.
pub open spec fn spec_valid_page(s: Seq<u8>) -> bool {
    s.len() > MIN_CONTENT_LEN && contains_seq(s, content_marker())
}

fn content_marker_vec() -> (r: Vec<u8>)
    ensures
        r@ == content_marker(),
{
    let mut v: Vec<u8> = Vec::new();
    v.push(69);
    v.push(110);
    v.push(116);
    v.push(105);
    v.push(116);
    v.push(121);
    v.push(76);
    v.push(105);
    v.push(115);
    v.push(116);
    v.push(45);
    v.push(105);
    v.push(116);
    v.push(101);
    v.push(109);
    proof {
        assert(v@ =~= content_marker());
    }
    v
}

/// Judge whether a fetched body is genuine listing content.
pub fn page_is_valid(body: &[u8]) -> (r: bool)
    ensures
        r == spec_valid_page(body@),
{
    if body.len() <= MIN_CONTENT_LEN {
        return false;
    }
    let marker = content_marker_vec();
    contains_sub(body, marker.as_slice())
}

// ---------------------------------------------------------------------
// identities
// ---------------------------------------------------------------------

/// The fixed desktop user-agent strings, sampled per attempt.
pub open spec fn spec_desktop_ua(i: int) -> Seq<char> {
    if i == 0 {
        "Mozilla/5.0 (X11; Linux x86_64) AppleWebKit/537.36 (KHTML, like Gecko) Chrome/124.0 Safari/537.36"@
    } else if i == 1 {
        "Mozilla/5.0 (Windows NT 10.0; Win64; x64) AppleWebKit/537.36 (KHTML, like Gecko) Chrome/123.0 Safari/537.36"@
    } else {
        "Mozilla/5.0 (Macintosh; Intel Mac OS X 10_15_7) AppleWebKit/605.1.15 (KHTML, like Gecko) Version/17.5 Safari/605.1.15"@
    }
}

/// The fixed mobile user-agent strings.
pub open spec fn spec_mobile_ua(i: int) -> Seq<char> {
    if i == 0 {
        "Mozilla/5.0 (Linux; Android 14; Pixel 7) AppleWebKit/537.36 (KHTML, like Gecko) Chrome/124.0 Mobile Safari/537.36"@
    } else {
        "Mozilla/5.0 (iPhone; CPU iPhone OS 17_5 like Mac OS X) AppleWebKit/605.1.15 (KHTML, like Gecko) Version/17.5 Mobile/15E148 Safari/604.1"@
    }
}

/// A desktop user-agent chosen at random from the fixed list.
pub fn random_desktop_ua() -> (r: &'static str)
    ensures
        exists|i: int| 0 <= i < 3 && r@ == spec_desktop_ua(i),
{
    let i = random_below(3);
    let ua = if i == 0 {
        "Mozilla/5.0 (X11; Linux x86_64) AppleWebKit/537.36 (KHTML, like Gecko) Chrome/124.0 Safari/537.36"
    } else if i == 1 {
        "Mozilla/5.0 (Windows NT 10.0; Win64; x64) AppleWebKit/537.36 (KHTML, like Gecko) Chrome/123.0 Safari/537.36"
    } else {
        "Mozilla/5.0 (Macintosh; Intel Mac OS X 10_15_7) AppleWebKit/605.1.15 (KHTML, like Gecko) Version/17.5 Safari/605.1.15"
    };
    proof {
        if i == 0 {
            assert(ua@ == spec_desktop_ua(0));
        } else if i == 1 {
            assert(ua@ == spec_desktop_ua(1));
        } else {
            assert(ua@ == spec_desktop_ua(2));
        }
    }
    ua
}

/// A mobile user-agent chosen at random from the fixed list.
pub fn random_mobile_ua() -> (r: &'static str)
    ensures
        exists|i: int| 0 <= i < 2 && r@ == spec_mobile_ua(i),
{
    let i = random_below(2);
    let ua = if i == 0 {
        "Mozilla/5.0 (Linux; Android 14; Pixel 7) AppleWebKit/537.36 (KHTML, like Gecko) Chrome/124.0 Mobile Safari/537.36"
    } else {
        "Mozilla/5.0 (iPhone; CPU iPhone OS 17_5 like Mac OS X) AppleWebKit/605.1.15 (KHTML, like Gecko) Version/17.5 Mobile/15E148 Safari/604.1"
    };
    proof {
        if i == 0 {
            assert(ua@ == spec_mobile_ua(0));
        } else {
            assert(ua@ == spec_mobile_ua(1));
        }
    }
    ua
}

// ---------------------------------------------------------------------
// headers
// ---------------------------------------------------------------------

/// The header set of an organic page load: the user agent, a locale
/// matching the target site, the referer, and standard browser
/// navigation headers, in this fixed order.
pub open spec fn spec_headers(ua: Seq<char>, referer: Seq<char>) -> Seq<(Seq<char>, Seq<char>)> {
    seq![
        ("User-Agent"@, ua),
        ("Accept"@, "text/html,application/xhtml+xml,application/xml;q=0.9,*/*;q=0.8"@),
        ("Accept-Language"@, "hr-HR,hr;q=0.9,en-US;q=0.8,en;q=0.7"@),
        ("Referer"@, referer),
        ("Upgrade-Insecure-Requests"@, "1"@),
        ("Connection"@, "keep-alive"@),
        ("Cache-Control"@, "max-age=0"@),
        ("Pragma"@, "no-cache"@),
        ("DNT"@, "1"@),
        ("Sec-Fetch-Site"@, "same-origin"@),
        ("Sec-Fetch-Mode"@, "navigate"@),
        ("Sec-Fetch-Dest"@, "document"@),
    ]
}

/// Build the header list for one attempt.
pub fn request_headers(ua: &str, referer: &str) -> (r: Vec<(String, String)>)
    ensures
        r@.map_values(|p: (String, String)| (p.0@, p.1@)) == spec_headers(ua@, referer@),
{
    let mut r: Vec<(String, String)> = Vec::new();
    r.push((String::from_str("User-Agent"), String::from_str(ua)));
    r.push(
        (
            String::from_str("Accept"),
            String::from_str("text/html,application/xhtml+xml,application/xml;q=0.9,*/*;q=0.8"),
        ),
    );
    r.push(
        (String::from_str("Accept-Language"), String::from_str("hr-HR,hr;q=0.9,en-US;q=0.8,en;q=0.7")),
    );
    r.push((String::from_str("Referer"), String::from_str(referer)));
    r.push((String::from_str("Upgrade-Insecure-Requests"), String::from_str("1")));
    r.push((String::from_str("Connection"), String::from_str("keep-alive")));
    r.push((String::from_str("Cache-Control"), String::from_str("max-age=0")));
    r.push((String::from_str("Pragma"), String::from_str("no-cache")));
    r.push((String::from_str("DNT"), String::from_str("1")));
    r.push((String::from_str("Sec-Fetch-Site"), String::from_str("same-origin")));
    r.push((String::from_str("Sec-Fetch-Mode"), String::from_str("navigate")));
    r.push((String::from_str("Sec-Fetch-Dest"), String::from_str("document")));
    proof {
        assert(r@.map_values(|p: (String, String)| (p.0@, p.1@)) =~= spec_headers(ua@, referer@));
    }
    r
}

} // verus!
