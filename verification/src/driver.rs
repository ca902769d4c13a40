//! Engine driver: one crawl run as an explicit state machine.
//!
//! The driver owns the run-scoped state — the pager base, the page
//! counters, the deduplication register — and decides; the caller
//! performs the network work.  One page cycle is: ask for the page URL
//! and referer, fetch outside, parse the markup, and hand the parsed
//! records to `apply_page`, which deduplicates, counts, and decides
//! whether the run goes on.  The run stops at the page cap or at the
//! first page that contributes no records; that absence of content is
//! the site's only end-of-listing signal.
//!
//! `run_feed` drives the same machine over an in-memory feed of parsed
//! pages.  Its contract is the event-stream shape: one start event,
//! one page event per visited page in increasing page order, then
//! exactly one terminal event.

use vstd::prelude::*;

use crate::card::ListingHit;
use crate::dedup::DedupRegister;
use crate::pager::{
    build_page_url, frag_of, kept_pairs, normalize_pager, prefix_of, spec_build, spec_start_page,
    PagerBase,
};
use crate::text::clone_bytes;

verus! {

/// Default page cap of a run, a sanity guard against endless feeds.
pub const HARD_PAGE_CAP: usize = 200;

/// What one visited page contributed: its number, its URL, and the
/// newly accepted records, in document order.
pub struct PageResult {
    pub page_number: usize,
    pub source_url: Vec<u8>,
    pub hits: Vec<ListingHit>,
    pub hit_count: usize,
}

impl PageResult {
    pub open spec fn wf(self) -> bool {
        &&& self.hit_count == self.hits@.len()
        &&& forall|i: int| 0 <= i < self.hits@.len() ==> (#[trigger] self.hits@[i]).wf()
    }
}

/// Terminal summary of one run.
pub struct CrawlOutcome {
    pub pages_visited: usize,
    pub total_hits: u128,
    pub next_page_url: Option<Vec<u8>>,
}

/// The incremental event vocabulary, in the order a consumer sees it:
/// `Start`, one `Page` per visited page, then exactly one of `Done` or
/// `Error`.
pub enum CrawlEvent {
    Start { origin: Vec<u8>, max_pages: usize },
    Page(PageResult),
    Done { pages_visited: usize, total_hits: u128 },
    Error { reason: Vec<u8> },
}

// ---------------------------------------------------------------------
// deduplication of one page, at the specification level
// ---------------------------------------------------------------------

/// Fold one page's parsed records through the register: the accepted
/// subsequence, and the identifiers seen afterwards.
pub open spec fn accept_page(hits: Seq<ListingHit>, seen: Seq<Seq<u8>>) -> (Seq<ListingHit>, Seq<
    Seq<u8>,
>)
    decreases hits.len(),
{
    if hits.len() == 0 {
        (Seq::empty(), seen)
    } else {
        let h = hits[0];
        let ok = h.id@.len() == 0 || !seen.contains(h.id@);
        let seen2 = if h.id@.len() > 0 && !seen.contains(h.id@) {
            seen.push(h.id@)
        } else {
            seen
        };
        let rest = accept_page(hits.drop_first(), seen2);
        if ok {
            (seq![h] + rest.0, rest.1)
        } else {
            rest
        }
    }
}

proof fn lemma_accept_page_wf(hits: Seq<ListingHit>, seen: Seq<Seq<u8>>)
    requires
        forall|i: int| 0 <= i < hits.len() ==> (#[trigger] hits[i]).wf(),
    ensures
        forall|i: int|
            0 <= i < accept_page(hits, seen).0.len() ==> (#[trigger] accept_page(
                hits,
                seen,
            ).0[i]).wf(),
        accept_page(hits, seen).0.len() <= hits.len(),
    decreases hits.len(),
{
    if hits.len() > 0 {
        let seen2 = if hits[0].id@.len() > 0 && !seen.contains(hits[0].id@) {
            seen.push(hits[0].id@)
        } else {
            seen
        };
        assert(forall|i: int|
            0 <= i < hits.drop_first().len() ==> hits.drop_first()[i] == hits[i + 1]);
        lemma_accept_page_wf(hits.drop_first(), seen2);
    }
}

// ---------------------------------------------------------------------
// the crawl state machine
// ---------------------------------------------------------------------

/// One crawl run's state.
pub struct Crawl {
    pub base: PagerBase,
    pub start_page: usize,
    pub pages_visited: usize,
    pub total_hits: u128,
    pub max_pages: usize,
    pub origin: Vec<u8>,
    pub prev_page_url: Option<Vec<u8>>,
    pub next_page_url: Option<Vec<u8>>,
    pub seen: DedupRegister,
    pub finished: bool,
}

impl Crawl {
    pub open spec fn wf(self) -> bool {
        &&& self.base.wf()
        &&& self.start_page >= 1
        &&& self.total_hits as int <= self.pages_visited as int * (usize::MAX as int)
    }

    /// The run can visit no further page: the cap is reached, or the
    /// page counter would no longer fit the machine.
    pub open spec fn cap_reached(self) -> bool {
        self.pages_visited >= self.max_pages || self.start_page as int + self.pages_visited as int
            > usize::MAX as int
    }

    pub open spec fn can_fetch_spec(self) -> bool {
        !self.finished && !self.cap_reached()
    }

    /// Whether another page is to be fetched.
    pub fn can_fetch(&self) -> (b: bool)
        ensures
            b == self.can_fetch_spec(),
    {
        !self.finished && self.pages_visited < self.max_pages && self.pages_visited <= usize::MAX
            - self.start_page
    }

    /// Start a run: normalize the start URL, derive the starting page,
    /// and apply the page cap (the hard default when absent).
    pub fn new(url: &[u8], origin: Vec<u8>, cap: Option<usize>) -> (c: Crawl)
        ensures
            c.wf(),
            c.base.prefix@ == prefix_of(url@),
            c.base.pairs.deep_view() == kept_pairs(url@),
            c.base.fragment@ == frag_of(url@),
            c.start_page as int == spec_start_page(url@),
            c.pages_visited == 0,
            c.total_hits == 0,
            c.max_pages == match cap {
                Some(n) => n,
                None => HARD_PAGE_CAP as usize,
            },
            c.origin@ == origin@,
            c.prev_page_url is None,
            c.next_page_url is None,
            c.seen.ids() == Seq::<Seq<u8>>::empty(),
            !c.finished,
    {
        let (base, start_page) = normalize_pager(url);
        let max_pages = match cap {
            Some(n) => n,
            None => HARD_PAGE_CAP,
        };
        Crawl {
            base,
            start_page,
            pages_visited: 0,
            total_hits: 0,
            max_pages,
            origin,
            prev_page_url: None,
            next_page_url: None,
            seen: DedupRegister::new(),
            finished: false,
        }
    }

    /// The number of the page about to be visited.
    pub fn next_page_number(&self) -> (p: usize)
        requires
            self.can_fetch_spec(),
        ensures
            p as int == self.start_page as int + self.pages_visited as int,
    {
        self.start_page + self.pages_visited
    }

    /// The URL of the page about to be visited.
    pub fn current_page_url(&self) -> (r: Vec<u8>)
        requires
            self.can_fetch_spec(),
        ensures
            r@ == spec_build(
                self.base.prefix@,
                self.base.pairs.deep_view(),
                self.base.fragment@,
                self.start_page as int + self.pages_visited as int,
            ),
    {
        build_page_url(&self.base, self.next_page_number())
    }

    /// The referer of the next request: the previous page, or the site
    /// origin on the first one.
    pub fn referer(&self) -> (r: Vec<u8>)
        ensures
            r@ == match self.prev_page_url {
                Some(u) => u@,
                None => self.origin@,
            },
    {
        match &self.prev_page_url {
            Some(u) => clone_bytes(u),
            None => clone_bytes(&self.origin),
        }
    }

    /// The event that announces the run.
    pub fn start_event(&self) -> (e: CrawlEvent)
        ensures
            e matches CrawlEvent::Start { origin, max_pages } && origin@ == self.origin@
                && max_pages == self.max_pages,
    {
        CrawlEvent::Start { origin: clone_bytes(&self.origin), max_pages: self.max_pages }
    }

    /// The terminal event of a completed run.
    pub fn done_event(&self) -> (e: CrawlEvent)
        ensures
            e matches CrawlEvent::Done { pages_visited, total_hits } && pages_visited
                == self.pages_visited && total_hits == self.total_hits,
    {
        CrawlEvent::Done { pages_visited: self.pages_visited, total_hits: self.total_hits }
    }

    /// The terminal summary of the run.
    pub fn outcome(&self) -> (o: CrawlOutcome)
        ensures
            o.pages_visited == self.pages_visited,
            o.total_hits == self.total_hits,
            match o.next_page_url {
                Some(u) => self.next_page_url matches Some(w) && u@ == w@,
                None => self.next_page_url is None,
            },
    {
        CrawlOutcome {
            pages_visited: self.pages_visited,
            total_hits: self.total_hits,
            next_page_url: match &self.next_page_url {
                Some(u) => Some(clone_bytes(u)),
                None => None,
            },
        }
    }

    /// Digest one visited page: deduplicate its parsed records, count
    /// them, record the page as the next referer, and decide whether
    /// the run continues — a page that contributed nothing ends it.
    pub fn apply_page(&mut self, page_url: Vec<u8>, parsed: Vec<ListingHit>) -> (pr: PageResult)
        requires
            old(self).wf(),
            old(self).can_fetch_spec(),
            forall|i: int| 0 <= i < parsed@.len() ==> (#[trigger] parsed@[i]).wf(),
        ensures
            final(self).wf(),
            pr.wf(),
            pr.page_number as int == old(self).start_page as int + old(self).pages_visited as int,
            pr.source_url@ == page_url@,
            pr.hits@ == accept_page(parsed@, old(self).seen.ids()).0,
            final(self).seen.ids() == accept_page(parsed@, old(self).seen.ids()).1,
            final(self).pages_visited == old(self).pages_visited + 1,
            final(self).total_hits == old(self).total_hits + pr.hits@.len(),
            final(self).finished == (pr.hits@.len() == 0),
            final(self).base == old(self).base,
            final(self).start_page == old(self).start_page,
            final(self).max_pages == old(self).max_pages,
            final(self).origin == old(self).origin,
            pr.hit_count == 0 ==> final(self).next_page_url is None && final(self).prev_page_url
                == old(self).prev_page_url,
            pr.hit_count > 0 ==> (final(self).prev_page_url matches Some(u) && u@ == page_url@),
            pr.hit_count > 0 && pr.page_number < usize::MAX ==> (final(self).next_page_url
                matches Some(u) && u@ == spec_build(
                old(self).base.prefix@,
                old(self).base.pairs.deep_view(),
                old(self).base.fragment@,
                old(self).start_page as int + old(self).pages_visited as int + 1,
            )),
    {
        let ghost parsed0 = parsed@;
        let ghost seen0 = self.seen.ids();
        let mut rest = parsed;
        let mut accepted: Vec<ListingHit> = Vec::new();
        proof {
            assert(accepted@ + accept_page(rest@, self.seen.ids()).0 =~= accept_page(
                parsed0,
                seen0,
            ).0);
        }
        while rest.len() > 0
            invariant
                forall|i: int| 0 <= i < rest@.len() ==> (#[trigger] rest@[i]).wf(),
                forall|i: int| 0 <= i < accepted@.len() ==> (#[trigger] accepted@[i]).wf(),
                accept_page(parsed0, seen0).0 == accepted@ + accept_page(
                    rest@,
                    self.seen.ids(),
                ).0,
                accept_page(parsed0, seen0).1 == accept_page(rest@, self.seen.ids()).1,
                self.base == old(self).base,
                self.start_page == old(self).start_page,
                self.pages_visited == old(self).pages_visited,
                self.total_hits == old(self).total_hits,
                self.max_pages == old(self).max_pages,
                self.origin == old(self).origin,
                self.prev_page_url == old(self).prev_page_url,
                self.next_page_url == old(self).next_page_url,
                self.finished == old(self).finished,
                accepted@.len() + rest@.len() <= parsed0.len(),
            decreases rest@.len(),
        {
            let ghost rest_before = rest@;
            let ghost ids_before = self.seen.ids();
            let h = rest.remove(0);
            proof {
                assert(rest@ =~= rest_before.drop_first());
                assert(h == rest_before[0]);
                lemma_accept_page_wf(rest_before, ids_before);
            }
            let ok = self.seen.accept(h.id.as_slice());
            if ok {
                accepted.push(h);
            }
            proof {
                assert(accept_page(parsed0, seen0).0 =~= accepted@ + accept_page(
                    rest@,
                    self.seen.ids(),
                ).0);
            }
        }
        proof {
            assert(accept_page(rest@, self.seen.ids()).0 =~= Seq::<ListingHit>::empty());
            assert(accepted@ + Seq::<ListingHit>::empty() =~= accepted@);
            assert(accepted@ == accept_page(parsed0, seen0).0);
            lemma_accept_page_wf(parsed0, seen0);
        }
        let count = accepted.len();
        let page_number = self.start_page + self.pages_visited;
        proof {
            let c = usize::MAX as int;
            let t = old(self).total_hits as int;
            let pv = old(self).pages_visited as int;
            let k = count as int;
            assert(t <= pv * c);
            assert(t + k <= (pv + 1) * c) by (nonlinear_arith)
                requires
                    t <= pv * c,
                    k <= c,
            ;
            assert((pv + 1) * c <= c * c) by (nonlinear_arith)
                requires
                    pv + 1 <= c,
                    c >= 0,
            ;
            assert(c * c < u128::MAX as int) by (nonlinear_arith)
                requires
                    0 <= c <= u64::MAX as int,
            ;
        }
        self.total_hits = self.total_hits + (count as u128);
        self.pages_visited = self.pages_visited + 1;
        if count > 0 {
            if page_number < usize::MAX {
                self.next_page_url = Some(build_page_url(&self.base, page_number + 1));
            } else {
                self.next_page_url = None;
            }
            self.prev_page_url = Some(clone_bytes(&page_url));
        } else {
            self.next_page_url = None;
            self.finished = true;
        }
        PageResult { page_number, source_url: page_url, hits: accepted, hit_count: count }
    }
}

// ---------------------------------------------------------------------
// driving the machine over an in-memory feed
// ---------------------------------------------------------------------

/// All records of all pages of a feed are well formed.
pub open spec fn feed_wf(feed: Seq<Vec<ListingHit>>) -> bool {
    forall|i: int, j: int|
        0 <= i < feed.len() && 0 <= j < feed[i]@.len() ==> (#[trigger] feed[i]@[j]).wf()
}

/// Total of the hit counts of the page events in a stream.
pub open spec fn sum_counts(es: Seq<CrawlEvent>) -> int
    decreases es.len(),
{
    if es.len() == 0 {
        0
    } else {
        sum_counts(es.drop_last()) + match es.last() {
            CrawlEvent::Page(pr) => pr.hit_count as int,
            _ => 0,
        }
    }
}

/// Run a whole crawl against an in-memory feed of parsed pages: page
/// `start + k` takes its records from the feed's `k`-th entry, and
/// pages beyond the feed are empty.
///
/// The contract is the event-stream law: the events are exactly one
/// `Start`, then one `Page` per visited page with consecutive,
/// increasing page numbers, then exactly one terminal event (here
/// always `Done`, since a feed cannot fail); the terminal summary
/// counts the visited pages and the sum of the pages' hit counts;
/// every page but the last contributed records; and the run ends only
/// at the page cap, at the first page without records, or where the
/// page counter would no longer fit the machine.
pub fn run_feed(url: &[u8], origin: Vec<u8>, cap: Option<usize>, feed: Vec<Vec<ListingHit>>) -> (events: Vec<
    CrawlEvent,
>)
    requires
        feed_wf(feed@),
    ensures
        ({
            let m = match cap {
                Some(n) => n,
                None => HARD_PAGE_CAP as usize,
            };
            let v = events@.len() - 2;
            &&& events@.len() >= 2
            &&& (events@[0] matches CrawlEvent::Start { origin: o, max_pages } && o@ == origin@
                && max_pages == m)
            &&& (events@.last() matches CrawlEvent::Done { pages_visited, total_hits }
                && pages_visited as int == v && total_hits as int == sum_counts(events@))
            &&& forall|i: int|
                1 <= i <= v ==> ((#[trigger] events@[i]) matches CrawlEvent::Page(pr) && pr.wf()
                    && pr.page_number as int == spec_start_page(url@) + i - 1)
            &&& forall|i: int|
                1 <= i < v ==> ((#[trigger] events@[i]) matches CrawlEvent::Page(pr)
                    && pr.hit_count > 0)
            &&& v <= m
            &&& (v < m ==> (v >= 1 && (events@[v as int] matches CrawlEvent::Page(pr)
                && pr.hit_count == 0)) || m == 0 || spec_start_page(url@) + v > usize::MAX)
        }),
{
    let ghost orig0 = origin@;
    let mut crawl = Crawl::new(url, origin, cap);
    let ghost m = crawl.max_pages;
    let mut events: Vec<CrawlEvent> = Vec::new();
    events.push(crawl.start_event());
    let mut feed = feed;
    proof {
        assert(events@.drop_last() =~= Seq::<CrawlEvent>::empty());
        assert(sum_counts(Seq::<CrawlEvent>::empty()) == 0);
        assert(events@.len() == 1);
        assert(!(events@.last() is Page));
        assert(sum_counts(events@) == 0);
    }
    while crawl.can_fetch()
        invariant
            crawl.wf(),
            crawl.origin@ == orig0,
            crawl.max_pages == m,
            crawl.start_page as int == spec_start_page(url@),
            events@.len() == 1 + crawl.pages_visited as int,
            crawl.pages_visited <= m,
            (events@[0] matches CrawlEvent::Start { origin: o, max_pages } && o@ == orig0
                && max_pages == m),
            forall|i: int|
                1 <= i < events@.len() ==> ((#[trigger] events@[i]) matches CrawlEvent::Page(pr)
                    && pr.wf() && pr.page_number as int == spec_start_page(url@) + i - 1),
            forall|i: int|
                1 <= i < events@.len() ==> ((#[trigger] events@[i]) matches CrawlEvent::Page(pr)
                    && (pr.hit_count > 0 || (crawl.finished && i == events@.len() - 1))),
            crawl.finished ==> events@.len() >= 2 && (events@.last() matches CrawlEvent::Page(pr)
                && pr.hit_count == 0),
            crawl.total_hits as int == sum_counts(events@),
            feed_wf(feed@),
        decreases m - crawl.pages_visited,
    {
        let page_url = crawl.current_page_url();
        let ghost f0 = feed@;
        let parsed = if feed.len() > 0 {
            let p = feed.remove(0);
            proof {
                assert(feed@ =~= f0.drop_first());
                assert(feed_wf(feed@)) by {
                    assert(forall|i: int| 0 <= i < feed@.len() ==> feed@[i] == f0[i + 1]);
                }
                assert(forall|j: int| 0 <= j < p@.len() ==> (#[trigger] p@[j]).wf()) by {
                    assert(p == f0[0]);
                }
            }
            p
        } else {
            Vec::new()
        };
        let ghost before = events@;
        let pr = crawl.apply_page(page_url, parsed);
        events.push(CrawlEvent::Page(pr));
        proof {
            assert(events@.drop_last() =~= before);
            assert(events@.last() == CrawlEvent::Page(pr));
        }
    }
    let ghost before_done = events@;
    events.push(crawl.done_event());
    proof {
        assert(events@.drop_last() =~= before_done);
        assert(sum_counts(events@) == sum_counts(before_done));
        assert(events@.len() - 2 == crawl.pages_visited as int);
        if !crawl.finished {
            assert(crawl.cap_reached());
        }
    }
    events
}

} // verus!
