//! Card parser and normalizer: one listing's markup fragment becomes a
//! typed record, or nothing.
//!
//! Extraction is forgiving: every missing sub-field degrades to an
//! absent value.  Only the two required fields gate a card — a card
//! with no resolvable link or no raw price text is discarded.  The
//! identifier is the digit run after the last listing marker in the
//! resolved URL, or the URL's trailing digit run.

use vstd::prelude::*;
use vstd::slice::slice_index_get;

use crate::dom::{
    elem_attr, elem_text, parse_document, parse_selector, select_first_in_elem, select_in_doc,
    select_in_elem,
};
use crate::outside::{joined_url_of, url_join};
use crate::price::{
    extract_area, normalize_price, price_per_m2, spec_area_qty, spec_currency, spec_ppm2,
    spec_price_qty, Currency, Qty, Ratio,
};
use crate::text::{
    byte_is_digit, contains_seq, is_digit, occurs_at, rfind_sub, subrange_vec, trim_bytes,
};

verus! {

// ---------------------------------------------------------------------
// identifier extraction
// ---------------------------------------------------------------------

/// The listing marker in listing URLs: the bytes of `-oglas-`.
pub open spec fn oglas_marker() -> Seq<u8> {
    seq![45u8, 111u8, 103u8, 108u8, 97u8, 115u8, 45u8]
}

/// Index of the last occurrence of `needle` in `hay` (meaningful only
/// when it occurs).
pub open spec fn last_occ(hay: Seq<u8>, needle: Seq<u8>) -> int {
    choose|i: int|
        occurs_at(hay, needle, i) && forall|j: int| i < j ==> !occurs_at(hay, needle, j)
}

/// The run of digits starting at `i`.
pub open spec fn digit_run_from(s: Seq<u8>, i: int) -> Seq<u8>
    decreases s.len() - i,
{
    if i < 0 || i >= s.len() || !is_digit(s[i]) {
        Seq::empty()
    } else {
        seq![s[i]] + digit_run_from(s, i + 1)
    }
}

/// Start of the trailing digit run (the length when there is none).
pub open spec fn digit_suffix_start(s: Seq<u8>) -> int
    decreases s.len(),
{
    if s.len() == 0 || !is_digit(s.last()) {
        s.len() as int
    } else {
        digit_suffix_start(s.drop_last())
    }
}

/// The identifier of a listing URL: the digit run right after the last
/// listing marker, or, without a marker, the URL's trailing digit run.
/// It may legitimately be empty.
pub open spec fn spec_extract_id(url: Seq<u8>) -> Seq<u8> {
    if contains_seq(url, oglas_marker()) {
        digit_run_from(url, last_occ(url, oglas_marker()) + 7)
    } else {
        url.skip(digit_suffix_start(url))
    }
}

proof fn lemma_digit_suffix_at(s: Seq<u8>, j: int)
    requires
        0 <= j <= s.len(),
        forall|k: int| j <= k < s.len() ==> is_digit(#[trigger] s[k]),
        j == 0 || !is_digit(s[j - 1]),
    ensures
        digit_suffix_start(s) == j,
    decreases s.len(),
{
    if s.len() == 0 {
    } else if j == s.len() {
    } else {
        lemma_digit_suffix_at(s.drop_last(), j);
    }
}

fn oglas_vec() -> (r: Vec<u8>)
    ensures
        r@ == oglas_marker(),
{
    let mut v: Vec<u8> = Vec::new();
    v.push(45);
    v.push(111);
    v.push(103);
    v.push(108);
    v.push(97);
    v.push(115);
    v.push(45);
    proof {
        assert(v@ =~= oglas_marker());
    }
    v
}

/// Derive the identifier from a resolved listing URL.
pub fn extract_id(url: &[u8]) -> (r: Vec<u8>)
    ensures
        r@ == spec_extract_id(url@),
{
    let marker = oglas_vec();
    let n = url.len();
    match rfind_sub(url, marker.as_slice()) {
        Some(p) => {
            proof {
                let c = last_occ(url@, oglas_marker());
                assert(occurs_at(url@, oglas_marker(), c) && forall|j: int|
                    c < j ==> !occurs_at(url@, oglas_marker(), j)) by {
                    assert(occurs_at(url@, oglas_marker(), p as int) && forall|j: int|
                        p < j ==> !occurs_at(url@, oglas_marker(), j));
                }
                assert(c == p as int);
            }
            let start = p + 7;
            let mut out: Vec<u8> = Vec::new();
            let mut j = start;
            while j < n && byte_is_digit(*slice_index_get(url, j))
                invariant
                    n == url@.len(),
                    start <= j <= n,
                    digit_run_from(url@, start as int) == out@ + digit_run_from(url@, j as int),
                decreases n - j,
            {
                out.push(*slice_index_get(url, j));
                proof {
                    assert(digit_run_from(url@, j as int) == seq![url@[j as int]]
                        + digit_run_from(url@, j + 1));
                    assert(out@ + digit_run_from(url@, j + 1) =~= (out@.drop_last() + (seq![
                        url@[j as int],
                    ] + digit_run_from(url@, j + 1))));
                }
                j = j + 1;
            }
            proof {
                assert(digit_run_from(url@, j as int) =~= Seq::<u8>::empty());
                assert(out@ + Seq::<u8>::empty() =~= out@);
            }
            out
        },
        None => {
            let mut j = n;
            while j > 0 && byte_is_digit(*slice_index_get(url, j - 1))
                invariant
                    n == url@.len(),
                    j <= n,
                    forall|k: int| j <= k < n ==> is_digit(#[trigger] url@[k]),
                decreases j,
            {
                j = j - 1;
            }
            proof {
                lemma_digit_suffix_at(url@, j as int);
                assert(url@.subrange(j as int, n as int) =~= url@.skip(digit_suffix_start(url@)));
            }
            subrange_vec(url, j, n)
        },
    }
}

// ---------------------------------------------------------------------
// the typed record
// ---------------------------------------------------------------------

/// One listing's typed facts.
#[derive(Debug)]
pub struct ListingHit {
    pub id: Vec<u8>,
    pub listing_url: Vec<u8>,
    pub title: Vec<u8>,
    pub price_numeric: Option<Qty>,
    pub currency: Option<Currency>,
    pub raw_price: Vec<u8>,
    pub area_m2: Option<Qty>,
    pub price_per_m2: Option<Ratio>,
}

/// The derived field of a hit: present exactly when both the numeric
/// price and a strictly positive area are, and then their quotient.
pub open spec fn spec_hit_ppm2(p: Option<Qty>, a: Option<Qty>) -> Option<Ratio> {
    match (p, a) {
        (Some(pq), Some(aq)) => spec_ppm2(pq, aq),
        _ => None,
    }
}

impl ListingHit {
    /// The record invariant: well-formed quantities, and the derived
    /// price-per-area field present if and only if both the numeric
    /// price and a strictly positive area are, equal to their quotient.
    pub open spec fn wf(self) -> bool {
        &&& (self.price_numeric matches Some(q) ==> q.wf())
        &&& (self.area_m2 matches Some(q) ==> q.wf())
        &&& (self.price_per_m2 matches Some(x) ==> x.wf())
        &&& self.price_per_m2 == spec_hit_ppm2(self.price_numeric, self.area_m2)
    }
}

// ---------------------------------------------------------------------
// building a record from extracted parts
// ---------------------------------------------------------------------

/// The plain values extracted from one card's markup.
pub struct CardParts {
    pub title: Vec<u8>,
    pub raw_price: Vec<u8>,
    pub href: Option<Vec<u8>>,
    pub data_href: Option<Vec<u8>>,
    pub desc_card: Option<Vec<u8>>,
    pub desc_scope: Option<Vec<u8>>,
}

/// View of an optional byte vector.
pub open spec fn opt_bytes(o: Option<Vec<u8>>) -> Option<Seq<u8>> {
    match o {
        Some(v) => Some(v@),
        None => None,
    }
}

/// The resolved listing link: the title link's reference, or failing
/// that the card's own data reference, resolved against the page URL.
pub open spec fn spec_link(page: Seq<u8>, href: Option<Seq<u8>>, data: Option<Seq<u8>>) -> Option<
    Seq<u8>,
> {
    match href {
        Some(h) => joined_url_of(page, h),
        None => match data {
            Some(d) => joined_url_of(page, d),
            None => None,
        },
    }
}

/// Area read from an optional description text.
pub open spec fn area_of_opt(d: Option<Seq<u8>>) -> Option<Qty> {
    match d {
        Some(t) => spec_area_qty(t),
        None => None,
    }
}

/// Area of a card: the card-level description is tried first, and the
/// narrowed scope's only when the first yields no value.
pub open spec fn spec_card_area(card: Option<Seq<u8>>, scope: Option<Seq<u8>>) -> Option<Qty> {
    if area_of_opt(card) is Some {
        area_of_opt(card)
    } else {
        area_of_opt(scope)
    }
}

/// Assemble a typed record from extracted card parts.  A card with no
/// resolvable, non-empty link or no raw price text yields nothing;
/// every other missing sub-field degrades to an absent value.
pub fn card_from_parts(parts: CardParts, page_url: &[u8]) -> (r: Option<ListingHit>)
    ensures
        ({
            let link = spec_link(page_url@, opt_bytes(parts.href), opt_bytes(parts.data_href));
            match r {
                Some(h) => {
                    &&& link matches Some(l) && l.len() > 0 && h.listing_url@ == l
                    &&& parts.raw_price@.len() > 0
                    &&& h.id@ == spec_extract_id(h.listing_url@)
                    &&& h.title@ == parts.title@
                    &&& h.raw_price@ == parts.raw_price@
                    &&& h.price_numeric == spec_price_qty(parts.raw_price@)
                    &&& h.currency == spec_currency(parts.raw_price@)
                    &&& h.area_m2 == spec_card_area(
                        opt_bytes(parts.desc_card),
                        opt_bytes(parts.desc_scope),
                    )
                    &&& h.wf()
                },
                None => parts.raw_price@.len() == 0 || !(link matches Some(l) && l.len() > 0),
            }
        }),
{
    let cand: Option<Vec<u8>> = match parts.href {
        Some(h) => Some(h),
        None => parts.data_href,
    };
    let link = match cand {
        Some(c) => url_join(page_url, c.as_slice()),
        None => None,
    };
    let listing_url = match link {
        Some(l) => l,
        None => {
            return None;
        },
    };
    if listing_url.len() == 0 || parts.raw_price.len() == 0 {
        return None;
    }
    let id = extract_id(listing_url.as_slice());
    let (price_numeric, currency) = normalize_price(parts.raw_price.as_slice());
    let area_card = match &parts.desc_card {
        Some(d) => extract_area(d.as_slice()),
        None => None,
    };
    let area_m2 = match area_card {
        Some(q) => Some(q),
        None => match &parts.desc_scope {
            Some(d) => extract_area(d.as_slice()),
            None => None,
        },
    };
    let price_per_m2 = match (&price_numeric, &area_m2) {
        (Some(p), Some(a)) => price_per_m2(p, a),
        _ => None,
    };
    Some(
        ListingHit {
            id,
            listing_url,
            title: parts.title,
            price_numeric,
            currency,
            raw_price: parts.raw_price,
            area_m2,
            price_per_m2,
        },
    )
}

// ---------------------------------------------------------------------
// walking a page
// ---------------------------------------------------------------------

/// The compiled selectors of the listing markup shape.
struct PageSelectors {
    section: scraper::Selector,
    items: scraper::Selector,
    item: scraper::Selector,
    body: scraper::Selector,
    title: scraper::Selector,
    price: scraper::Selector,
    desc: scraper::Selector,
}

fn page_selectors() -> Option<PageSelectors> {
    let section = match parse_selector("section.EntityList") {
        Some(s) => s,
        None => {
            return None;
        },
    };
    let items = match parse_selector("ul.EntityList-items") {
        Some(s) => s,
        None => {
            return None;
        },
    };
    let item = match parse_selector("li.EntityList-item") {
        Some(s) => s,
        None => {
            return None;
        },
    };
    let body = match parse_selector("article.entity-body") {
        Some(s) => s,
        None => {
            return None;
        },
    };
    let title = match parse_selector("h3.entity-title > a.link") {
        Some(s) => s,
        None => {
            return None;
        },
    };
    let price = match parse_selector("div.entity-prices strong.price") {
        Some(s) => s,
        None => {
            return None;
        },
    };
    let desc = match parse_selector(".entity-description-main") {
        Some(s) => s,
        None => {
            return None;
        },
    };
    Some(PageSelectors { section, items, item, body, title, price, desc })
}

fn text_of_first(el: &scraper::ElementRef<'_>, sel: &scraper::Selector) -> Vec<u8> {
    match select_first_in_elem(el, sel) {
        Some(e) => {
            let t = elem_text(&e);
            trim_bytes(t.as_slice())
        },
        None => Vec::new(),
    }
}

fn card_in_scope(
    li: &scraper::ElementRef<'_>,
    scope: &scraper::ElementRef<'_>,
    sels: &PageSelectors,
    page_url: &[u8],
) -> (r: Option<ListingHit>)
    ensures
        r matches Some(h) ==> h.wf(),
{
    let title_el = select_first_in_elem(scope, &sels.title);
    let (title, href) = match &title_el {
        Some(e) => {
            let t = elem_text(e);
            (trim_bytes(t.as_slice()), elem_attr(e, "href"))
        },
        None => (Vec::new(), None),
    };
    let raw_price = text_of_first(scope, &sels.price);
    let data_href = elem_attr(li, "data-href");
    let desc_card = match select_first_in_elem(li, &sels.desc) {
        Some(e) => Some(elem_text(&e)),
        None => None,
    };
    let desc_scope = match select_first_in_elem(scope, &sels.desc) {
        Some(e) => Some(elem_text(&e)),
        None => None,
    };
    card_from_parts(
        CardParts { title, raw_price, href, data_href, desc_card, desc_scope },
        page_url,
    )
}

/// Parse one card: narrowed to its entity body when present, else the
/// whole card.
fn card_of(li: &scraper::ElementRef<'_>, sels: &PageSelectors, page_url: &[u8]) -> (r: Option<
    ListingHit,
>)
    ensures
        r matches Some(h) ==> h.wf(),
{
    match select_first_in_elem(li, &sels.body) {
        Some(scope) => card_in_scope(li, &scope, sels, page_url),
        None => card_in_scope(li, li, sels, page_url),
    }
}

/// Extract every parseable listing record of one page, in document
/// order.  The primary pass walks cards under the listing section
/// structure; when that yields nothing, a fallback pass treats every
/// card-shaped element on the page as a candidate.
pub fn collect_page_hits(html: &[u8], page_url: &[u8]) -> (hits: Vec<ListingHit>)
    ensures
        forall|i: int| 0 <= i < hits@.len() ==> (#[trigger] hits@[i]).wf(),
{
    let mut hits: Vec<ListingHit> = Vec::new();
    let sels = match page_selectors() {
        Some(s) => s,
        None => {
            return hits;
        },
    };
    let doc = parse_document(html);
    let sections = select_in_doc(&doc, &sels.section);
    let ns = sections.len();
    for si in 0..ns
        invariant
            ns == sections@.len(),
            forall|i: int| 0 <= i < hits@.len() ==> (#[trigger] hits@[i]).wf(),
    {
        let uls = select_in_elem(&sections[si], &sels.items);
        let nu = uls.len();
        for ui in 0..nu
            invariant
                nu == uls@.len(),
                forall|i: int| 0 <= i < hits@.len() ==> (#[trigger] hits@[i]).wf(),
        {
            let lis = select_in_elem(&uls[ui], &sels.item);
            let nl = lis.len();
            for li_i in 0..nl
                invariant
                    nl == lis@.len(),
                    forall|i: int| 0 <= i < hits@.len() ==> (#[trigger] hits@[i]).wf(),
            {
                match card_of(&lis[li_i], &sels, page_url) {
                    Some(h) => {
                        hits.push(h);
                    },
                    None => {},
                }
            }
        }
    }
    if hits.len() == 0 {
        let lis = select_in_doc(&doc, &sels.item);
        let nl = lis.len();
        for li_i in 0..nl
            invariant
                nl == lis@.len(),
                forall|i: int| 0 <= i < hits@.len() ==> (#[trigger] hits@[i]).wf(),
        {
            match card_of(&lis[li_i], &sels, page_url) {
                Some(h) => {
                    hits.push(h);
                },
                None => {},
            }
        }
    }
    hits
}

} // verus!
