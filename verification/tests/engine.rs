use claw::card::ListingHit;
use claw::dedup::DedupRegister;
use claw::driver::{run_feed, Crawl, CrawlEvent};
use claw::fetch::{
    fetch_step, page_is_valid, random_desktop_ua, random_mobile_ua, request_headers, FetchAttempt,
    FetchStep, Profile,
};

fn hit(id: &str) -> ListingHit {
    ListingHit {
        id: id.as_bytes().to_vec(),
        listing_url: format!("https://www.njuskalo.hr/stan-oglas-{id}").into_bytes(),
        title: b"stan".to_vec(),
        price_numeric: None,
        currency: None,
        raw_price: b"na upit".to_vec(),
        area_m2: None,
        price_per_m2: None,
    }
}

const START_URL: &[u8] = b"https://www.njuskalo.hr/prodaja-stanova/zagreb";

fn origin() -> Vec<u8> {
    b"https://www.njuskalo.hr".to_vec()
}

#[test]
fn register_dedups_nonempty_ids() {
    let mut r = DedupRegister::new();
    assert!(r.accept(b"123"));
    assert!(!r.accept(b"123"));
    assert!(r.accept(b"124"));
    assert!(!r.accept(b"123"));
}

#[test]
fn register_always_accepts_empty_ids() {
    let mut r = DedupRegister::new();
    assert!(r.accept(b""));
    assert!(r.accept(b""));
    assert!(r.accept(b"5"));
    assert!(r.accept(b""));
}

#[test]
fn run_stops_after_first_empty_page() {
    // pages 1..=3 have content, page 4 (beyond the feed) is empty
    let feed = vec![
        vec![hit("1"), hit("2")],
        vec![hit("3"), hit("4"), hit("5")],
        vec![hit("6")],
    ];
    let events = run_feed(START_URL, origin(), None, feed);
    assert_eq!(events.len(), 6);
    match &events[5] {
        CrawlEvent::Done { pages_visited, total_hits } => {
            assert_eq!(*pages_visited, 4);
            assert_eq!(*total_hits, 6);
        },
        _ => panic!("last event must be terminal"),
    }
    match &events[4] {
        CrawlEvent::Page(pr) => assert_eq!(pr.hit_count, 0),
        _ => panic!("expected a page event"),
    }
}

#[test]
fn run_stops_at_page_cap() {
    let feed = vec![
        vec![hit("1")],
        vec![hit("2")],
        vec![hit("3")],
        vec![hit("4")],
        vec![hit("5")],
    ];
    let events = run_feed(START_URL, origin(), Some(2), feed);
    assert_eq!(events.len(), 4);
    match &events[3] {
        CrawlEvent::Done { pages_visited, total_hits } => {
            assert_eq!(*pages_visited, 2);
            assert_eq!(*total_hits, 2);
        },
        _ => panic!("last event must be terminal"),
    }
    // terminated by the cap, not by emptiness
    match &events[2] {
        CrawlEvent::Page(pr) => assert!(pr.hit_count > 0),
        _ => panic!("expected a page event"),
    }
}

#[test]
fn event_stream_order() {
    let feed = vec![vec![hit("1")], vec![hit("2")]];
    let events = run_feed(START_URL, origin(), None, feed);
    assert!(matches!(&events[0], CrawlEvent::Start { .. }));
    let last = events.len() - 1;
    assert!(matches!(&events[last], CrawlEvent::Done { .. }));
    let mut expected_page: usize = 1;
    for e in &events[1..last] {
        match e {
            CrawlEvent::Page(pr) => {
                assert_eq!(pr.page_number, expected_page);
                expected_page += 1;
            },
            _ => panic!("only page events between start and the terminal"),
        }
    }
}

#[test]
fn start_event_carries_origin_and_cap() {
    let events = run_feed(START_URL, origin(), Some(7), vec![]);
    match &events[0] {
        CrawlEvent::Start { origin: o, max_pages } => {
            assert_eq!(*o, b"https://www.njuskalo.hr".to_vec());
            assert_eq!(*max_pages, 7);
        },
        _ => panic!("first event must be the start event"),
    }
}

#[test]
fn run_respects_start_page_param() {
    let feed = vec![vec![hit("1")]];
    let events = run_feed(
        b"https://www.njuskalo.hr/prodaja-stanova/zagreb?page=5",
        origin(),
        None,
        feed,
    );
    match &events[1] {
        CrawlEvent::Page(pr) => {
            assert_eq!(pr.page_number, 5);
            assert_eq!(
                pr.source_url,
                b"https://www.njuskalo.hr/prodaja-stanova/zagreb?page=5".to_vec()
            );
        },
        _ => panic!("expected a page event"),
    }
}

#[test]
fn run_dedups_across_pages() {
    let feed = vec![vec![hit("7")], vec![hit("7"), hit("8")]];
    let events = run_feed(START_URL, origin(), None, feed);
    match &events[2] {
        CrawlEvent::Page(pr) => {
            assert_eq!(pr.hit_count, 1);
            assert_eq!(pr.hits[0].id, b"8".to_vec());
        },
        _ => panic!("expected a page event"),
    }
    match events.last().unwrap() {
        CrawlEvent::Done { pages_visited, total_hits } => {
            assert_eq!(*pages_visited, 3);
            assert_eq!(*total_hits, 2);
        },
        _ => panic!("last event must be terminal"),
    }
}

#[test]
fn page_of_only_duplicates_ends_run() {
    let feed = vec![vec![hit("7")], vec![hit("7")], vec![hit("9")]];
    let events = run_feed(START_URL, origin(), None, feed);
    match events.last().unwrap() {
        CrawlEvent::Done { pages_visited, total_hits } => {
            assert_eq!(*pages_visited, 2);
            assert_eq!(*total_hits, 1);
        },
        _ => panic!("last event must be terminal"),
    }
}

#[test]
fn empty_ids_never_deduped_in_run() {
    let feed = vec![vec![hit(""), hit("")], vec![hit("")]];
    let events = run_feed(START_URL, origin(), Some(2), feed);
    match events.last().unwrap() {
        CrawlEvent::Done { pages_visited, total_hits } => {
            assert_eq!(*pages_visited, 2);
            assert_eq!(*total_hits, 3);
        },
        _ => panic!("last event must be terminal"),
    }
}

#[test]
fn first_empty_page_still_counts_as_visited() {
    let events = run_feed(START_URL, origin(), None, vec![]);
    assert_eq!(events.len(), 3);
    match &events[2] {
        CrawlEvent::Done { pages_visited, total_hits } => {
            assert_eq!(*pages_visited, 1);
            assert_eq!(*total_hits, 0);
        },
        _ => panic!("last event must be terminal"),
    }
}

#[test]
fn zero_cap_visits_nothing() {
    let events = run_feed(START_URL, origin(), Some(0), vec![vec![hit("1")]]);
    assert_eq!(events.len(), 2);
    match &events[1] {
        CrawlEvent::Done { pages_visited, total_hits } => {
            assert_eq!(*pages_visited, 0);
            assert_eq!(*total_hits, 0);
        },
        _ => panic!("last event must be terminal"),
    }
}

#[test]
fn outcome_next_url_present_only_at_cap_stop() {
    let mut crawl = Crawl::new(START_URL, origin(), Some(1));
    let url = crawl.current_page_url();
    crawl.apply_page(url, vec![hit("1")]);
    let o = crawl.outcome();
    assert_eq!(
        o.next_page_url,
        Some(b"https://www.njuskalo.hr/prodaja-stanova/zagreb?page=2".to_vec())
    );

    let mut crawl2 = Crawl::new(START_URL, origin(), Some(5));
    let url2 = crawl2.current_page_url();
    crawl2.apply_page(url2, vec![]);
    assert_eq!(crawl2.outcome().next_page_url, None);
}

#[test]
fn referer_is_origin_then_previous_page() {
    let mut crawl = Crawl::new(START_URL, origin(), None);
    assert_eq!(crawl.referer(), b"https://www.njuskalo.hr".to_vec());
    let url = crawl.current_page_url();
    crawl.apply_page(url.clone(), vec![hit("1")]);
    assert_eq!(crawl.referer(), url);
}

#[test]
fn fetch_attempts_alternate_profiles_then_give_up() {
    let mut a = FetchAttempt::first();
    assert_eq!(a.attempt, 1);
    assert_eq!(a.profile, Profile::Desktop);
    let mut profiles = vec![a.profile];
    loop {
        match fetch_step(&a, false) {
            FetchStep::Retry(next) => {
                a = next;
                profiles.push(a.profile);
            },
            FetchStep::GiveUp => break,
            FetchStep::Accept => panic!("an invalid body is never accepted"),
        }
    }
    assert_eq!(a.attempt, 5);
    assert_eq!(
        profiles,
        vec![
            Profile::Desktop,
            Profile::Mobile,
            Profile::Desktop,
            Profile::Mobile,
            Profile::Desktop,
        ]
    );
}

#[test]
fn fetch_accepts_valid_body() {
    let a = FetchAttempt::first();
    assert!(matches!(fetch_step(&a, true), FetchStep::Accept));
}

#[test]
fn validity_needs_size_and_marker() {
    let mut with_marker = b"EntityList-item".to_vec();
    with_marker.extend(std::iter::repeat(b'x').take(4000));
    assert!(page_is_valid(&with_marker));

    let long_without_marker = vec![b'x'; 5000];
    assert!(!page_is_valid(&long_without_marker));

    let short_with_marker = b"EntityList-item".to_vec();
    assert!(!page_is_valid(&short_with_marker));

    let mut exactly_4000 = b"EntityList-item".to_vec();
    exactly_4000.extend(std::iter::repeat(b'x').take(4000 - exactly_4000.len()));
    assert_eq!(exactly_4000.len(), 4000);
    assert!(!page_is_valid(&exactly_4000));
}

#[test]
fn headers_follow_fixed_shape() {
    let h = request_headers("UA-X", "https://www.njuskalo.hr/prev");
    assert_eq!(h.len(), 12);
    assert_eq!(h[0], ("User-Agent".to_string(), "UA-X".to_string()));
    assert_eq!(h[3], ("Referer".to_string(), "https://www.njuskalo.hr/prev".to_string()));
    assert_eq!(h[8], ("DNT".to_string(), "1".to_string()));
    assert_eq!(h[11], ("Sec-Fetch-Dest".to_string(), "document".to_string()));
}

#[test]
fn random_uas_come_from_fixed_lists() {
    for _ in 0..20 {
        let d = random_desktop_ua();
        assert!(d.contains("Mozilla/5.0"));
        assert!(!d.contains("Mobile"));
        let m = random_mobile_ua();
        assert!(m.contains("Mobile"));
    }
}
