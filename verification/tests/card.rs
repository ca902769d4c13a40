use claw::card::{card_from_parts, collect_page_hits, extract_id, CardParts};
use claw::price::{Currency, Qty};

#[test]
fn id_after_listing_marker() {
    let id = extract_id(b"https://www.njuskalo.hr/nekretnine/lijep-stan-oglas-12345678");
    assert_eq!(id, b"12345678".to_vec());
}

#[test]
fn id_after_last_marker() {
    let id = extract_id(b"https://x/a-oglas-111-b-oglas-222");
    assert_eq!(id, b"222".to_vec());
}

#[test]
fn id_trailing_digits_without_marker() {
    let id = extract_id(b"https://www.njuskalo.hr/stan-999");
    assert_eq!(id, b"999".to_vec());
}

#[test]
fn id_empty_when_no_digits() {
    assert_eq!(extract_id(b"https://www.njuskalo.hr/stanovi"), Vec::<u8>::new());
    assert_eq!(extract_id(b"https://x/stan-oglas-bez"), Vec::<u8>::new());
}

fn parts() -> CardParts {
    CardParts {
        title: b"Lijep stan".to_vec(),
        raw_price: "250.000 €".as_bytes().to_vec(),
        href: Some(b"/nekretnine/stan-oglas-4242".to_vec()),
        data_href: None,
        desc_card: Some(b"Povrsina: 62 m2".to_vec()),
        desc_scope: None,
    }
}

#[test]
fn card_builds_full_record() {
    let hit = card_from_parts(parts(), b"https://www.njuskalo.hr/prodaja-stanova/zagreb?page=2")
        .unwrap();
    assert_eq!(
        hit.listing_url,
        b"https://www.njuskalo.hr/nekretnine/stan-oglas-4242".to_vec()
    );
    assert_eq!(hit.id, b"4242".to_vec());
    assert_eq!(hit.title, b"Lijep stan".to_vec());
    assert_eq!(hit.price_numeric, Some(Qty { num: 250000, den: 1 }));
    assert_eq!(hit.currency, Some(Currency::Eur));
    assert_eq!(hit.area_m2, Some(Qty { num: 62, den: 1 }));
    let r = hit.price_per_m2.unwrap();
    assert_eq!(r.num, 250000);
    assert_eq!(r.den, 62);
}

#[test]
fn card_without_price_is_discarded() {
    let mut p = parts();
    p.raw_price = Vec::new();
    assert!(card_from_parts(p, b"https://www.njuskalo.hr/x").is_none());
}

#[test]
fn card_without_any_link_is_discarded() {
    let mut p = parts();
    p.href = None;
    p.data_href = None;
    assert!(card_from_parts(p, b"https://www.njuskalo.hr/x").is_none());
}

#[test]
fn card_falls_back_to_data_href() {
    let mut p = parts();
    p.href = None;
    p.data_href = Some(b"/zamjena-oglas-777".to_vec());
    let hit = card_from_parts(p, b"https://www.njuskalo.hr/x").unwrap();
    assert_eq!(hit.listing_url, b"https://www.njuskalo.hr/zamjena-oglas-777".to_vec());
    assert_eq!(hit.id, b"777".to_vec());
}

#[test]
fn card_area_falls_back_to_scope_text() {
    let mut p = parts();
    p.desc_card = Some(b"bez brojeva".to_vec());
    p.desc_scope = Some(b"ukupno 75 m2".to_vec());
    let hit = card_from_parts(p, b"https://www.njuskalo.hr/x").unwrap();
    assert_eq!(hit.area_m2, Some(Qty { num: 75, den: 1 }));
}

#[test]
fn card_missing_area_leaves_ratio_absent() {
    let mut p = parts();
    p.desc_card = None;
    p.desc_scope = None;
    let hit = card_from_parts(p, b"https://www.njuskalo.hr/x").unwrap();
    assert_eq!(hit.area_m2, None);
    assert!(hit.price_per_m2.is_none());
}

#[test]
fn page_walk_extracts_cards() {
    let html = "<html><body><section class=\"EntityList\"><ul class=\"EntityList-items\">\
<li class=\"EntityList-item\"><article class=\"entity-body\">\
<h3 class=\"entity-title\"><a class=\"link\" href=\"/stan-oglas-1001\"> Stan A </a></h3>\
<div class=\"entity-prices\"><strong class=\"price\">1.500 €</strong></div>\
<div class=\"entity-description-main\">55 m2</div>\
</article></li>\
<li class=\"EntityList-item\"><article class=\"entity-body\">\
<h3 class=\"entity-title\"><a class=\"link\" href=\"/stan-oglas-1002\">Stan B</a></h3>\
</article></li>\
</ul></section></body></html>";
    let hits = collect_page_hits(html.as_bytes(), b"https://www.njuskalo.hr/prodaja-stanova");
    // the second card has no price text and is discarded
    assert_eq!(hits.len(), 1);
    assert_eq!(hits[0].id, b"1001".to_vec());
    assert_eq!(hits[0].title, b"Stan A".to_vec());
    assert_eq!(hits[0].price_numeric, Some(Qty { num: 1500, den: 1 }));
    assert_eq!(hits[0].currency, Some(Currency::Eur));
    assert_eq!(hits[0].area_m2, Some(Qty { num: 55, den: 1 }));
    assert_eq!(
        hits[0].listing_url,
        b"https://www.njuskalo.hr/stan-oglas-1001".to_vec()
    );
}

#[test]
fn page_walk_falls_back_to_bare_items() {
    // no section/ul structure: the fallback pass still finds the card
    let html = "<html><body><div>\
<li class=\"EntityList-item\" data-href=\"/kuca-oglas-2002\">\
<div class=\"entity-prices\"><strong class=\"price\">900 kn</strong></div>\
</li>\
</div></body></html>";
    let hits = collect_page_hits(html.as_bytes(), b"https://www.njuskalo.hr/prodaja-kuca");
    assert_eq!(hits.len(), 1);
    assert_eq!(hits[0].id, b"2002".to_vec());
    assert_eq!(hits[0].currency, Some(Currency::Hrk));
    assert_eq!(hits[0].title, Vec::<u8>::new());
}

#[test]
fn page_walk_empty_page_yields_nothing() {
    let hits = collect_page_hits(b"<html><body><p>nista</p></body></html>", b"https://www.njuskalo.hr/x");
    assert_eq!(hits.len(), 0);
}
