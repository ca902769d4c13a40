use claw::pager::{build_page_url, normalize_pager};

#[test]
fn pager_default_start_page() {
    let (_, start) = normalize_pager(b"https://www.njuskalo.hr/prodaja-stanova/zagreb");
    assert_eq!(start, 1);
}

#[test]
fn pager_start_from_page_param() {
    let (_, start) = normalize_pager(b"https://www.njuskalo.hr/prodaja-stanova/zagreb?page=7");
    assert_eq!(start, 7);
}

#[test]
fn pager_page_zero_clamped() {
    let (_, start) = normalize_pager(b"https://www.njuskalo.hr/x?page=0");
    assert_eq!(start, 1);
}

#[test]
fn pager_last_page_param_wins() {
    let (_, start) = normalize_pager(b"https://www.njuskalo.hr/x?page=2&page=9");
    assert_eq!(start, 9);
}

#[test]
fn pager_unparseable_page_ignored_but_removed() {
    let (base, start) = normalize_pager(b"https://www.njuskalo.hr/x?page=abc");
    assert_eq!(start, 1);
    let built = build_page_url(&base, 4);
    assert_eq!(built, b"https://www.njuskalo.hr/x?page=4".to_vec());
}

#[test]
fn pager_build_appends_page() {
    let (base, start) = normalize_pager(b"https://www.njuskalo.hr/prodaja-stanova/zagreb");
    let built = build_page_url(&base, start);
    assert_eq!(built, b"https://www.njuskalo.hr/prodaja-stanova/zagreb?page=1".to_vec());
}

#[test]
fn pager_preserves_other_params() {
    let (base, start) = normalize_pager(b"https://www.njuskalo.hr/x?foo=1&page=7&bar=2");
    assert_eq!(start, 7);
    let built = build_page_url(&base, 3);
    assert_eq!(built, b"https://www.njuskalo.hr/x?foo=1&bar=2&page=3".to_vec());
    let rebuilt = build_page_url(&base, 8);
    assert_eq!(rebuilt, b"https://www.njuskalo.hr/x?foo=1&bar=2&page=8".to_vec());
}

#[test]
fn pager_fragment_kept() {
    let (base, start) = normalize_pager(b"https://www.njuskalo.hr/x?page=2#list");
    assert_eq!(start, 2);
    let built = build_page_url(&base, 3);
    assert_eq!(built, b"https://www.njuskalo.hr/x?page=3#list".to_vec());
}

#[test]
fn pager_roundtrip_keeps_effective_page() {
    let urls: Vec<&[u8]> = vec![
        b"https://www.njuskalo.hr/prodaja-stanova/zagreb",
        b"https://www.njuskalo.hr/x?page=5",
        b"https://www.njuskalo.hr/x?a=1&page=12&b=2",
        b"https://www.njuskalo.hr/x?a=1&b=2#frag",
    ];
    for url in urls {
        let (base, start) = normalize_pager(url);
        let built = build_page_url(&base, start);
        let (base2, start2) = normalize_pager(built.as_slice());
        assert_eq!(start2, start);
        assert_eq!(build_page_url(&base2, 42), build_page_url(&base, 42));
    }
}
