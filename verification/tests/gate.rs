use claw::gate::{domain_gate, policy_allows, CrawlError};

#[test]
fn gate_accepts_allowed_host() {
    let g = domain_gate(b"https://www.njuskalo.hr/prodaja-stanova/zagreb").unwrap();
    assert_eq!(g.host, b"www.njuskalo.hr".to_vec());
    assert_eq!(g.scheme, b"https".to_vec());
    assert_eq!(g.origin, b"https://www.njuskalo.hr".to_vec());
    assert_eq!(g.robots_url, b"https://www.njuskalo.hr/robots.txt".to_vec());
    assert_eq!(
        g.normalized,
        b"https://www.njuskalo.hr/prodaja-stanova/zagreb".to_vec()
    );
}

#[test]
fn gate_accepts_bare_host() {
    let g = domain_gate(b"https://njuskalo.hr/x").unwrap();
    assert_eq!(g.host, b"njuskalo.hr".to_vec());
}

#[test]
fn gate_normalizes_host_case() {
    // the URL parser lowercases the scheme and host, so a shouted URL
    // still passes, and the normalized text differs from the input
    let g = domain_gate(b"HTTPS://WWW.NJUSKALO.HR/x").unwrap();
    assert_eq!(g.host, b"www.njuskalo.hr".to_vec());
    assert_eq!(g.normalized, b"https://www.njuskalo.hr/x".to_vec());
}

#[test]
fn gate_rejects_foreign_domain() {
    // no network work happens here: only the URL text is inspected
    let e = domain_gate(b"https://example.com/prodaja-stanova").unwrap_err();
    assert!(matches!(e, CrawlError::DomainNotAllowed));
}

#[test]
fn gate_rejects_unparseable_url() {
    let e = domain_gate(b"not a url at all").unwrap_err();
    assert!(matches!(e, CrawlError::InvalidUrl));
}

#[test]
fn gate_rejects_hostless_url() {
    let e = domain_gate(b"data:text/plain,hello").unwrap_err();
    assert!(matches!(e, CrawlError::InvalidUrl));
}

#[test]
fn policy_missing_document_is_permissive() {
    assert!(policy_allows(None, "https://www.njuskalo.hr/x"));
}

#[test]
fn policy_empty_document_is_permissive() {
    assert!(policy_allows(Some(""), "https://www.njuskalo.hr/x"));
}

#[test]
fn policy_blanket_disallow_blocks() {
    let robots = "User-agent: *\nDisallow: /";
    assert!(!policy_allows(Some(robots), "https://www.njuskalo.hr/x"));
}

#[test]
fn policy_unrelated_disallow_permits() {
    let robots = "User-agent: *\nDisallow: /private";
    assert!(policy_allows(Some(robots), "https://www.njuskalo.hr/stanovi"));
}
