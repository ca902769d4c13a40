use claw::price::{extract_area, normalize_price, price_per_m2, Currency, Qty};

#[test]
fn price_locale_eur() {
    let (q, c) = normalize_price("1.234,50 €".as_bytes());
    assert_eq!(q, Some(Qty { num: 123450, den: 100 }));
    assert_eq!(c, Some(Currency::Eur));
}

#[test]
fn price_kuna() {
    let (q, c) = normalize_price(b"650 kn");
    assert_eq!(q, Some(Qty { num: 650, den: 1 }));
    assert_eq!(c, Some(Currency::Hrk));
}

#[test]
fn price_kuna_case_insensitive() {
    let (q, c) = normalize_price(b"650 KN");
    assert_eq!(q, Some(Qty { num: 650, den: 1 }));
    assert_eq!(c, Some(Currency::Hrk));
}

#[test]
fn price_no_digits_currency_only() {
    let (q, c) = normalize_price("na upit €".as_bytes());
    assert_eq!(q, None);
    assert_eq!(c, Some(Currency::Eur));
}

#[test]
fn price_no_digits_no_currency() {
    let (q, c) = normalize_price(b"na upit");
    assert_eq!(q, None);
    assert_eq!(c, None);
}

#[test]
fn price_idempotent_on_normalized_forms() {
    // the separator-free decimal-comma form reads the same as the
    // thousands-separated original
    let (a, _) = normalize_price("1.234,50 €".as_bytes());
    let (b, _) = normalize_price(b"1234,50");
    assert_eq!(a, b);
    // an integer rendering reads back as itself
    let (c, _) = normalize_price(b"650 kn");
    let (d, _) = normalize_price(b"650");
    assert_eq!(c, d);
}

#[test]
fn price_first_parseable_token_wins() {
    let (q, _) = normalize_price(b"od 1,2,3 pa 45 kn");
    assert_eq!(q, Some(Qty { num: 45, den: 1 }));
}

#[test]
fn area_first_numeric_token() {
    assert_eq!(extract_area(b"Stan, 62 m2"), Some(Qty { num: 62, den: 1 }));
}

#[test]
fn area_period_is_thousands_separator() {
    assert_eq!(extract_area(b"1.250 m2"), Some(Qty { num: 1250, den: 1 }));
}

#[test]
fn area_absent() {
    assert_eq!(extract_area(b"bez broja"), None);
}

#[test]
fn ppm2_exact_quotient() {
    // price 250000, area 62.5 -> 4000
    let price = Qty { num: 250000, den: 1 };
    let area = Qty { num: 625, den: 10 };
    let r = price_per_m2(&price, &area).unwrap();
    assert_eq!(r.num, 2500000);
    assert_eq!(r.den, 625);
    assert_eq!(r.num, 4000 * r.den);
}

#[test]
fn ppm2_absent_for_zero_area() {
    let price = Qty { num: 250000, den: 1 };
    let area = Qty { num: 0, den: 10 };
    assert!(price_per_m2(&price, &area).is_none());
}
