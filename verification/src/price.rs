//! Price and area normalization.
//!
//! Raw price text mixes digits with currency marks, thousands-separator
//! periods and a decimal comma.  A numeric token is cleaned by dropping
//! the periods and turning the comma into a decimal point, then read as
//! an exact decimal: a numerator and a power-of-ten denominator.  No
//! floating point is involved anywhere.

use vstd::prelude::*;
use vstd::slice::slice_index_get;

use crate::text::{
    byte_is_digit, byte_is_ws, contains_sub, digits_only, digits_val, is_digit, is_ws, lower_bytes,
    lower_seq, parse_digits, pow10,
};

verus! {

/// An exact non-negative decimal quantity: `num / den`, where `den` is
/// a power of ten derived from the number of fraction digits.
#[derive(Clone, Copy, Debug, PartialEq, Eq, Structural)]
pub struct Qty {
    pub num: u64,
    pub den: u64,
}

impl Qty {
    /// Denominators are powers of ten, hence strictly positive.
    pub open spec fn wf(self) -> bool {
        self.den >= 1
    }
}

/// An exact non-negative ratio of two decimal quantities.
#[derive(Clone, Copy, Debug, PartialEq, Eq, Structural)]
pub struct Ratio {
    pub num: u128,
    pub den: u128,
}

impl Ratio {
    pub open spec fn wf(self) -> bool {
        self.den >= 1
    }
}

/// Currency inferred from the raw price text.
#[derive(Clone, Copy, Debug, PartialEq, Eq, Structural)]
pub enum Currency {
    Eur,
    Hrk,
}

// ---------------------------------------------------------------------
// token cleaning
// ---------------------------------------------------------------------

/// Cleaned form of a token: thousands-separator periods dropped, the
/// decimal comma turned into a period.
pub open spec fn clean_token(t: Seq<u8>) -> Seq<u8>
    decreases t.len(),
{
    if t.len() == 0 {
        Seq::empty()
    } else {
        let rest = clean_token(t.drop_last());
        if t.last() == 46 {
            rest
        } else if t.last() == 44 {
            rest.push(46)
        } else {
            rest.push(t.last())
        }
    }
}

/// The token without its periods (what remains must be digits).
pub open spec fn strip_dots(c: Seq<u8>) -> Seq<u8>
    decreases c.len(),
{
    if c.len() == 0 {
        Seq::empty()
    } else {
        let rest = strip_dots(c.drop_last());
        if c.last() == 46 {
            rest
        } else {
            rest.push(c.last())
        }
    }
}

/// Number of periods in a cleaned token.
pub open spec fn dot_count(c: Seq<u8>) -> int
    decreases c.len(),
{
    if c.len() == 0 {
        0
    } else {
        dot_count(c.drop_last()) + if c.last() == 46 {
            1int
        } else {
            0int
        }
    }
}

/// Number of bytes after the last period (the whole length if there is
/// no period).
pub open spec fn frac_len(c: Seq<u8>) -> int
    decreases c.len(),
{
    if c.len() == 0 {
        0
    } else if c.last() == 46 {
        0
    } else {
        1 + frac_len(c.drop_last())
    }
}

/// Exponent of the denominator: fraction digits, or none at all when
/// the token carries no decimal point.
pub open spec fn den_exp(c: Seq<u8>) -> int {
    if dot_count(c) == 0 {
        0
    } else {
        frac_len(c)
    }
}

/// A cleaned token is a well-formed decimal numeral: non-empty, at most
/// one decimal point, at least one digit, and nothing but digits beside
/// the point.
pub open spec fn token_ok(c: Seq<u8>) -> bool {
    &&& c.len() > 0
    &&& dot_count(c) <= 1
    &&& strip_dots(c).len() > 0
    &&& digits_only(strip_dots(c))
}

/// Exact decimal value of a raw token, if it is a decimal numeral whose
/// numerator and denominator fit the machine words.
pub open spec fn token_qty(t: Seq<u8>) -> Option<Qty> {
    let c = clean_token(t);
    if token_ok(c) && digits_val(strip_dots(c)) <= u64::MAX && den_exp(c) <= 19 {
        Some(
            Qty {
                num: digits_val(strip_dots(c)) as u64,
                den: pow10(den_exp(c)) as u64,
            },
        )
    } else {
        None
    }
}

// ---------------------------------------------------------------------
// powers of ten
// ---------------------------------------------------------------------

pub proof fn lemma_pow10_pos(k: int)
    ensures
        pow10(k) >= 1,
    decreases k,
{
    if k > 0 {
        lemma_pow10_pos(k - 1);
    }
}

pub proof fn lemma_pow10_mono(i: int, j: int)
    requires
        i <= j,
    ensures
        pow10(i) <= pow10(j),
    decreases j - i,
{
    if i < j {
        lemma_pow10_mono(i, j - 1);
        lemma_pow10_pos(j - 1);
    }
}

pub proof fn lemma_pow10_19()
    ensures
        pow10(19) == 10_000_000_000_000_000_000,
{
    reveal_with_fuel(pow10, 21);
}

/// Ten to the power `k`, for exponents that fit a `u64`.
pub fn pow10_u64(k: usize) -> (r: u64)
    requires
        k <= 19,
    ensures
        r == pow10(k as int),
{
    let mut r: u64 = 1;
    for i in 0..k
        invariant
            k <= 19,
            r == pow10(i as int),
    {
        proof {
            lemma_pow10_mono(i + 1, 19);
            lemma_pow10_19();
            lemma_pow10_pos(i as int);
        }
        r = r * 10;
    }
    r
}

// ---------------------------------------------------------------------
// token parsing
// ---------------------------------------------------------------------

/// Parse one raw token as an exact decimal quantity.
pub fn parse_token_qty(t: &[u8]) -> (r: Option<Qty>)
    ensures
        r == token_qty(t@),
{
    let n = t.len();
    let mut c: Vec<u8> = Vec::new();
    for i in 0..n
        invariant
            n == t@.len(),
            c@ == clean_token(t@.take(i as int)),
    {
        let b = *slice_index_get(t, i);
        proof {
            assert(t@.take(i + 1).drop_last() =~= t@.take(i as int));
        }
        if b == 46 {
        } else if b == 44 {
            c.push(46);
        } else {
            c.push(b);
        }
    }
    proof {
        assert(t@.take(n as int) =~= t@);
    }
    let m = c.len();
    let mut dots: usize = 0;
    let mut after: usize = 0;
    let mut d: Vec<u8> = Vec::new();
    for i in 0..m
        invariant
            m == c@.len(),
            dots == dot_count(c@.take(i as int)),
            after == frac_len(c@.take(i as int)),
            d@ == strip_dots(c@.take(i as int)),
            dots <= i,
            after <= i,
            d@.len() <= i,
    {
        let b = c[i];
        proof {
            assert(c@.take(i + 1).drop_last() =~= c@.take(i as int));
        }
        if b == 46 {
            dots = dots + 1;
            after = 0;
        } else {
            after = after + 1;
            d.push(b);
        }
    }
    proof {
        assert(c@.take(m as int) =~= c@);
    }
    if m == 0 || dots > 1 || d.len() == 0 {
        return None;
    }
    let num = match parse_digits(d.as_slice()) {
        Some(v) => v,
        None => {
            return None;
        },
    };
    let de: usize = if dots == 0 {
        0
    } else {
        after
    };
    if de > 19 {
        return None;
    }
    let den = pow10_u64(de);
    Some(Qty { num, den })
}

// ---------------------------------------------------------------------
// token scanning
// ---------------------------------------------------------------------

/// Bytes a price token may keep: digits, comma, period.  Anything else
/// separates tokens.
pub open spec fn is_price_keep(b: u8) -> bool {
    is_digit(b) || b == 44 || b == 46
}

/// Separators of area tokens: whitespace, comma, semicolon.
pub open spec fn is_area_sep(b: u8) -> bool {
    is_ws(b) || b == 44 || b == 59
}

/// The token separator of each of the two scanning modes.
pub open spec fn scan_sep(area: bool, b: u8) -> bool {
    if area {
        is_area_sep(b)
    } else {
        !is_price_keep(b)
    }
}

fn is_scan_sep(area: bool, b: u8) -> (r: bool)
    ensures
        r == scan_sep(area, b),
{
    if area {
        byte_is_ws(b) || b == 44 || b == 59
    } else {
        !(byte_is_digit(b) || b == 44 || b == 46)
    }
}

/// Left-to-right scan: `cur` is the token being accumulated; at each
/// separator the token is tried, and the first token that parses wins.
pub open spec fn scan_qty(s: Seq<u8>, cur: Seq<u8>, area: bool) -> Option<Qty>
    decreases s.len(),
{
    if s.len() == 0 {
        token_qty(cur)
    } else if scan_sep(area, s[0]) {
        if token_qty(cur) is Some {
            token_qty(cur)
        } else {
            scan_qty(s.drop_first(), Seq::empty(), area)
        }
    } else {
        scan_qty(s.drop_first(), cur.push(s[0]), area)
    }
}

/// Value of the first parseable token of `s` under the given mode.
pub open spec fn first_token_qty(s: Seq<u8>, area: bool) -> Option<Qty> {
    scan_qty(s, Seq::empty(), area)
}

/// Numeric value found in raw price text, if any.
pub open spec fn spec_price_qty(s: Seq<u8>) -> Option<Qty> {
    first_token_qty(s, false)
}

/// Area value found in description text, if any.
pub open spec fn spec_area_qty(s: Seq<u8>) -> Option<Qty> {
    first_token_qty(s, true)
}

fn first_qty(s: &[u8], area: bool) -> (r: Option<Qty>)
    ensures
        r == first_token_qty(s@, area),
{
    let n = s.len();
    let mut cur: Vec<u8> = Vec::new();
    proof {
        assert(s@.skip(0) =~= s@);
    }
    for i in 0..n
        invariant
            n == s@.len(),
            scan_qty(s@.skip(i as int), cur@, area) == first_token_qty(s@, area),
    {
        let b = *slice_index_get(s, i);
        proof {
            assert(s@.skip(i as int).drop_first() =~= s@.skip(i + 1));
            assert(s@.skip(i as int)[0] == s@[i as int]);
        }
        if is_scan_sep(area, b) {
            let t = parse_token_qty(cur.as_slice());
            if t.is_some() {
                return t;
            }
            cur.clear();
        } else {
            cur.push(b);
        }
    }
    proof {
        assert(s@.skip(n as int) =~= Seq::<u8>::empty());
    }
    parse_token_qty(cur.as_slice())
}

// ---------------------------------------------------------------------
// currency and the public normalizers
// ---------------------------------------------------------------------

/// UTF-8 bytes of the euro sign.
pub open spec fn euro_seq() -> Seq<u8> {
    seq![226u8, 130u8, 172u8]
}

/// The bytes of the lowercase kuna mark.
pub open spec fn kn_seq() -> Seq<u8> {
    seq![107u8, 110u8]
}

/// Currency inferred from raw price text: a euro sign means euros; a
/// case-insensitive kuna mark means kuna; otherwise unknown.
pub open spec fn spec_currency(s: Seq<u8>) -> Option<Currency> {
    if crate::text::contains_seq(s, euro_seq()) {
        Some(Currency::Eur)
    } else if crate::text::contains_seq(lower_seq(s), kn_seq()) {
        Some(Currency::Hrk)
    } else {
        None
    }
}

/// Detect the currency mark in raw price text.
pub fn detect_currency(s: &[u8]) -> (r: Option<Currency>)
    ensures
        r == spec_currency(s@),
{
    let mut euro: Vec<u8> = Vec::new();
    euro.push(226);
    euro.push(130);
    euro.push(172);
    proof {
        assert(euro@ =~= euro_seq());
    }
    if contains_sub(s, euro.as_slice()) {
        return Some(Currency::Eur);
    }
    let mut kn: Vec<u8> = Vec::new();
    kn.push(107);
    kn.push(110);
    proof {
        assert(kn@ =~= kn_seq());
    }
    let low = lower_bytes(s);
    if contains_sub(low.as_slice(), kn.as_slice()) {
        return Some(Currency::Hrk);
    }
    None
}

/// Normalize raw price text to an exact numeric value and a currency.
pub fn normalize_price(raw: &[u8]) -> (r: (Option<Qty>, Option<Currency>))
    ensures
        r.0 == spec_price_qty(raw@),
        r.1 == spec_currency(raw@),
        r.0 matches Some(q) ==> q.wf(),
{
    proof {
        lemma_scan_qty_wf(raw@, Seq::empty(), false);
    }
    let q = first_qty(raw, false);
    (q, detect_currency(raw))
}

/// Any quantity a token parse yields has a positive denominator.
proof fn lemma_token_qty_wf()
    ensures
        forall|t: Seq<u8>| (#[trigger] token_qty(t)) is Some ==> token_qty(t)->Some_0.wf(),
{
    assert forall|t: Seq<u8>| (#[trigger] token_qty(t)) is Some implies token_qty(t)->Some_0.wf() by {
        lemma_pow10_pos(den_exp(clean_token(t)));
        lemma_pow10_mono(den_exp(clean_token(t)), 19);
        lemma_pow10_19();
    }
}

/// Any value the scan yields comes from a token parse, hence is
/// well formed.
proof fn lemma_scan_qty_wf(s: Seq<u8>, cur: Seq<u8>, area: bool)
    ensures
        scan_qty(s, cur, area) matches Some(q) ==> q.wf(),
    decreases s.len(),
{
    lemma_token_qty_wf();
    if s.len() > 0 {
        if scan_sep(area, s[0]) {
            lemma_scan_qty_wf(s.drop_first(), Seq::empty(), area);
        } else {
            lemma_scan_qty_wf(s.drop_first(), cur.push(s[0]), area);
        }
    }
}

/// Extract an area value from description text: the first token,
/// delimited by whitespace, commas or semicolons, that reads as a
/// decimal numeral.
pub fn extract_area(desc: &[u8]) -> (r: Option<Qty>)
    ensures
        r == spec_area_qty(desc@),
        r matches Some(q) ==> q.wf(),
{
    proof {
        lemma_scan_qty_wf(desc@, Seq::empty(), true);
    }
    first_qty(desc, true)
}

// ---------------------------------------------------------------------
// normalization is idempotent on normalized numerals
// ---------------------------------------------------------------------

proof fn lemma_clean_token_plain(t: Seq<u8>)
    requires
        forall|i: int| 0 <= i < t.len() ==> t[i] != 44 && t[i] != 46,
    ensures
        clean_token(t) == t,
        strip_dots(t) == t,
        dot_count(t) == 0,
    decreases t.len(),
{
    if t.len() > 0 {
        assert(forall|i: int| 0 <= i < t.drop_last().len() ==> t.drop_last()[i] == t[i]);
        lemma_clean_token_plain(t.drop_last());
        assert(clean_token(t) =~= t);
        assert(strip_dots(t) =~= t);
    }
}

/// Scanning text made only of token bytes accumulates it onto the
/// current token.
proof fn lemma_scan_all_keep(s: Seq<u8>, cur: Seq<u8>, area: bool)
    requires
        forall|i: int| 0 <= i < s.len() ==> !scan_sep(area, #[trigger] s[i]),
    ensures
        scan_qty(s, cur, area) == token_qty(cur + s),
    decreases s.len(),
{
    if s.len() == 0 {
        assert(cur + s =~= cur);
    } else {
        assert(forall|i: int| 0 <= i < s.drop_first().len() ==> s.drop_first()[i] == s[i + 1]);
        lemma_scan_all_keep(s.drop_first(), cur.push(s[0]), area);
        assert(cur.push(s[0]) + s.drop_first() =~= cur + s);
    }
}

/// Law: price normalization is idempotent on already-normalized integer
/// numerals — the decimal rendering of any value reads back as exactly
/// that value, with denominator one.
pub proof fn lemma_price_integer_roundtrip(n: u64)
    ensures
        spec_price_qty(crate::text::spec_digits(n as int)) == Some(Qty { num: n, den: 1 }),
{
    let s = crate::text::spec_digits(n as int);
    crate::text::lemma_spec_digits(n as int);
    assert(forall|i: int| 0 <= i < s.len() ==> is_digit(#[trigger] s[i]));
    assert(forall|i: int| 0 <= i < s.len() ==> !scan_sep(false, #[trigger] s[i]));
    lemma_scan_all_keep(s, Seq::empty(), false);
    assert(Seq::<u8>::empty() + s =~= s);
    lemma_clean_token_plain(s);
    assert(token_ok(s));
    assert(den_exp(s) == 0);
    assert(token_qty(s) == Some(Qty { num: n, den: 1 }));
}

/// Price per square meter: the exact quotient of price by area,
/// defined only for strictly positive area.
pub open spec fn spec_ppm2(p: Qty, a: Qty) -> Option<Ratio> {
    if a.num > 0 {
        Some(Ratio { num: (p.num * a.den) as u128, den: (p.den * a.num) as u128 })
    } else {
        None
    }
}

/// Compute the price-per-area ratio when the area is strictly positive.
pub fn price_per_m2(price: &Qty, area: &Qty) -> (r: Option<Ratio>)
    requires
        price.wf(),
        area.wf(),
    ensures
        r == spec_ppm2(*price, *area),
        r matches Some(x) ==> x.wf(),
{
    if area.num > 0 {
        proof {
            assert((price.num as int) * (area.den as int) <= u64::MAX * u64::MAX
                && (price.den as int) * (area.num as int) <= u64::MAX * u64::MAX
                && (price.den as int) * (area.num as int) >= 1) by (nonlinear_arith)
                requires
                    price.num <= u64::MAX,
                    area.den <= u64::MAX,
                    price.den <= u64::MAX,
                    area.num <= u64::MAX,
                    price.den >= 1,
                    area.num >= 1,
            ;
        }
        let num = (price.num as u128) * (area.den as u128);
        let den = (price.den as u128) * (area.num as u128);
        Some(Ratio { num, den })
    } else {
        None
    }
}

} // verus!
