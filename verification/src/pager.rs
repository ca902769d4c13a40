//! Pager controller: derives the starting page from a URL, builds each
//! page URL, and preserves every non-page query parameter verbatim and
//! in order.
//!
//! A URL is split at the first `#` into head and fragment, and the head
//! at the first `?` into prefix and query.  The query is a list of raw
//! `&`-separated pairs.  A pair whose key (the part before the first
//! `=`) is `page` is the page-number parameter: normalization removes
//! such pairs and takes the starting page from the last one whose value
//! is a plain decimal number, clamped to at least 1.  Building appends
//! a fresh `page=N` pair after the kept pairs.

use vstd::prelude::*;
use vstd::slice::slice_subrange;

use crate::text::{
    bytes_eq, digits_only, digits_val, find_byte_from, find_ix, lemma_find_ix_at,
    lemma_find_ix_bounds, lemma_spec_digits, no_byte, parse_digits, push_all, render_u64,
    spec_digits, subrange_vec,
};

verus! {

/// The bytes of the page-parameter key, `page`.
pub open spec fn page_key() -> Seq<u8> {
    seq![112u8, 97u8, 103u8, 101u8]
}

/// The bytes of `page=`.
pub open spec fn page_key_eq() -> Seq<u8> {
    page_key().push(61u8)
}

// ---------------------------------------------------------------------
// splitting a URL into prefix, query pairs and fragment
// ---------------------------------------------------------------------

/// Start of the fragment: the first `#`, or the end.
pub open spec fn frag_at(u: Seq<u8>) -> int {
    find_ix(u, 35)
}

/// The URL without its fragment.
pub open spec fn head_of(u: Seq<u8>) -> Seq<u8> {
    u.take(frag_at(u))
}

/// The fragment, `#` included.
pub open spec fn frag_of(u: Seq<u8>) -> Seq<u8> {
    u.skip(frag_at(u))
}

/// Position of the query separator within the head.
pub open spec fn q_at(u: Seq<u8>) -> int {
    find_ix(head_of(u), 63)
}

/// Whether the URL carries a query part.
pub open spec fn has_query(u: Seq<u8>) -> bool {
    q_at(u) < head_of(u).len()
}

/// Everything before the `?` (or the whole head).
pub open spec fn prefix_of(u: Seq<u8>) -> Seq<u8> {
    head_of(u).take(q_at(u))
}

/// The raw query text after the `?`.
pub open spec fn query_of(u: Seq<u8>) -> Seq<u8> {
    head_of(u).skip(q_at(u) + 1)
}

/// Split a query on `&` into its raw pairs.
pub open spec fn split_amp(q: Seq<u8>) -> Seq<Seq<u8>>
    decreases q.len(),
{
    let k = find_ix(q, 38);
    if 0 <= k < q.len() {
        seq![q.take(k)] + split_amp(q.skip(k + 1))
    } else {
        seq![q]
    }
}

/// Join pairs with `&`.
pub open spec fn join_amp(ps: Seq<Seq<u8>>) -> Seq<u8>
    decreases ps.len(),
{
    if ps.len() == 0 {
        Seq::empty()
    } else if ps.len() == 1 {
        ps[0]
    } else {
        ps[0] + seq![38u8] + join_amp(ps.drop_first())
    }
}

/// Each pair followed by `&`; what precedes a final pair in a joined
/// query.
pub open spec fn join_head(ps: Seq<Seq<u8>>) -> Seq<u8>
    decreases ps.len(),
{
    if ps.len() == 0 {
        Seq::empty()
    } else {
        join_head(ps.drop_last()) + ps.last() + seq![38u8]
    }
}

// ---------------------------------------------------------------------
// page pairs
// ---------------------------------------------------------------------

/// The key of a raw pair: everything before the first `=`.
pub open spec fn key_of(pr: Seq<u8>) -> Seq<u8> {
    pr.take(find_ix(pr, 61))
}

/// A pair that names the page parameter (with or without a value).
pub open spec fn pair_is_page(pr: Seq<u8>) -> bool {
    key_of(pr) == page_key()
}

/// The numeric value of a `page=N` pair, if `N` is a non-empty run of
/// digits whose value fits the machine.
pub open spec fn pair_page_val(pr: Seq<u8>) -> Option<int> {
    if pr.len() > 5 && pr.take(5) == page_key_eq() {
        let v = pr.skip(5);
        if digits_only(v) && digits_val(v) <= usize::MAX {
            Some(digits_val(v))
        } else {
            None
        }
    } else {
        None
    }
}

/// Starting page drawn from a pair list: the last pair with a readable
/// page value wins, clamped to at least 1; without one the start is 1.
pub open spec fn start_page_rec(prs: Seq<Seq<u8>>) -> int
    decreases prs.len(),
{
    if prs.len() == 0 {
        1
    } else {
        match pair_page_val(prs.last()) {
            Some(v) => if v >= 1 {
                v
            } else {
                1
            },
            None => start_page_rec(prs.drop_last()),
        }
    }
}

/// All raw pairs of a URL's query.
pub open spec fn pairs_of(u: Seq<u8>) -> Seq<Seq<u8>> {
    if has_query(u) {
        split_amp(query_of(u))
    } else {
        Seq::empty()
    }
}

/// The pairs that normalization keeps: everything but page pairs.
pub open spec fn kept_pairs(u: Seq<u8>) -> Seq<Seq<u8>> {
    pairs_of(u).filter(|pr: Seq<u8>| !pair_is_page(pr))
}

/// The effective starting page of a URL.
pub open spec fn spec_start_page(u: Seq<u8>) -> int {
    start_page_rec(pairs_of(u))
}

/// The `page=N` pair for page `p`.
pub open spec fn page_pair(p: int) -> Seq<u8> {
    page_key_eq() + spec_digits(p)
}

/// A page URL built from base parts: prefix, `?`, the kept pairs plus a
/// fresh page pair, and the fragment.
pub open spec fn spec_build(prefix: Seq<u8>, pairs: Seq<Seq<u8>>, frag: Seq<u8>, p: int) -> Seq<
    u8,
> {
    prefix + seq![63u8] + join_amp(pairs.push(page_pair(p))) + frag
}

/// Well-formedness of base parts, as normalization establishes it.
pub open spec fn base_wf_seq(prefix: Seq<u8>, pairs: Seq<Seq<u8>>, frag: Seq<u8>) -> bool {
    &&& no_byte(prefix, 63) && no_byte(prefix, 35)
    &&& forall|i: int|
        0 <= i < pairs.len() ==> (no_byte(#[trigger] pairs[i], 38) && no_byte(pairs[i], 35)
            && !pair_is_page(pairs[i]))
    &&& frag.len() == 0 || frag[0] == 35
}

/// A query-normalized base URL: prefix, non-page query pairs in their
/// original order, and the fragment.
pub struct PagerBase {
    pub prefix: Vec<u8>,
    pub pairs: Vec<Vec<u8>>,
    pub fragment: Vec<u8>,
}

impl PagerBase {
    pub open spec fn wf(self) -> bool {
        base_wf_seq(self.prefix@, self.pairs.deep_view(), self.fragment@)
    }
}

// ---------------------------------------------------------------------
// executable pair inspection
// ---------------------------------------------------------------------

fn make_page_key() -> (r: Vec<u8>)
    ensures
        r@ == page_key(),
{
    let mut v: Vec<u8> = Vec::new();
    v.push(112);
    v.push(97);
    v.push(103);
    v.push(101);
    proof {
        assert(v@ =~= page_key());
    }
    v
}

fn pair_is_page_exec(pr: &[u8]) -> (r: bool)
    ensures
        r == pair_is_page(pr@),
{
    let k = find_byte_from(pr, 0, 61);
    proof {
        lemma_find_ix_at(pr@, 61, k as int);
    }
    let key = slice_subrange(pr, 0, k);
    let pk = make_page_key();
    proof {
        assert(key@ =~= key_of(pr@));
    }
    bytes_eq(key, pk.as_slice())
}

fn pair_page_value(pr: &[u8]) -> (r: Option<usize>)
    ensures
        match r {
            Some(v) => pair_page_val(pr@) == Some(v as int),
            None => pair_page_val(pr@) is None,
        },
{
    if pr.len() <= 5 {
        return None;
    }
    let mut pk = make_page_key();
    pk.push(61);
    proof {
        assert(pk@ =~= page_key_eq());
    }
    let head5 = slice_subrange(pr, 0, 5);
    proof {
        assert(head5@ =~= pr@.take(5));
    }
    if !bytes_eq(head5, pk.as_slice()) {
        return None;
    }
    let v = slice_subrange(pr, 5, pr.len());
    proof {
        assert(v@ =~= pr@.skip(5));
    }
    match parse_digits(v) {
        Some(x) => {
            if x <= usize::MAX as u64 {
                Some(x as usize)
            } else {
                None
            }
        },
        None => None,
    }
}

// ---------------------------------------------------------------------
// normalization
// ---------------------------------------------------------------------

/// Split raw query text on `&`, keep the non-page pairs, and read the
/// starting page from the page pairs.
fn scan_query(q: &[u8]) -> (r: (Vec<Vec<u8>>, usize))
    ensures
        r.0.deep_view() == split_amp(q@).filter(|pr: Seq<u8>| !pair_is_page(pr)),
        r.1 as int == start_page_rec(split_amp(q@)),
        r.1 >= 1,
{
    let n = q.len();
    let mut kept: Vec<Vec<u8>> = Vec::new();
    let mut start: usize = 1;
    let mut pos: usize = 0;
    let ghost mut done: Seq<Seq<u8>> = Seq::empty();
    proof {
        reveal(Seq::filter);
        assert(q@.skip(0) =~= q@);
        assert(Seq::<Seq<u8>>::empty() + split_amp(q@) =~= split_amp(q@));
        assert(done.filter(|pr: Seq<u8>| !pair_is_page(pr)) =~= Seq::<Seq<u8>>::empty());
        assert(kept.deep_view() =~~= done.filter(|pr: Seq<u8>| !pair_is_page(pr)));
    }
    loop
        invariant_except_break
            n == q@.len(),
            pos <= n,
            split_amp(q@) == done + split_amp(q@.skip(pos as int)),
            kept.deep_view() == done.filter(|pr: Seq<u8>| !pair_is_page(pr)),
            start as int == start_page_rec(done),
            start >= 1,
        ensures
            kept.deep_view() == split_amp(q@).filter(|pr: Seq<u8>| !pair_is_page(pr)),
            start as int == start_page_rec(split_amp(q@)),
            start >= 1,
        decreases n - pos,
    {
        let k = find_byte_from(q, pos, 38);
        let part = subrange_vec(q, pos, k);
        proof {
            lemma_find_ix_at(q@.skip(pos as int), 38, k - pos as int);
            assert(q@.skip(pos as int).take(k - pos as int) =~= part@);
        }
        match pair_page_value(part.as_slice()) {
            Some(v) => {
                start = if v >= 1 {
                    v
                } else {
                    1
                };
            },
            None => {},
        }
        let is_pg = pair_is_page_exec(part.as_slice());
        let ghost done2 = done.push(part@);
        let at_end = k == n;
        proof {
            reveal(Seq::filter);
            assert(done2.drop_last() =~= done);
            assert(done2.last() == part@);
        }
        if !is_pg {
            kept.push(part);
            proof {
                reveal(Seq::filter);
                assert(kept.deep_view() =~~= done2.filter(|pr: Seq<u8>| !pair_is_page(pr)));
            }
        } else {
            proof {
                reveal(Seq::filter);
                assert(kept.deep_view() =~~= done2.filter(|pr: Seq<u8>| !pair_is_page(pr)));
            }
        }
        if at_end {
            proof {
                assert(q@.skip(pos as int).take(k - pos as int) =~= q@.skip(pos as int));
                assert(split_amp(q@.skip(pos as int)) =~= seq![q@.skip(pos as int)]);
                assert(done2 =~= done + seq![q@.skip(pos as int)]);
                assert(done2 =~= split_amp(q@));
                done = done2;
            }
            break;
        }
        proof {
            assert(q@.skip(pos as int).skip(k - pos as int + 1) =~= q@.skip(k + 1));
            assert(split_amp(q@.skip(pos as int)) =~= seq![part@] + split_amp(q@.skip(k + 1)));
            done = done2;
            assert(done + split_amp(q@.skip(k + 1)) =~= split_amp(q@));
        }
        pos = k + 1;
    }
    (kept, start)
}

/// Normalize a URL: strip its page pairs and derive the starting page.
pub fn normalize_pager(url: &[u8]) -> (r: (PagerBase, usize))
    ensures
        r.0.prefix@ == prefix_of(url@),
        r.0.pairs.deep_view() == kept_pairs(url@),
        r.0.fragment@ == frag_of(url@),
        r.1 as int == spec_start_page(url@),
        r.1 >= 1,
        r.0.wf(),
{
    let n = url.len();
    let f = find_byte_from(url, 0, 35);
    proof {
        lemma_find_ix_at(url@, 35, f as int);
        assert(head_of(url@) =~= url@.subrange(0, f as int));
    }
    let k = find_byte_from(url, 0, 63);
    let hasq = k < f;
    let qa: usize = if hasq {
        k
    } else {
        f
    };
    proof {
        if hasq {
            assert(head_of(url@)[k as int] == 63);
            lemma_find_ix_at(head_of(url@), 63, k as int);
        } else {
            lemma_find_ix_at(head_of(url@), 63, f as int);
        }
        assert(q_at(url@) == qa as int);
        assert(has_query(url@) == hasq);
    }
    let prefix = subrange_vec(url, 0, qa);
    proof {
        assert(prefix@ =~= prefix_of(url@));
    }
    let fragment = subrange_vec(url, f, n);
    proof {
        assert(fragment@ =~= frag_of(url@));
    }
    let (pairs, start) = if hasq {
        let qs = slice_subrange(url, qa + 1, f);
        proof {
            assert(qs@ =~= query_of(url@));
        }
        let (kept, start) = scan_query(qs);
        (kept, start)
    } else {
        proof {
            assert(kept_pairs(url@) =~= Seq::<Seq<u8>>::empty());
        }
        (Vec::new(), 1)
    };
    let base = PagerBase { prefix, pairs, fragment };
    proof {
        lemma_kept_pairs_wf(url@);
    }
    (base, start)
}

// ---------------------------------------------------------------------
// building
// ---------------------------------------------------------------------

/// Build the URL of page `page` from a base.
pub fn build_page_url(base: &PagerBase, page: usize) -> (r: Vec<u8>)
    ensures
        r@ == spec_build(base.prefix@, base.pairs.deep_view(), base.fragment@, page as int),
{
    let mut out: Vec<u8> = Vec::new();
    push_all(&mut out, base.prefix.as_slice());
    out.push(63);
    proof {
        assert(out@ =~= base.prefix@ + seq![63u8] + join_head(
            base.pairs.deep_view().take(0),
        ));
    }
    let m = base.pairs.len();
    for i in 0..m
        invariant
            m == base.pairs@.len(),
            out@ == base.prefix@ + seq![63u8] + join_head(base.pairs.deep_view().take(i as int)),
    {
        push_all(&mut out, base.pairs[i].as_slice());
        out.push(38);
        proof {
            assert(base.pairs.deep_view().take(i + 1).drop_last() =~= base.pairs.deep_view().take(
                i as int,
            ));
            assert(out@ =~= base.prefix@ + seq![63u8] + join_head(
                base.pairs.deep_view().take(i + 1),
            ));
        }
    }
    proof {
        assert(base.pairs.deep_view().take(m as int) =~= base.pairs.deep_view());
    }
    let mut pk = make_page_key();
    pk.push(61);
    push_all(&mut out, pk.as_slice());
    let digits = render_u64(page as u64);
    push_all(&mut out, digits.as_slice());
    push_all(&mut out, base.fragment.as_slice());
    proof {
        lemma_join_amp_push(base.pairs.deep_view(), page_pair(page as int));
        assert(pk@ =~= page_key_eq());
        assert(out@ =~= spec_build(
            base.prefix@,
            base.pairs.deep_view(),
            base.fragment@,
            page as int,
        ));
    }
    out
}

// ---------------------------------------------------------------------
// facts about splitting and joining
// ---------------------------------------------------------------------

/// Pairs split out of a query never contain `&`, and contain no byte
/// the query itself lacks.
proof fn lemma_split_parts_nb(q: Seq<u8>, b: u8)
    requires
        b == 38 || no_byte(q, b),
    ensures
        forall|i: int| 0 <= i < split_amp(q).len() ==> no_byte(#[trigger] split_amp(q)[i], b),
    decreases q.len(),
{
    lemma_find_ix_bounds(q, 38);
    let k = find_ix(q, 38);
    if 0 <= k < q.len() {
        assert(b == 38 || no_byte(q.skip(k + 1), b));
        lemma_split_parts_nb(q.skip(k + 1), b);
        assert(no_byte(q.take(k), b));
        assert(forall|i: int|
            1 <= i < split_amp(q).len() ==> split_amp(q)[i] == split_amp(q.skip(k + 1))[i - 1]);
    } else {
        if b == 38 {
            assert(no_byte(q, 38));
        }
    }
}

/// Filtering page pairs out keeps each remaining pair's properties.
proof fn lemma_filter_keeps_props(ps: Seq<Seq<u8>>)
    requires
        forall|i: int|
            0 <= i < ps.len() ==> no_byte(#[trigger] ps[i], 38) && no_byte(ps[i], 35),
    ensures
        ({
            let f = ps.filter(|pr: Seq<u8>| !pair_is_page(pr));
            forall|i: int|
                0 <= i < f.len() ==> (no_byte(#[trigger] f[i], 38) && no_byte(f[i], 35)
                    && !pair_is_page(f[i]))
        }),
    decreases ps.len(),
{
    reveal(Seq::filter);
    if ps.len() > 0 {
        assert(forall|i: int| 0 <= i < ps.drop_last().len() ==> ps.drop_last()[i] == ps[i]);
        lemma_filter_keeps_props(ps.drop_last());
        let f = ps.filter(|pr: Seq<u8>| !pair_is_page(pr));
        let fd = ps.drop_last().filter(|pr: Seq<u8>| !pair_is_page(pr));
        if !pair_is_page(ps.last()) {
            assert(f == fd.push(ps.last()));
        } else {
            assert(f == fd);
        }
    }
}

/// Normalization yields well-formed base parts.
pub proof fn lemma_kept_pairs_wf(u: Seq<u8>)
    ensures
        base_wf_seq(prefix_of(u), kept_pairs(u), frag_of(u)),
{
    lemma_find_ix_bounds(u, 35);
    let h = head_of(u);
    assert(no_byte(h, 35));
    lemma_find_ix_bounds(h, 63);
    assert(no_byte(prefix_of(u), 63));
    assert(no_byte(prefix_of(u), 35));
    if has_query(u) {
        let q = query_of(u);
        assert(no_byte(q, 35));
        lemma_split_parts_nb(q, 38);
        lemma_split_parts_nb(q, 35);
        lemma_filter_keeps_props(split_amp(q));
    }
    if frag_of(u).len() > 0 {
        assert(frag_of(u)[0] == u[frag_at(u)]);
    }
}

/// `join_head` can also be unfolded from the left.
proof fn lemma_join_head_left(ps: Seq<Seq<u8>>)
    requires
        ps.len() >= 1,
    ensures
        join_head(ps) == ps[0] + seq![38u8] + join_head(ps.drop_first()),
    decreases ps.len(),
{
    if ps.len() == 1 {
        assert(ps.drop_last() =~= Seq::<Seq<u8>>::empty());
        assert(ps.drop_first() =~= Seq::<Seq<u8>>::empty());
        assert(ps.last() == ps[0]);
        assert(join_head(ps) =~= ps[0] + seq![38u8] + join_head(ps.drop_first()));
    } else {
        lemma_join_head_left(ps.drop_last());
        assert(ps.drop_last()[0] == ps[0]);
        assert(ps.drop_last().drop_first() =~= ps.drop_first().drop_last());
        assert(ps.drop_first().last() == ps.last());
        assert(join_head(ps) =~= ps[0] + seq![38u8] + join_head(ps.drop_first()));
    }
}

/// Joining after pushing a final pair appends that pair to `join_head`.
pub proof fn lemma_join_amp_push(ps: Seq<Seq<u8>>, pp: Seq<u8>)
    ensures
        join_amp(ps.push(pp)) == join_head(ps) + pp,
    decreases ps.len(),
{
    if ps.len() == 0 {
        assert(ps.push(pp)[0] == pp);
        assert(join_amp(ps.push(pp)) =~= join_head(ps) + pp);
    } else {
        assert(ps.push(pp).drop_first() =~= ps.drop_first().push(pp));
        lemma_join_amp_push(ps.drop_first(), pp);
        lemma_join_head_left(ps);
        assert(ps.push(pp)[0] == ps[0]);
        assert(ps.push(pp).len() >= 2);
        assert(join_amp(ps.push(pp)) =~= join_head(ps) + pp);
    }
}

/// Joining never introduces a byte other than `&`.
proof fn lemma_join_amp_nb(ps: Seq<Seq<u8>>, b: u8)
    requires
        b != 38,
        forall|i: int| 0 <= i < ps.len() ==> no_byte(#[trigger] ps[i], b),
    ensures
        no_byte(join_amp(ps), b),
    decreases ps.len(),
{
    if ps.len() <= 1 {
    } else {
        assert(forall|i: int|
            0 <= i < ps.drop_first().len() ==> ps.drop_first()[i] == ps[i + 1]);
        lemma_join_amp_nb(ps.drop_first(), b);
    }
}

/// Splitting a join of `&`-free pairs gives the pairs back.
proof fn lemma_split_join(ps: Seq<Seq<u8>>)
    requires
        ps.len() >= 1,
        forall|i: int| 0 <= i < ps.len() ==> no_byte(#[trigger] ps[i], 38),
    ensures
        split_amp(join_amp(ps)) == ps,
    decreases ps.len(),
{
    if ps.len() == 1 {
        lemma_find_ix_at(ps[0], 38, ps[0].len() as int);
        assert(split_amp(ps[0]) =~= seq![ps[0]]);
        assert(seq![ps[0]] =~= ps);
    } else {
        let rest = join_amp(ps.drop_first());
        let j = join_amp(ps);
        assert(j == ps[0] + seq![38u8] + rest);
        let w = ps[0].len() as int;
        assert(forall|k: int| 0 <= k < w ==> j[k] == ps[0][k]);
        assert(j[w] == 38);
        lemma_find_ix_at(j, 38, w);
        assert(j.take(w) =~= ps[0]);
        assert(j.skip(w + 1) =~= rest);
        assert(forall|i: int|
            0 <= i < ps.drop_first().len() ==> ps.drop_first()[i] == ps[i + 1]);
        lemma_split_join(ps.drop_first());
        assert(split_amp(j) =~= seq![ps[0]] + ps.drop_first());
        assert(seq![ps[0]] + ps.drop_first() =~= ps);
    }
}

/// Facts about a freshly built page pair.
proof fn lemma_page_pair(p: int)
    requires
        0 <= p <= usize::MAX,
    ensures
        no_byte(page_pair(p), 38),
        no_byte(page_pair(p), 35),
        pair_is_page(page_pair(p)),
        pair_page_val(page_pair(p)) == Some(p),
{
    lemma_spec_digits(p);
    let pp = page_pair(p);
    assert(pp.len() > 5);
    assert(page_key_eq()[0] == 112 && page_key_eq()[1] == 97 && page_key_eq()[2] == 103
        && page_key_eq()[3] == 101 && page_key_eq()[4] == 61);
    assert(forall|k: int| 0 <= k < 5 ==> pp[k] == page_key_eq()[k]);
    assert(forall|k: int|
        5 <= k < pp.len() ==> pp[k] == spec_digits(p)[k - 5] && digits_only(spec_digits(p)));
    assert(forall|k: int| 0 <= k < pp.len() ==> pp[k] != 38 && pp[k] != 35);
    lemma_find_ix_at(pp, 61, 4);
    assert(key_of(pp) =~= page_key());
    assert(pp.take(5) =~= page_key_eq());
    assert(pp.skip(5) =~= spec_digits(p));
    assert(digits_val(pp.skip(5)) == p);
}

/// A pair list with no page pairs is unchanged by the filter.
proof fn lemma_filter_no_page_id(ps: Seq<Seq<u8>>)
    requires
        forall|i: int| 0 <= i < ps.len() ==> !pair_is_page(#[trigger] ps[i]),
    ensures
        ps.filter(|pr: Seq<u8>| !pair_is_page(pr)) == ps,
    decreases ps.len(),
{
    reveal(Seq::filter);
    if ps.len() > 0 {
        assert(forall|i: int| 0 <= i < ps.drop_last().len() ==> ps.drop_last()[i] == ps[i]);
        lemma_filter_no_page_id(ps.drop_last());
        assert(ps.filter(|pr: Seq<u8>| !pair_is_page(pr)) =~= ps);
    }
}

/// The starting page is always at least 1 and fits the machine.
pub proof fn lemma_start_page_bounds(prs: Seq<Seq<u8>>)
    ensures
        1 <= start_page_rec(prs) <= usize::MAX,
    decreases prs.len(),
{
    if prs.len() > 0 {
        lemma_start_page_bounds(prs.drop_last());
    }
}

// ---------------------------------------------------------------------
// the pager laws
// ---------------------------------------------------------------------

/// Law: building page `p` from well-formed base parts yields a URL that
/// normalizes back to exactly those parts — every non-page pair is
/// preserved verbatim, unaffected by `p` — and whose effective starting
/// page is `p` (clamped to at least 1).
/// Layout of a built page URL: the fragment starts at the first `#`,
/// the query at the first `?`, and the query text is exactly the joined
/// pairs.
proof fn lemma_build_layout(prefix: Seq<u8>, pairs: Seq<Seq<u8>>, frag: Seq<u8>, p: int)
    requires
        base_wf_seq(prefix, pairs, frag),
        0 <= p <= usize::MAX,
    ensures
        prefix_of(spec_build(prefix, pairs, frag, p)) == prefix,
        frag_of(spec_build(prefix, pairs, frag, p)) == frag,
        has_query(spec_build(prefix, pairs, frag, p)),
        query_of(spec_build(prefix, pairs, frag, p)) == join_amp(pairs.push(page_pair(p))),
{
    let pp = page_pair(p);
    lemma_page_pair(p);
    let ps2 = pairs.push(pp);
    assert(forall|i: int| 0 <= i < pairs.len() ==> ps2[i] == pairs[i]);
    assert(ps2.last() == pp);
    assert(forall|i: int|
        0 <= i < ps2.len() ==> no_byte(#[trigger] ps2[i], 38) && no_byte(ps2[i], 35));
    let qq = join_amp(ps2);
    lemma_join_amp_nb(ps2, 35);
    let u = spec_build(prefix, pairs, frag, p);
    let hl: int = prefix.len() as int + 1 + qq.len() as int;
    assert(u.len() == hl + frag.len());
    assert forall|k: int| 0 <= k < hl implies u[k] != 35 by {
        if k < prefix.len() {
            assert(u[k] == prefix[k]);
        } else if k == prefix.len() {
            assert(u[k] == 63);
        } else {
            assert(u[k] == qq[k - prefix.len() - 1]);
        }
    }
    if frag.len() == 0 {
        lemma_find_ix_at(u, 35, u.len() as int);
    } else {
        assert(u[hl] == frag[0]);
        lemma_find_ix_at(u, 35, hl);
    }
    assert(frag_of(u) =~= frag);
    let h = head_of(u);
    assert(h =~= prefix + seq![63u8] + qq);
    assert forall|k: int| 0 <= k < prefix.len() implies h[k] != 63 by {
        assert(h[k] == prefix[k]);
    }
    assert(h[prefix.len() as int] == 63);
    lemma_find_ix_at(h, 63, prefix.len() as int);
    assert(prefix_of(u) =~= prefix);
    assert(has_query(u));
    assert(query_of(u) =~= qq);
}

/// The query pairs of a built page URL: the kept pairs plus the fresh
/// page pair.
#[verifier::spinoff_prover]
proof fn lemma_build_pairs(prefix: Seq<u8>, pairs: Seq<Seq<u8>>, frag: Seq<u8>, p: int)
    requires
        base_wf_seq(prefix, pairs, frag),
        0 <= p <= usize::MAX,
    ensures
        pairs_of(spec_build(prefix, pairs, frag, p)) == pairs.push(page_pair(p)),
{
    let pp = page_pair(p);
    lemma_page_pair(p);
    let ps2 = pairs.push(pp);
    assert(forall|i: int| 0 <= i < pairs.len() ==> ps2[i] == pairs[i]);
    assert(ps2.last() == pp);
    assert(forall|i: int| 0 <= i < ps2.len() ==> no_byte(#[trigger] ps2[i], 38));
    lemma_build_layout(prefix, pairs, frag, p);
    lemma_split_join(ps2);
}

#[verifier::spinoff_prover]
pub proof fn lemma_build_normalize(prefix: Seq<u8>, pairs: Seq<Seq<u8>>, frag: Seq<u8>, p: int)
    requires
        base_wf_seq(prefix, pairs, frag),
        0 <= p <= usize::MAX,
    ensures
        prefix_of(spec_build(prefix, pairs, frag, p)) == prefix,
        kept_pairs(spec_build(prefix, pairs, frag, p)) == pairs,
        frag_of(spec_build(prefix, pairs, frag, p)) == frag,
        spec_start_page(spec_build(prefix, pairs, frag, p)) == if p >= 1 {
            p
        } else {
            1
        },
{
    let pp = page_pair(p);
    lemma_page_pair(p);
    let ps2 = pairs.push(pp);
    let u = spec_build(prefix, pairs, frag, p);
    lemma_build_layout(prefix, pairs, frag, p);
    lemma_build_pairs(prefix, pairs, frag, p);
    // the filter drops exactly the fresh page pair
    assert(kept_pairs(u) == pairs) by {
        reveal(Seq::filter);
        assert(ps2.drop_last() =~= pairs);
        lemma_filter_no_page_id(pairs);
        assert(ps2.filter(|pr: Seq<u8>| !pair_is_page(pr)) == pairs.filter(
            |pr: Seq<u8>| !pair_is_page(pr),
        ));
    }
    // the fresh pair is the last one, so it sets the starting page
    assert(spec_start_page(u) == if p >= 1 {
        p
    } else {
        1
    }) by {
        assert(ps2.last() == pp);
        assert(start_page_rec(ps2) == if p >= 1 {
            p
        } else {
            1
        });
    }
}

/// Law: normalizing any URL and rebuilding from its base and starting
/// page preserves both the effective page and every non-page parameter.
pub proof fn lemma_normalize_roundtrip(u: Seq<u8>)
    ensures
        ({
            let built = spec_build(prefix_of(u), kept_pairs(u), frag_of(u), spec_start_page(u));
            &&& spec_start_page(built) == spec_start_page(u)
            &&& kept_pairs(built) == kept_pairs(u)
            &&& prefix_of(built) == prefix_of(u)
            &&& frag_of(built) == frag_of(u)
        }),
{
    lemma_kept_pairs_wf(u);
    lemma_start_page_bounds(pairs_of(u));
    lemma_build_normalize(prefix_of(u), kept_pairs(u), frag_of(u), spec_start_page(u));
}

} // verus!
