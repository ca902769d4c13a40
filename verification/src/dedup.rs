//! Deduplication register: each non-empty listing identifier is
//! accepted once per crawl run; hits with empty identifiers carry no
//! identity and are always accepted.

use vstd::prelude::*;
use vstd::slice::slice_to_vec;

use crate::text::bytes_eq;

verus! {

/// The set of identifiers seen so far in one crawl run, in insertion
/// order.
pub struct DedupRegister {
    pub seen: Vec<Vec<u8>>,
}

impl DedupRegister {
    /// The identifiers registered so far.
    pub open spec fn ids(self) -> Seq<Seq<u8>> {
        self.seen.deep_view()
    }

    /// Whether an identifier was already registered.
    pub open spec fn has(self, id: Seq<u8>) -> bool {
        self.ids().contains(id)
    }

    /// A fresh register with nothing seen.
    pub fn new() -> (r: DedupRegister)
        ensures
            r.ids() == Seq::<Seq<u8>>::empty(),
    {
        let r = DedupRegister { seen: Vec::new() };
        proof {
            assert(r.ids() =~= Seq::<Seq<u8>>::empty());
        }
        r
    }

    /// Register one identifier.  Returns true when the hit is newly
    /// accepted: an empty identifier is always accepted and never
    /// recorded; a non-empty one is accepted exactly on its first
    /// occurrence.
    pub fn accept(&mut self, id: &[u8]) -> (b: bool)
        ensures
            id@.len() == 0 ==> b && final(self).ids() == old(self).ids(),
            id@.len() > 0 ==> b == !old(self).has(id@),
            id@.len() > 0 && b ==> final(self).ids() == old(self).ids().push(id@),
            !b ==> final(self).ids() == old(self).ids(),
    {
        if id.len() == 0 {
            return true;
        }
        let n = self.seen.len();
        for i in 0..n
            invariant
                id@.len() > 0,
                n == self.seen@.len(),
                *self == *old(self),
                forall|k: int| 0 <= k < i ==> self.seen@[k]@ != id@,
        {
            if bytes_eq(self.seen[i].as_slice(), id) {
                proof {
                    assert(self.ids()[i as int] =~= self.seen@[i as int]@);
                    assert(old(self).ids().contains(id@)) by {
                        assert(old(self).ids()[i as int] == id@);
                    }
                }
                return false;
            }
        }
        proof {
            assert forall|k: int| 0 <= k < old(self).ids().len() implies old(self).ids()[k]
                != id@ by {
                assert(old(self).ids()[k] =~= old(self).seen@[k]@);
            }
            assert(!old(self).has(id@));
        }
        self.seen.push(slice_to_vec(id));
        proof {
            assert(self.ids() =~~= old(self).ids().push(id@));
        }
        true
    }
}

// ---------------------------------------------------------------------
// the dedup law
// ---------------------------------------------------------------------

/// Acceptance flags of a run of identifiers pushed through a register
/// that starts with `seen`: one flag per identifier, in order.
pub open spec fn accept_flags(ids: Seq<Seq<u8>>, seen: Set<Seq<u8>>) -> Seq<bool>
    decreases ids.len(),
{
    if ids.len() == 0 {
        Seq::empty()
    } else {
        let ok = ids[0].len() == 0 || !seen.contains(ids[0]);
        let seen2 = if ids[0].len() == 0 {
            seen
        } else {
            seen.insert(ids[0])
        };
        seq![ok] + accept_flags(ids.drop_first(), seen2)
    }
}

proof fn lemma_accept_flags_len(ids: Seq<Seq<u8>>, seen: Set<Seq<u8>>)
    ensures
        accept_flags(ids, seen).len() == ids.len(),
    decreases ids.len(),
{
    if ids.len() > 0 {
        lemma_accept_flags_len(ids.drop_first(), if ids[0].len() == 0 {
            seen
        } else {
            seen.insert(ids[0])
        });
    }
}

/// The identifier at `j` differs from everything before it.
pub open spec fn fresh_before(ids: Seq<Seq<u8>>, j: int) -> bool {
    forall|k: int| 0 <= k < j ==> ids[k] != ids[j]
}

proof fn lemma_accept_flags_at(ids: Seq<Seq<u8>>, seen: Set<Seq<u8>>, j: int)
    requires
        0 <= j < ids.len(),
    ensures
        accept_flags(ids, seen)[j] == (ids[j].len() == 0 || (!seen.contains(ids[j])
            && fresh_before(ids, j))),
    decreases j,
{
    let seen2 = if ids[0].len() == 0 {
        seen
    } else {
        seen.insert(ids[0])
    };
    lemma_accept_flags_len(ids.drop_first(), seen2);
    if j == 0 {
        assert(fresh_before(ids, 0));
    } else {
        let d = ids.drop_first();
        lemma_accept_flags_at(d, seen2, j - 1);
        assert(accept_flags(ids, seen)[j] == accept_flags(d, seen2)[j - 1]);
        assert(d[j - 1] == ids[j]);
        if ids[j].len() == 0 {
        } else {
            // the tail's freshness plus freshness against the head is
            // freshness against everything before j
            assert(fresh_before(d, j - 1) && ids[0] != ids[j] ==> fresh_before(ids, j)) by {
                if fresh_before(d, j - 1) && ids[0] != ids[j] {
                    assert forall|k: int| 0 <= k < j implies ids[k] != ids[j] by {
                        if k >= 1 {
                            assert(d[k - 1] == ids[k]);
                            assert(d[k - 1] != d[j - 1]);
                        }
                    }
                }
            }
            assert(fresh_before(ids, j) ==> fresh_before(d, j - 1) && ids[0] != ids[j]) by {
                if fresh_before(ids, j) {
                    assert forall|k: int| 0 <= k < j - 1 implies #[trigger] d[k] != d[j - 1] by {
                        assert(d[k] == ids[k + 1]);
                        assert(ids[k + 1] != ids[j]);
                    }
                }
            }
            if ids[0].len() == 0 {
                assert(ids[0].len() != ids[j].len());
                assert(ids[0] != ids[j]);
            } else {
                assert(!seen2.contains(ids[j]) == (!seen.contains(ids[j]) && ids[0] != ids[j]));
            }
        }
    }
}

/// Law: pushing any run of identifiers through a fresh register accepts
/// a hit exactly when its identifier is empty or this is the first
/// occurrence of that identifier; every repeat of a non-empty
/// identifier is rejected.
pub proof fn lemma_dedup_first_occurrence(ids: Seq<Seq<u8>>, j: int)
    requires
        0 <= j < ids.len(),
    ensures
        accept_flags(ids, Set::empty())[j] == (ids[j].len() == 0 || fresh_before(ids, j)),
{
    lemma_accept_flags_at(ids, Set::empty(), j);
}

} // verus!
