//! The vote ledger: one entry per open vote, keyed by voter, asset and
//! voting id, holding the vote's sign and the stake snapshotted when it
//! was cast.
//!
//! The tally of a voting must always equal the aggregates of this ledger,
//! so this module defines the per-id aggregates (entry count, positive
//! stake, total stake) and how they move under push, remove, and the purge
//! that cleanup performs.

use vstd::prelude::*;

use crate::assoc::kunique;
use crate::tally::Sign;

verus! {

/// One open vote.
pub struct VoteEntry {
    /// The account that cast the vote.
    pub voter: u64,
    /// The asset of the voting; part of the key.
    pub asset: u64,
    /// The voting the vote is cast on.
    pub id: Vec<u8>,
    /// Which way the vote counts.
    pub sign: Sign,
    /// The voter's stake at the moment the vote was cast.
    pub stake: u64,
}

/// The ledger key of an entry.
pub open spec fn lentry_key() -> spec_fn(VoteEntry) -> (u64, u64, Seq<u8>) {
    |e: VoteEntry| (e.voter, e.asset, e.id@)
}

/// How many open votes a voting has.
pub open spec fn count_for(l: Seq<VoteEntry>, id: Seq<u8>) -> nat
    decreases l.len(),
{
    if l.len() == 0 {
        0
    } else {
        count_for(l.drop_last(), id) + if l.last().id@ == id {
            1nat
        } else {
            0nat
        }
    }
}

/// The stake behind a voting's open positive votes.
pub open spec fn yas_for(l: Seq<VoteEntry>, id: Seq<u8>) -> nat
    decreases l.len(),
{
    if l.len() == 0 {
        0
    } else {
        yas_for(l.drop_last(), id) + if l.last().id@ == id && l.last().sign is Positive {
            l.last().stake as nat
        } else {
            0nat
        }
    }
}

/// The stake behind all of a voting's open votes.
pub open spec fn sum_for(l: Seq<VoteEntry>, id: Seq<u8>) -> nat
    decreases l.len(),
{
    if l.len() == 0 {
        0
    } else {
        sum_for(l.drop_last(), id) + if l.last().id@ == id {
            l.last().stake as nat
        } else {
            0nat
        }
    }
}

/// The ledger with every entry of one voting removed, order kept.
pub open spec fn purge_id(l: Seq<VoteEntry>, id: Seq<u8>) -> Seq<VoteEntry>
    decreases l.len(),
{
    if l.len() == 0 {
        Seq::empty()
    } else if l.last().id@ == id {
        purge_id(l.drop_last(), id)
    } else {
        purge_id(l.drop_last(), id).push(l.last())
    }
}

/// How the aggregates move when a vote is appended.
pub proof fn lemma_aggregates_push(l: Seq<VoteEntry>, e: VoteEntry, id: Seq<u8>)
    ensures
        count_for(l.push(e), id) == count_for(l, id) + if e.id@ == id {
            1nat
        } else {
            0nat
        },
        yas_for(l.push(e), id) == yas_for(l, id) + if e.id@ == id && e.sign is Positive {
            e.stake as nat
        } else {
            0nat
        },
        sum_for(l.push(e), id) == sum_for(l, id) + if e.id@ == id {
            e.stake as nat
        } else {
            0nat
        },
{
    assert(l.push(e).drop_last() =~= l);
    assert(l.push(e).last() == e);
}

/// How the aggregates move when the vote at index `i` is removed; stated
/// additively, so each entry's contribution is bounded by the aggregate.
pub proof fn lemma_aggregates_remove(l: Seq<VoteEntry>, i: int, id: Seq<u8>)
    requires
        0 <= i < l.len(),
    ensures
        count_for(l, id) == count_for(l.remove(i), id) + if l[i].id@ == id {
            1nat
        } else {
            0nat
        },
        yas_for(l, id) == yas_for(l.remove(i), id) + if l[i].id@ == id && l[i].sign is Positive {
            l[i].stake as nat
        } else {
            0nat
        },
        sum_for(l, id) == sum_for(l.remove(i), id) + if l[i].id@ == id {
            l[i].stake as nat
        } else {
            0nat
        },
    decreases l.len(),
{
    let r = l.remove(i);
    if i == l.len() - 1 {
        assert(r =~= l.drop_last());
        assert(l[i] == l.last());
    } else {
        assert(r.last() == l.last());
        assert(r.drop_last() =~= l.drop_last().remove(i));
        lemma_aggregates_remove(l.drop_last(), i, id);
        assert(l.drop_last()[i] == l[i]);
    }
}

/// Positive stake never exceeds total stake.
pub proof fn lemma_yas_le_sum(l: Seq<VoteEntry>, id: Seq<u8>)
    ensures
        yas_for(l, id) <= sum_for(l, id),
    decreases l.len(),
{
    if l.len() > 0 {
        lemma_yas_le_sum(l.drop_last(), id);
    }
}

/// A voting has at most as many votes as the ledger has entries, and the
/// stake aggregates stay below `count * u64::MAX`.
pub proof fn lemma_aggregate_bounds(l: Seq<VoteEntry>, id: Seq<u8>)
    ensures
        count_for(l, id) <= l.len(),
        sum_for(l, id) <= count_for(l, id) * (u64::MAX as nat),
    decreases l.len(),
{
    if l.len() > 0 {
        lemma_aggregate_bounds(l.drop_last(), id);
        let c1 = count_for(l.drop_last(), id);
        assert((c1 + 1) * (u64::MAX as nat) == c1 * (u64::MAX as nat) + u64::MAX as nat)
            by (nonlinear_arith);
    }
}

/// A voting has no open votes exactly when no ledger entry names it.
pub proof fn lemma_count_zero(l: Seq<VoteEntry>, id: Seq<u8>)
    ensures
        (count_for(l, id) == 0) <==> (forall|i: int| 0 <= i < l.len() ==> l[i].id@ != id),
    decreases l.len(),
{
    if l.len() > 0 {
        let l1 = l.drop_last();
        lemma_count_zero(l1, id);
        assert(forall|i: int| 0 <= i < l1.len() ==> l1[i] == l[i]);
        if l.last().id@ == id {
            assert(l[l.len() - 1].id@ == id);
        } else {
            if count_for(l1, id) == 0 {
                assert forall|i: int| 0 <= i < l.len() implies (#[trigger] l[i]).id@ != id by {
                    if i < l.len() - 1 {
                        assert(l1[i].id@ != id);
                    } else {
                        assert(l[i] == l.last());
                    }
                }
            } else {
                let w = choose|i: int| 0 <= i < l1.len() && l1[i].id@ == id;
                assert(l[w].id@ == id);
            }
        }
    }
}

/// Purging one voting's entries leaves every other voting's aggregates
/// unchanged and its own at zero.
pub proof fn lemma_purge_aggregates(l: Seq<VoteEntry>, id: Seq<u8>, id2: Seq<u8>)
    ensures
        count_for(purge_id(l, id), id2) == if id2 == id {
            0nat
        } else {
            count_for(l, id2)
        },
        yas_for(purge_id(l, id), id2) == if id2 == id {
            0nat
        } else {
            yas_for(l, id2)
        },
        sum_for(purge_id(l, id), id2) == if id2 == id {
            0nat
        } else {
            sum_for(l, id2)
        },
    decreases l.len(),
{
    if l.len() > 0 {
        lemma_purge_aggregates(l.drop_last(), id, id2);
        if l.last().id@ != id {
            lemma_aggregates_push(purge_id(l.drop_last(), id), l.last(), id2);
        }
    }
}

/// Every surviving entry of a purge stood in the ledger, names another
/// voting, and the purge keeps keys distinct.
pub proof fn lemma_purge_elements(l: Seq<VoteEntry>, id: Seq<u8>)
    ensures
        purge_id(l, id).len() <= l.len(),
        forall|m: int|
            0 <= m < purge_id(l, id).len() ==> (#[trigger] purge_id(l, id)[m]).id@ != id,
        forall|m: int|
            0 <= m < purge_id(l, id).len() ==> exists|n: int|
                0 <= n < l.len() && #[trigger] purge_id(l, id)[m] == l[n],
        kunique(l, lentry_key()) ==> kunique(purge_id(l, id), lentry_key()),
    decreases l.len(),
{
    if l.len() > 0 {
        let l1 = l.drop_last();
        let p1 = purge_id(l1, id);
        let p = purge_id(l, id);
        lemma_purge_elements(l1, id);
        assert(forall|i: int| 0 <= i < l1.len() ==> l1[i] == l[i]);
        if l.last().id@ == id {
            assert forall|m: int| 0 <= m < p.len() implies exists|n: int|
                0 <= n < l.len() && #[trigger] p[m] == l[n] by {
                let n1 = choose|n: int| 0 <= n < l1.len() && p1[m] == l1[n];
                assert(p[m] == l[n1]);
            }
            if kunique(l, lentry_key()) {
                lemma_kunique_drop_last_votes(l);
            }
        } else {
            assert(p == p1.push(l.last()));
            assert forall|m: int| 0 <= m < p.len() implies exists|n: int|
                0 <= n < l.len() && #[trigger] p[m] == l[n] by {
                if m < p1.len() {
                    let n1 = choose|n: int| 0 <= n < l1.len() && p1[m] == l1[n];
                    assert(p[m] == l[n1]);
                } else {
                    assert(p[m] == l[l.len() - 1]);
                }
            }
            if kunique(l, lentry_key()) {
                lemma_kunique_drop_last_votes(l);
                let key = lentry_key();
                assert forall|a: int, b: int| 0 <= a < b < p.len() implies key(p[a]) != key(
                    p[b],
                ) by {
                    if b < p1.len() {
                        assert(p[a] == p1[a] && p[b] == p1[b]);
                    } else {
                        assert(p[b] == l.last());
                        let n = choose|n: int| 0 <= n < l1.len() && p1[a] == l1[n];
                        assert(p[a] == l[n]);
                        assert(key(l[n]) != key(l[l.len() - 1]));
                    }
                }
            }
        }
    }
}

/// Dropping the last entry keeps ledger keys distinct.
proof fn lemma_kunique_drop_last_votes(l: Seq<VoteEntry>)
    requires
        kunique(l, lentry_key()),
        l.len() > 0,
    ensures
        kunique(l.drop_last(), lentry_key()),
{
    let key = lentry_key();
    let l1 = l.drop_last();
    assert forall|i: int, j: int| 0 <= i < j < l1.len() implies key(l1[i]) != key(l1[j]) by {
        assert(l1[i] == l[i] && l1[j] == l[j]);
    }
}

} // verus!
