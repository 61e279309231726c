//! The proposal engine: registry, call store, ledger and tallies under one
//! invariant, and the five lifecycle operations.
//!
//! The engine owns three stores. The registry holds one entry per live
//! voting: the record, the reserved deposit, and the tally (present once
//! somebody has voted). The call store holds each distinct call once,
//! keyed by its content digest and reference-counted by the votings that
//! name it. The ledger holds one entry per open vote. The invariant ties
//! them together: keys are distinct, every tally equals the ledger's
//! aggregates for its voting, every reference count equals the number of
//! votings naming that digest, and every ledger entry points at a live
//! voting of the same asset.

use vstd::prelude::*;

use crate::assoc::kindex;
use crate::assoc::klookup;
use crate::assoc::kunique;
use crate::assoc::lemma_kindex;
use crate::assoc::lemma_klookup_index;
use crate::assoc::lemma_klookup_none;
use crate::assoc::lemma_klookup_push;
use crate::assoc::lemma_klookup_remove;
use crate::assoc::lemma_klookup_update;
use crate::assoc::lemma_kunique_push;
use crate::assoc::lemma_kunique_remove;
use crate::bytes::bytes_eq;
use crate::bytes::copy_bytes;
use crate::errors::Error;
use crate::hashing::call_digest_of;
use crate::ledger::count_for;
use crate::ledger::lemma_count_zero;
use crate::ledger::lentry_key;
use crate::ledger::purge_id;
use crate::ledger::sum_for;
use crate::ledger::yas_for;
use crate::ledger::VoteEntry;
use crate::tally::Sign;
use crate::tally::TallyState;
use crate::tally::Threshold;
use crate::voting::spec_voting_id;
use crate::voting::Voting;

verus! {

broadcast use vstd::std_specs::vec::axiom_spec_len;

/// One live voting: the record, its reserved deposit, and its tally once
/// somebody has voted. The tally's absence is the "created, not yet voted
/// on" state.
pub struct VotingEntry {
    /// The content-derived identifier.
    pub id: Vec<u8>,
    /// The stored voting record.
    pub voting: Voting,
    /// The deposit reserved from the author at creation.
    pub deposit: u64,
    /// The aggregate counters; `None` until the first vote.
    pub tally: Option<TallyState>,
}

/// One stored call, shared by every voting whose content matches.
pub struct CallEntry {
    /// The content digest of the call bytes.
    pub digest: Vec<u8>,
    /// The opaque call bytes.
    pub call: Vec<u8>,
    /// How many live votings name this digest.
    pub refs: u128,
}

/// The whole engine state.
pub struct Engine {
    /// The voting registry, keyed by voting id.
    pub votings: Vec<VotingEntry>,
    /// The call store, keyed by content digest.
    pub calls: Vec<CallEntry>,
    /// The vote ledger, keyed by voter, asset and voting id.
    pub ledger: Vec<VoteEntry>,
}

/// The registry key of a voting entry.
pub open spec fn ventry_key() -> spec_fn(VotingEntry) -> Seq<u8> {
    |e: VotingEntry| e.id@
}

/// The store key of a call entry.
pub open spec fn centry_key() -> spec_fn(CallEntry) -> Seq<u8> {
    |e: CallEntry| e.digest@
}

/// How many votings name the call digest `d`.
pub open spec fn refs_for(vs: Seq<VotingEntry>, d: Seq<u8>) -> nat
    decreases vs.len(),
{
    if vs.len() == 0 {
        0
    } else {
        refs_for(vs.drop_last(), d) + if vs.last().voting.call_hash@ == d {
            1nat
        } else {
            0nat
        }
    }
}

/// A registry entry in isolation: valid threshold, positive deposit, and
/// an id that is the digest of the record's content.
pub open spec fn ventry_wf(e: VotingEntry) -> bool {
    &&& e.voting.threshold.wf()
    &&& e.deposit >= 1
    &&& e.id@ == spec_voting_id(e.voting)
}

/// A call entry against the registry: its reference count is exactly the
/// number of votings naming its digest, and the digest is of its bytes.
pub open spec fn centry_wf(c: CallEntry, vs: Seq<VotingEntry>) -> bool {
    &&& c.refs == refs_for(vs, c.digest@)
    &&& c.refs >= 1
    &&& c.digest@ == call_digest_of(c.call@)
}

/// A ledger entry against the registry: its voting is live and the entry
/// is keyed by that voting's asset, with a positive snapshotted stake.
pub open spec fn lentry_wf(e: VoteEntry, vs: Seq<VotingEntry>) -> bool {
    match klookup(vs, ventry_key(), e.id@) {
        Some(ve) => ve.voting.asset == e.asset && e.stake >= 1,
        None => false,
    }
}

/// A registry entry's tally against the ledger: absent only while no entry
/// names the voting, else exactly the ledger's aggregates.
pub open spec fn tally_wf(ve: VotingEntry, l: Seq<VoteEntry>) -> bool {
    match ve.tally {
        None => count_for(l, ve.id@) == 0,
        Some(t) => {
            &&& t.votes == count_for(l, ve.id@)
            &&& t.yas == yas_for(l, ve.id@)
            &&& t.sum == sum_for(l, ve.id@)
        },
    }
}

/// How a reference count moves when a registry entry is appended.
proof fn lemma_refs_push(vs: Seq<VotingEntry>, e: VotingEntry, d: Seq<u8>)
    ensures
        refs_for(vs.push(e), d) == refs_for(vs, d) + if e.voting.call_hash@ == d {
            1nat
        } else {
            0nat
        },
{
    assert(vs.push(e).drop_last() =~= vs);
    assert(vs.push(e).last() == e);
}

/// How a reference count moves when the registry entry at `i` is removed.
proof fn lemma_refs_remove(vs: Seq<VotingEntry>, i: int, d: Seq<u8>)
    requires
        0 <= i < vs.len(),
    ensures
        refs_for(vs, d) == refs_for(vs.remove(i), d) + if vs[i].voting.call_hash@ == d {
            1nat
        } else {
            0nat
        },
    decreases vs.len(),
{
    let r = vs.remove(i);
    if i == vs.len() - 1 {
        assert(r =~= vs.drop_last());
        assert(vs[i] == vs.last());
    } else {
        assert(r.last() == vs.last());
        assert(r.drop_last() =~= vs.drop_last().remove(i));
        lemma_refs_remove(vs.drop_last(), i, d);
        assert(vs.drop_last()[i] == vs[i]);
    }
}

/// Replacing a registry entry by one naming the same call digest moves no
/// reference count.
proof fn lemma_refs_update(vs: Seq<VotingEntry>, i: int, e: VotingEntry, d: Seq<u8>)
    requires
        0 <= i < vs.len(),
        e.voting.call_hash@ == vs[i].voting.call_hash@,
    ensures
        refs_for(vs.update(i, e), d) == refs_for(vs, d),
    decreases vs.len(),
{
    let u = vs.update(i, e);
    if i == vs.len() - 1 {
        assert(u.last() == e);
        assert(u.drop_last() =~= vs.drop_last());
    } else {
        assert(u.last() == vs.last());
        assert(u.drop_last() =~= vs.drop_last().update(i, e));
        lemma_refs_update(vs.drop_last(), i, e, d);
        assert(vs.drop_last()[i] == vs[i]);
    }
}

/// A digest nobody names has reference count zero, and conversely.
proof fn lemma_refs_zero(vs: Seq<VotingEntry>, d: Seq<u8>)
    ensures
        (refs_for(vs, d) == 0) <==> (forall|i: int|
            0 <= i < vs.len() ==> (#[trigger] vs[i]).voting.call_hash@ != d),
    decreases vs.len(),
{
    if vs.len() > 0 {
        let v1 = vs.drop_last();
        lemma_refs_zero(v1, d);
        assert(forall|i: int| 0 <= i < v1.len() ==> v1[i] == vs[i]);
        if vs.last().voting.call_hash@ == d {
            assert(vs[vs.len() - 1].voting.call_hash@ == d);
        } else {
            if refs_for(v1, d) == 0 {
                assert forall|i: int| 0 <= i < vs.len() implies (#[trigger] vs[i]).voting.call_hash@
                    != d by {
                    if i < vs.len() - 1 {
                        assert(v1[i].voting.call_hash@ != d);
                    } else {
                        assert(vs[i] == vs.last());
                    }
                }
            } else {
                let w = choose|i: int| 0 <= i < v1.len() && v1[i].voting.call_hash@ == d;
                assert(vs[w].voting.call_hash@ == d);
            }
        }
    }
}

/// The reference count of any digest is at most the registry's size.
proof fn lemma_refs_le_len(vs: Seq<VotingEntry>, d: Seq<u8>)
    ensures
        refs_for(vs, d) <= vs.len(),
    decreases vs.len(),
{
    if vs.len() > 0 {
        lemma_refs_le_len(vs.drop_last(), d);
    }
}

impl Engine {
    /// The registry entry of voting `id`, if live.
    pub open spec fn s_voting(self, id: Seq<u8>) -> Option<VotingEntry> {
        klookup(self.votings@, ventry_key(), id)
    }

    /// The stored call of digest `d`, if live.
    pub open spec fn s_call(self, d: Seq<u8>) -> Option<CallEntry> {
        klookup(self.calls@, centry_key(), d)
    }

    /// The open vote of `voter` on voting `id` of `asset`, if any.
    pub open spec fn s_vote(self, voter: u64, asset: u64, id: Seq<u8>) -> Option<VoteEntry> {
        klookup(self.ledger@, lentry_key(), (voter, asset, id))
    }

    /// The engine's invariant; established by [`Engine::new`] and kept by
    /// every operation.
    pub open spec fn inv(self) -> bool {
        &&& kunique(self.votings@, ventry_key())
        &&& kunique(self.calls@, centry_key())
        &&& kunique(self.ledger@, lentry_key())
        &&& forall|i: int| 0 <= i < self.votings@.len() ==> ventry_wf(#[trigger] self.votings@[i])
        &&& forall|i: int|
            0 <= i < self.votings@.len() ==> klookup(
                self.calls@,
                centry_key(),
                (#[trigger] self.votings@[i]).voting.call_hash@,
            ) is Some
        &&& forall|i: int|
            0 <= i < self.calls@.len() ==> centry_wf(#[trigger] self.calls@[i], self.votings@)
        &&& forall|i: int|
            0 <= i < self.ledger@.len() ==> lentry_wf(#[trigger] self.ledger@[i], self.votings@)
        &&& forall|i: int|
            0 <= i < self.votings@.len() ==> tally_wf(#[trigger] self.votings@[i], self.ledger@)
    }

    /// An engine with no votings, no stored calls and no open votes.
    pub fn new() -> (e: Engine)
        ensures
            e.inv(),
            e.votings@.len() == 0,
            e.calls@.len() == 0,
            e.ledger@.len() == 0,
    {
        Engine { votings: Vec::new(), calls: Vec::new(), ledger: Vec::new() }
    }

    /// Finds the registry index of voting `id`.
    fn find_voting_idx(&self, id: &Vec<u8>) -> (r: Option<usize>)
        requires
            kunique(self.votings@, ventry_key()),
        ensures
            match r {
                Some(i) => i < self.votings@.len() && self.votings@[i as int].id@ == id@
                    && self.s_voting(id@) == Some(self.votings@[i as int]),
                None => self.s_voting(id@) is None,
            },
    {
        let mut i: usize = 0;
        while i < self.votings.len()
            invariant
                i <= self.votings@.len(),
                kunique(self.votings@, ventry_key()),
                forall|j: int| 0 <= j < i ==> (#[trigger] self.votings@[j]).id@ != id@,
            decreases self.votings@.len() - i,
        {
            if bytes_eq(&self.votings[i].id, id) {
                proof {
                    lemma_klookup_index(self.votings@, ventry_key(), i as int);
                    assert(ventry_key()(self.votings@[i as int]) == id@);
                }
                return Some(i);
            }
            i += 1;
        }
        proof {
            lemma_klookup_none(self.votings@, ventry_key(), id@);
            assert forall|j: int| 0 <= j < self.votings@.len() implies ventry_key()(
                #[trigger] self.votings@[j],
            ) != id@ by {
                assert(self.votings@[j].id@ != id@);
            }
        }
        None
    }

    /// Finds the store index of call digest `d`.
    fn find_call_idx(&self, d: &Vec<u8>) -> (r: Option<usize>)
        requires
            kunique(self.calls@, centry_key()),
        ensures
            match r {
                Some(i) => i < self.calls@.len() && self.calls@[i as int].digest@ == d@
                    && self.s_call(d@) == Some(self.calls@[i as int]),
                None => self.s_call(d@) is None,
            },
    {
        let mut i: usize = 0;
        while i < self.calls.len()
            invariant
                i <= self.calls@.len(),
                kunique(self.calls@, centry_key()),
                forall|j: int| 0 <= j < i ==> (#[trigger] self.calls@[j]).digest@ != d@,
            decreases self.calls@.len() - i,
        {
            if bytes_eq(&self.calls[i].digest, d) {
                proof {
                    lemma_klookup_index(self.calls@, centry_key(), i as int);
                    assert(centry_key()(self.calls@[i as int]) == d@);
                }
                return Some(i);
            }
            i += 1;
        }
        proof {
            lemma_klookup_none(self.calls@, centry_key(), d@);
            assert forall|j: int| 0 <= j < self.calls@.len() implies centry_key()(
                #[trigger] self.calls@[j],
            ) != d@ by {
                assert(self.calls@[j].digest@ != d@);
            }
        }
        None
    }

    /// Finds the ledger index of `voter`'s open vote on voting `id` of
    /// `asset`.
    fn find_vote_idx(&self, voter: u64, asset: u64, id: &Vec<u8>) -> (r: Option<usize>)
        requires
            kunique(self.ledger@, lentry_key()),
        ensures
            match r {
                Some(i) => i < self.ledger@.len() && self.ledger@[i as int].voter == voter
                    && self.ledger@[i as int].asset == asset && self.ledger@[i as int].id@ == id@
                    && self.s_vote(voter, asset, id@) == Some(self.ledger@[i as int]),
                None => self.s_vote(voter, asset, id@) is None,
            },
    {
        let mut i: usize = 0;
        while i < self.ledger.len()
            invariant
                i <= self.ledger@.len(),
                kunique(self.ledger@, lentry_key()),
                forall|j: int|
                    0 <= j < i ==> lentry_key()(#[trigger] self.ledger@[j]) != (voter, asset, id@),
            decreases self.ledger@.len() - i,
        {
            let e = &self.ledger[i];
            if e.voter == voter && e.asset == asset && bytes_eq(&e.id, id) {
                proof {
                    lemma_klookup_index(self.ledger@, lentry_key(), i as int);
                    assert(lentry_key()(self.ledger@[i as int]) == (voter, asset, id@));
                }
                return Some(i);
            }
            proof {
                assert(lentry_key()(self.ledger@[i as int]) != (voter, asset, id@));
            }
            i += 1;
        }
        proof {
            lemma_klookup_none(self.ledger@, lentry_key(), (voter, asset, id@));
        }
        None
    }
}

/// The deposit reserved for a call of `len` bytes: proportional to the
/// payload, always positive, saturating at the balance type's maximum.
pub open spec fn spec_deposit_for(len: nat) -> nat {
    if len + 1 <= u64::MAX {
        len + 1
    } else {
        u64::MAX as nat
    }
}

/// Computes [`spec_deposit_for`] at run time.
fn deposit_for(call: &Vec<u8>) -> (d: u64)
    ensures
        d == spec_deposit_for(call@.len()),
        d >= 1,
{
    let l = call.len();
    if (l as u64) <= u64::MAX - 1 {
        l as u64 + 1
    } else {
        u64::MAX
    }
}

/// The effective start of a voting: the given timepoint, or creation time
/// when none is given.
pub open spec fn spec_start_time(start: Option<u64>, now: u64) -> u64 {
    match start {
        Some(s) => s,
        None => now,
    }
}

/// Why `create` fails, or `None` when it succeeds: an invalid threshold,
/// then a caller id that is not the content-derived one, then a duplicate.
pub open spec fn spec_create_err(
    pre: Engine,
    author: u64,
    id: Seq<u8>,
    asset: u64,
    start: Option<u64>,
    end: Option<u64>,
    th: Threshold,
    call: Seq<u8>,
    now: u64,
) -> Option<Error> {
    if !th.wf() {
        Some(Error::InvalidThreshold)
    } else if id != crate::voting::spec_id_of(
        author,
        asset,
        spec_start_time(start, now),
        end,
        th,
        call_digest_of(call),
    ) {
        Some(Error::IdMismatch)
    } else if pre.s_voting(id) is Some {
        Some(Error::DuplicateId)
    } else {
        None
    }
}

impl Engine {
    /// Stores `call` under `digest`: inserts it with one reference when
    /// absent, else increments the existing entry's reference count.
    fn put_call(&mut self, digest: Vec<u8>, call: Vec<u8>)
        requires
            kunique(old(self).calls@, centry_key()),
            digest@ == call_digest_of(call@),
            old(self).s_call(digest@) matches Some(c0) ==> c0.refs < u128::MAX,
        ensures
            final(self).votings == old(self).votings,
            final(self).ledger == old(self).ledger,
            kunique(final(self).calls@, centry_key()),
            final(self).s_call(digest@) matches Some(c) && c.digest@ == digest@ && match old(
                self,
            ).s_call(digest@) {
                Some(c0) => c.call == c0.call && c.digest == c0.digest && c.refs == c0.refs + 1
                    && final(self).calls@.len() == old(self).calls@.len(),
                None => c.call == call && c.refs == 1 && final(self).calls@.len() == old(
                    self,
                ).calls@.len() + 1,
            },
            forall|d2: Seq<u8>|
                d2 != digest@ ==> #[trigger] final(self).s_call(d2) == old(self).s_call(d2),
    {
        match self.find_call_idx(&digest) {
            Some(i) => {
                let mut e = self.calls.remove(i);
                e.refs = e.refs + 1;
                let ghost e2 = e;
                self.calls.insert(i, e);
                proof {
                    assert(self.calls@ =~= old(self).calls@.update(i as int, e2));
                    assert(centry_key()(e2) == digest@);
                    assert forall|d2: Seq<u8>| true implies #[trigger] klookup(
                        self.calls@,
                        centry_key(),
                        d2,
                    ) == (if d2 == digest@ {
                        Some(e2)
                    } else {
                        klookup(old(self).calls@, centry_key(), d2)
                    }) by {
                        lemma_klookup_update(old(self).calls@, centry_key(), i as int, e2, d2);
                    }
                    lemma_klookup_update(old(self).calls@, centry_key(), i as int, e2, digest@);
                }
            },
            None => {
                let e = CallEntry { digest, call, refs: 1 };
                let ghost e2 = e;
                proof {
                    lemma_kunique_push(self.calls@, centry_key(), e2);
                }
                self.calls.push(e);
                proof {
                    assert forall|d2: Seq<u8>| true implies #[trigger] klookup(
                        self.calls@,
                        centry_key(),
                        d2,
                    ) == (if d2 == digest@ {
                        Some(e2)
                    } else {
                        klookup(old(self).calls@, centry_key(), d2)
                    }) by {
                        lemma_klookup_push(old(self).calls@, centry_key(), e2, d2);
                    }
                }
            },
        }
    }

    /// Creates a voting: validates the threshold, stores the call under
    /// its content digest, checks the caller-supplied id against the
    /// content-derived one, reserves the author's deposit, and registers
    /// the record. No tally exists until the first vote.
    ///
    /// On success the returned deposit has been reserved from `author`;
    /// the caller's currency system performs the actual reservation.
    #[verifier::rlimit(100)]
    #[verifier::spinoff_prover]
    pub fn create(
        &mut self,
        author: u64,
        id: &Vec<u8>,
        asset: u64,
        start: Option<u64>,
        end: Option<u64>,
        threshold: Threshold,
        call: Vec<u8>,
        now: u64,
    ) -> (r: Result<u64, Error>)
        requires
            old(self).inv(),
        ensures
            final(self).inv(),
            match spec_create_err(*old(self), author, id@, asset, start, end, threshold, call@, now) {
                Some(e) => r == Err::<u64, Error>(e) && *final(self) == *old(self),
                None => {
                    &&& r == Ok::<u64, Error>((spec_deposit_for(call@.len()) as u64))
                    &&& final(self).ledger == old(self).ledger
                    &&& final(self).votings@.len() == old(self).votings@.len() + 1
                    &&& final(self).s_voting(id@) matches Some(ve) && ve.voting.author == author
                        && ve.voting.asset == asset && ve.voting.start == spec_start_time(
                        start,
                        now,
                    ) && ve.voting.end == end && ve.voting.threshold == threshold
                        && ve.voting.call_hash@ == call_digest_of(call@) && ve.deposit
                        == spec_deposit_for(call@.len()) && ve.tally is None
                    &&& forall|id2: Seq<u8>|
                        id2 != id@ ==> #[trigger] final(self).s_voting(id2) == old(self).s_voting(
                            id2,
                        )
                    &&& final(self).s_call(call_digest_of(call@)) matches Some(c) && c.digest@
                        == call_digest_of(call@) && call_digest_of(c.call@) == call_digest_of(
                        call@,
                    ) && c.refs == refs_for(old(self).votings@, call_digest_of(call@)) + 1 && (old(
                        self,
                    ).s_call(call_digest_of(call@)) is None ==> c.call@ == call@)
                    &&& forall|d2: Seq<u8>|
                        d2 != call_digest_of(call@) ==> #[trigger] final(self).s_call(d2) == old(
                            self,
                        ).s_call(d2)
                    &&& count_for(final(self).ledger@, id@) == 0
                },
            },
    {
        if !threshold.is_valid() {
            return Err(Error::InvalidThreshold);
        }
        let start_t = match start {
            Some(s) => s,
            None => now,
        };
        let v = Voting::assemble(author, asset, start_t, end, threshold, &call);
        let expected = v.derive_id();
        if !bytes_eq(id, &expected) {
            return Err(Error::IdMismatch);
        }
        match self.find_voting_idx(id) {
            Some(_) => {
                return Err(Error::DuplicateId);
            },
            None => {},
        }
        let deposit = self.register_entry(id, v, call);
        Ok(deposit)
    }

    /// Stores the call and registers the voting entry; the validated tail
    /// of [`Engine::create`].
    #[verifier::rlimit(100)]
    #[verifier::spinoff_prover]
    fn register_entry(&mut self, id: &Vec<u8>, v: Voting, call: Vec<u8>) -> (deposit: u64)
        requires
            old(self).inv(),
            old(self).s_voting(id@) is None,
            v.threshold.wf(),
            id@ == spec_voting_id(v),
            v.call_hash@ == call_digest_of(call@),
        ensures
            final(self).inv(),
            deposit == spec_deposit_for(call@.len()),
            final(self).ledger == old(self).ledger,
            final(self).votings@.len() == old(self).votings@.len() + 1,
            final(self).s_voting(id@) matches Some(ve) && ve.voting == v && ve.deposit == deposit
                && ve.tally is None,
            forall|id2: Seq<u8>|
                id2 != id@ ==> #[trigger] final(self).s_voting(id2) == old(self).s_voting(id2),
            final(self).s_call(call_digest_of(call@)) matches Some(c) && c.digest@
                == call_digest_of(call@) && call_digest_of(c.call@) == call_digest_of(call@)
                && c.refs == refs_for(old(self).votings@, call_digest_of(call@)) + 1 && (old(
                self,
            ).s_call(call_digest_of(call@)) is None ==> c.call@ == call@),
            forall|d2: Seq<u8>|
                d2 != call_digest_of(call@) ==> #[trigger] final(self).s_call(d2) == old(
                    self,
                ).s_call(d2),
            count_for(final(self).ledger@, id@) == 0,
    {
        let deposit = deposit_for(&call);
        let digest = copy_bytes(&v.call_hash);
        let ghost d = call_digest_of(call@);
        proof {
            if self.s_call(d) is Some {
                lemma_kindex(self.calls@, centry_key(), d);
                let ci = kindex(self.calls@, centry_key(), d);
                assert(centry_wf(self.calls@[ci], self.votings@));
                lemma_refs_le_len(self.votings@, d);
                assert(vstd::std_specs::vec::spec_vec_len(&self.votings) <= usize::MAX);
                assert(self.votings@.len() <= usize::MAX);
                assert(self.s_call(d)->Some_0.refs < u128::MAX);
            }
        }
        self.put_call(digest, call);
        let ventry = VotingEntry { id: copy_bytes(id), voting: v, deposit, tally: None };
        let ghost ve2 = ventry;
        let ghost pre = *old(self);
        let ghost mid = *self;
        proof {
            assert(ventry_key()(ve2) == id@);
            lemma_kunique_push(self.votings@, ventry_key(), ve2);
        }
        self.votings.push(ventry);
        proof {
            lemma_register_inv(pre, mid, *self, ve2, d);
            assert(self.calls == mid.calls);
            assert(self.s_call(d) == mid.s_call(d));
            assert forall|d2: Seq<u8>| d2 != d implies #[trigger] self.s_call(d2) == pre.s_call(
                d2,
            ) by {
                assert(mid.s_call(d2) == pre.s_call(d2));
            }
        }
        deposit
    }
}

/// After storing a call and then registering a fresh voting entry that
/// names it, the engine invariant holds again and every other voting and
/// call reads as before.
#[verifier::rlimit(60)]
#[verifier::spinoff_prover]
proof fn lemma_register_inv(pre: Engine, mid: Engine, post: Engine, ve2: VotingEntry, d: Seq<u8>)
    requires
        pre.inv(),
        mid.votings == pre.votings,
        mid.ledger == pre.ledger,
        kunique(mid.calls@, centry_key()),
        mid.s_call(d) matches Some(c) && c.digest@ == d && c.digest@ == call_digest_of(c.call@)
            && match pre.s_call(d) {
            Some(c0) => c.call == c0.call && c.digest == c0.digest && c.refs == c0.refs + 1,
            None => c.refs == 1,
        },
        forall|d2: Seq<u8>| d2 != d ==> #[trigger] mid.s_call(d2) == pre.s_call(d2),
        ventry_wf(ve2),
        ve2.voting.call_hash@ == d,
        ve2.tally is None,
        pre.s_voting(ve2.id@) is None,
        kunique(post.votings@, ventry_key()),
        post.votings@ == pre.votings@.push(ve2),
        post.calls == mid.calls,
        post.ledger == pre.ledger,
    ensures
        post.inv(),
        post.s_voting(ve2.id@) == Some(ve2),
        forall|id2: Seq<u8>|
            id2 != ve2.id@ ==> #[trigger] post.s_voting(id2) == pre.s_voting(id2),
        count_for(post.ledger@, ve2.id@) == 0,
        match pre.s_call(d) {
            Some(c0) => c0.refs == refs_for(pre.votings@, d),
            None => refs_for(pre.votings@, d) == 0,
        },
{
    let id = ve2.id@;
    let vs_new = post.votings@;
    let vs_old = pre.votings@;
    assert forall|id2: Seq<u8>| true implies #[trigger] klookup(vs_new, ventry_key(), id2) == (
    if id2 == id {
        Some(ve2)
    } else {
        klookup(vs_old, ventry_key(), id2)
    }) by {
        lemma_klookup_push(vs_old, ventry_key(), ve2, id2);
        assert(ventry_key()(ve2) == id);
    }
    assert forall|dx: Seq<u8>| true implies #[trigger] refs_for(vs_new, dx) == refs_for(vs_old, dx)
        + (if dx == d {
        1nat
    } else {
        0nat
    }) by {
        lemma_refs_push(vs_old, ve2, dx);
    }
    if pre.s_call(d) matches Some(c0) {
        lemma_kindex(pre.calls@, centry_key(), d);
        let ci = kindex(pre.calls@, centry_key(), d);
        assert(centry_wf(pre.calls@[ci], vs_old));
    } else {
        lemma_refs_zero(vs_old, d);
        assert forall|i: int| 0 <= i < vs_old.len() implies (#[trigger] vs_old[i]).voting.call_hash@
            != d by {
            assert(klookup(pre.calls@, centry_key(), vs_old[i].voting.call_hash@) is Some);
        }
    }
    // every call entry's reference count matches the new registry
    assert forall|i: int| 0 <= i < post.calls@.len() implies centry_wf(
        #[trigger] post.calls@[i],
        vs_new,
    ) by {
        let c = post.calls@[i];
        lemma_klookup_index(post.calls@, centry_key(), i);
        assert(centry_key()(c) == c.digest@);
        if c.digest@ != d {
            assert(mid.s_call(c.digest@) == pre.s_call(c.digest@));
            assert(pre.s_call(c.digest@) == Some(c));
            lemma_kindex(pre.calls@, centry_key(), c.digest@);
            let ci = kindex(pre.calls@, centry_key(), c.digest@);
            assert(centry_wf(pre.calls@[ci], vs_old));
        }
    }
    // every voting still names a stored call
    assert forall|i: int| 0 <= i < vs_new.len() implies klookup(
        post.calls@,
        centry_key(),
        (#[trigger] vs_new[i]).voting.call_hash@,
    ) is Some by {
        if i < vs_old.len() {
            assert(vs_new[i] == vs_old[i]);
            let ch = vs_old[i].voting.call_hash@;
            if ch != d {
                assert(mid.s_call(ch) == pre.s_call(ch));
                assert(klookup(pre.calls@, centry_key(), ch) is Some);
            }
        } else {
            assert(vs_new[i] == ve2);
        }
    }
    // ledger entries still point at live votings of the same asset
    assert forall|i: int| 0 <= i < post.ledger@.len() implies lentry_wf(
        #[trigger] post.ledger@[i],
        vs_new,
    ) by {
        let e = post.ledger@[i];
        assert(lentry_wf(e, vs_old));
        assert(e.id@ != id);
    }
    lemma_count_zero(post.ledger@, id);
    assert forall|j: int| 0 <= j < post.ledger@.len() implies (#[trigger] post.ledger@[j]).id@
        != id by {
        assert(lentry_wf(post.ledger@[j], vs_old));
    }
    // tallies still match the untouched ledger
    assert forall|i: int| 0 <= i < vs_new.len() implies tally_wf(
        #[trigger] vs_new[i],
        post.ledger@,
    ) by {
        if i < vs_old.len() {
            assert(vs_new[i] == vs_old[i]);
            assert(tally_wf(vs_old[i], post.ledger@));
        } else {
            assert(vs_new[i] == ve2);
        }
    }
}

/// A voting's tally, or the zero tally while none exists yet.
pub open spec fn tally_or_zero(t: Option<TallyState>) -> TallyState {
    match t {
        Some(t0) => t0,
        None => TallyState { votes: 0, yas: 0, sum: 0 },
    }
}

/// Why `vote` fails, or `None` when it succeeds: an unknown voting, then
/// a stakeless caller, then an already-open vote, then a closed window.
pub open spec fn spec_vote_err(
    pre: Engine,
    caller: u64,
    id: Seq<u8>,
    stake: u64,
    now: u64,
) -> Option<Error> {
    match pre.s_voting(id) {
        None => Some(Error::UnknownVoting),
        Some(ve) => if stake == 0 {
            Some(Error::NoStake)
        } else if pre.s_vote(caller, ve.voting.asset, id) is Some {
            Some(Error::AlreadyVoted)
        } else if !crate::voting::spec_open_at(ve.voting, now) {
            Some(Error::VotingNotOpen)
        } else {
            None
        },
    }
}

impl Engine {
    /// Casts `caller`'s vote on voting `id` with its current `stake` in
    /// the voting's asset, snapshotting the stake in the ledger and adding
    /// its exact delta to the tally (created zeroed on the first vote).
    /// Reaching the threshold has no effect here: execution happens only
    /// through an explicit [`Engine::execute`].
    ///
    /// The caller queries `stake` from the asset system and `now` from the
    /// time source at call time.
    pub fn vote(&mut self, caller: u64, id: &Vec<u8>, sign: Sign, stake: u64, now: u64) -> (r:
        Result<(), Error>)
        requires
            old(self).inv(),
        ensures
            final(self).inv(),
            match spec_vote_err(*old(self), caller, id@, stake, now) {
                Some(e) => r == Err::<(), Error>(e) && *final(self) == *old(self),
                None => {
                    &&& r is Ok
                    &&& old(self).s_voting(id@) matches Some(ve0) && {
                        &&& final(self).s_voting(id@) matches Some(ve1) && ve1.voting
                            == ve0.voting && ve1.deposit == ve0.deposit && ve1.tally == Some(
                            crate::tally::spec_apply_vote(tally_or_zero(ve0.tally), sign, stake),
                        )
                        &&& final(self).s_vote(caller, ve0.voting.asset, id@) matches Some(en)
                            && en.sign == sign && en.stake == stake
                        &&& final(self).ledger@.len() == old(self).ledger@.len() + 1
                        &&& final(self).ledger@.drop_last() == old(self).ledger@
                        &&& final(self).ledger@.last().voter == caller
                        &&& final(self).ledger@.last().asset == ve0.voting.asset
                        &&& final(self).ledger@.last().id@ == id@
                        &&& final(self).ledger@.last().sign == sign
                        &&& final(self).ledger@.last().stake == stake
                    }
                    &&& final(self).votings@.len() == old(self).votings@.len()
                    &&& forall|id2: Seq<u8>|
                        id2 != id@ ==> #[trigger] final(self).s_voting(id2) == old(self).s_voting(
                            id2,
                        )
                    &&& final(self).calls == old(self).calls
                },
            },
    {
        let vidx = match self.find_voting_idx(id) {
            None => {
                return Err(Error::UnknownVoting);
            },
            Some(i) => i,
        };
        if stake == 0 {
            return Err(Error::NoStake);
        }
        let asset = self.votings[vidx].voting.asset;
        match self.find_vote_idx(caller, asset, id) {
            Some(_) => {
                return Err(Error::AlreadyVoted);
            },
            None => {},
        }
        if !self.votings[vidx].voting.is_open_at(now) {
            return Err(Error::VotingNotOpen);
        }
        let ghost pre = *self;
        let mut ve = self.votings.remove(vidx);
        let ghost ve0 = ve;
        let t0 = match ve.tally {
            Some(t) => t,
            None => TallyState::zero(),
        };
        proof {
            lemma_vote_bounds(pre, vidx as int, t0);
        }
        let t1 = t0.apply_vote(sign, stake);
        ve.tally = Some(t1);
        let ghost ve1 = ve;
        self.votings.insert(vidx, ve);
        let entry = VoteEntry { voter: caller, asset, id: copy_bytes(id), sign, stake };
        let ghost en = entry;
        proof {
            assert(self.votings@ =~= pre.votings@.update(vidx as int, ve1));
        }
        self.ledger.push(entry);
        proof {
            lemma_vote_inv(pre, *self, vidx as int, ve0, ve1, en);
        }
        Ok(())
    }
}

/// The tally of a live voting can absorb one more vote without leaving
/// `u128`, and its positive stake never exceeds its total stake.
proof fn lemma_vote_bounds(pre: Engine, vidx: int, t0: TallyState)
    requires
        pre.inv(),
        0 <= vidx < pre.votings@.len(),
        t0 == tally_or_zero(pre.votings@[vidx].tally),
    ensures
        t0.votes + 1 <= u128::MAX,
        t0.sum + u64::MAX <= u128::MAX,
        t0.yas <= t0.sum,
{
    let id = pre.votings@[vidx].id@;
    let l = pre.ledger@;
    assert(tally_wf(pre.votings@[vidx], l));
    crate::ledger::lemma_aggregate_bounds(l, id);
    crate::ledger::lemma_yas_le_sum(l, id);
    assert(vstd::std_specs::vec::spec_vec_len(&pre.ledger) <= usize::MAX);
    assert(l.len() <= usize::MAX);
    if pre.votings@[vidx].tally is Some {
        assert(t0.sum == sum_for(l, id));
        assert(t0.votes == count_for(l, id));
        assert(t0.yas == yas_for(l, id));
        assert(sum_for(l, id) <= count_for(l, id) * (u64::MAX as nat));
        assert(count_for(l, id) * (u64::MAX as nat) + u64::MAX <= u128::MAX) by (nonlinear_arith)
            requires
                count_for(l, id) <= u64::MAX,
        {
        }
    }
}

/// After replacing a voting's tally by the voted one and appending the
/// matching ledger entry, the engine invariant holds again.
#[verifier::rlimit(60)]
#[verifier::spinoff_prover]
proof fn lemma_vote_inv(
    pre: Engine,
    post: Engine,
    vidx: int,
    ve0: VotingEntry,
    ve1: VotingEntry,
    en: VoteEntry,
)
    requires
        pre.inv(),
        0 <= vidx < pre.votings@.len(),
        pre.votings@[vidx] == ve0,
        ve1.voting == ve0.voting,
        ve1.id == ve0.id,
        ve1.deposit == ve0.deposit,
        ve1.tally == Some(
            crate::tally::spec_apply_vote(tally_or_zero(ve0.tally), en.sign, en.stake),
        ),
        en.asset == ve0.voting.asset,
        en.stake >= 1,
        en.id@ == ve0.id@,
        pre.s_vote(en.voter, en.asset, en.id@) is None,
        post.votings@ == pre.votings@.update(vidx, ve1),
        post.calls == pre.calls,
        post.ledger@ == pre.ledger@.push(en),
    ensures
        post.inv(),
        post.s_voting(en.id@) == Some(ve1),
        forall|id2: Seq<u8>|
            id2 != en.id@ ==> #[trigger] post.s_voting(id2) == pre.s_voting(id2),
        post.s_vote(en.voter, en.asset, en.id@) == Some(en),
{
    let id = en.id@;
    let vs_old = pre.votings@;
    let vs_new = post.votings@;
    let l_old = pre.ledger@;
    let l_new = post.ledger@;
    assert(ventry_key()(ve1) == id && ventry_key()(ve0) == id);
    lemma_klookup_index(vs_old, ventry_key(), vidx);
    assert forall|id2: Seq<u8>| true implies #[trigger] klookup(vs_new, ventry_key(), id2) == (
    if id2 == id {
        Some(ve1)
    } else {
        klookup(vs_old, ventry_key(), id2)
    }) by {
        lemma_klookup_update(vs_old, ventry_key(), vidx, ve1, id2);
    }
    lemma_klookup_update(vs_old, ventry_key(), vidx, ve1, id);
    assert(lentry_key()(en) == (en.voter, en.asset, id));
    lemma_kunique_push(l_old, lentry_key(), en);
    assert forall|k: (u64, u64, Seq<u8>)| true implies #[trigger] klookup(
        l_new,
        lentry_key(),
        k,
    ) == (if k == (en.voter, en.asset, id) {
        Some(en)
    } else {
        klookup(l_old, lentry_key(), k)
    }) by {
        lemma_klookup_push(l_old, lentry_key(), en, k);
    }
    // reference counts are untouched
    assert forall|i: int| 0 <= i < post.calls@.len() implies centry_wf(
        #[trigger] post.calls@[i],
        vs_new,
    ) by {
        assert(centry_wf(pre.calls@[i], vs_old));
        lemma_refs_update(vs_old, vidx, ve1, pre.calls@[i].digest@);
    }
    // every voting still names a stored call
    assert forall|i: int| 0 <= i < vs_new.len() implies klookup(
        post.calls@,
        centry_key(),
        (#[trigger] vs_new[i]).voting.call_hash@,
    ) is Some by {
        if i != vidx {
            assert(vs_new[i] == vs_old[i]);
        }
        assert(klookup(pre.calls@, centry_key(), vs_old[i].voting.call_hash@) is Some);
    }
    // ledger entries still point at live votings of the same asset
    assert forall|i: int| 0 <= i < l_new.len() implies lentry_wf(
        #[trigger] l_new[i],
        vs_new,
    ) by {
        if i < l_old.len() {
            assert(l_new[i] == l_old[i]);
            assert(lentry_wf(l_old[i], vs_old));
        } else {
            assert(l_new[i] == en);
        }
    }
    // tallies match the extended ledger
    assert forall|i: int| 0 <= i < vs_new.len() implies tally_wf(
        #[trigger] vs_new[i],
        l_new,
    ) by {
        crate::ledger::lemma_aggregates_push(l_old, en, vs_new[i].id@);
        if i == vidx {
            crate::ledger::lemma_aggregate_bounds(l_old, id);
            crate::ledger::lemma_yas_le_sum(l_old, id);
            assert(vstd::std_specs::vec::spec_vec_len(&pre.ledger) <= usize::MAX);
            assert(l_old.len() <= usize::MAX);
            assert(sum_for(l_old, id) + en.stake <= u128::MAX) by (nonlinear_arith)
                requires
                    sum_for(l_old, id) <= count_for(l_old, id) * (u64::MAX as nat),
                    count_for(l_old, id) <= u64::MAX,
                    en.stake <= u64::MAX,
            {
            }
            if ve0.tally is None {
                assert(count_for(l_old, id) == 0);
                assert(sum_for(l_old, id) == 0);
                assert(yas_for(l_old, id) == 0);
            }
            assert(tally_wf(ve0, l_old));
        } else {
            assert(vs_new[i] == vs_old[i]);
            assert(tally_wf(vs_old[i], l_old));
            assert(vs_old[i].id@ != id);
        }
    }
}

/// Why `unvote` fails, or `None` when it succeeds: there is no open vote
/// to withdraw (an unknown voting has none).
pub open spec fn spec_unvote_err(pre: Engine, caller: u64, id: Seq<u8>) -> Option<Error> {
    match pre.s_voting(id) {
        None => Some(Error::NoSuchVote),
        Some(ve) => if pre.s_vote(caller, ve.voting.asset, id) is None {
            Some(Error::NoSuchVote)
        } else {
            None
        },
    }
}

impl Engine {
    /// Withdraws `caller`'s open vote on voting `id` and removes its exact
    /// delta from the tally. A delta that would drive a tally field
    /// negative cannot occur while the invariant holds.
    pub fn unvote(&mut self, caller: u64, id: &Vec<u8>) -> (r: Result<(), Error>)
        requires
            old(self).inv(),
        ensures
            final(self).inv(),
            match spec_unvote_err(*old(self), caller, id@) {
                Some(e) => r == Err::<(), Error>(e) && *final(self) == *old(self),
                None => {
                    &&& r is Ok
                    &&& old(self).s_voting(id@) matches Some(ve0) && {
                        &&& old(self).s_vote(caller, ve0.voting.asset, id@) matches Some(en) && {
                            &&& ve0.tally is Some
                            &&& final(self).s_voting(id@) matches Some(ve1) && ve1.voting
                                == ve0.voting && ve1.deposit == ve0.deposit && ve1.tally
                                == crate::tally::spec_apply_unvote(
                                tally_or_zero(ve0.tally),
                                en.sign,
                                en.stake,
                            )
                        }
                        &&& final(self).s_vote(caller, ve0.voting.asset, id@) is None
                    }
                    &&& final(self).ledger@.len() + 1 == old(self).ledger@.len()
                    &&& final(self).votings@.len() == old(self).votings@.len()
                    &&& forall|id2: Seq<u8>|
                        id2 != id@ ==> #[trigger] final(self).s_voting(id2) == old(self).s_voting(
                            id2,
                        )
                    &&& forall|k: (u64, u64, Seq<u8>)|
                        k.2 != id@ ==> #[trigger] klookup(final(self).ledger@, lentry_key(), k)
                            == klookup(old(self).ledger@, lentry_key(), k)
                    &&& final(self).calls == old(self).calls
                },
            },
    {
        let vidx = match self.find_voting_idx(id) {
            None => {
                return Err(Error::NoSuchVote);
            },
            Some(i) => i,
        };
        let asset = self.votings[vidx].voting.asset;
        let lidx = match self.find_vote_idx(caller, asset, id) {
            None => {
                return Err(Error::NoSuchVote);
            },
            Some(i) => i,
        };
        let ghost pre = *self;
        proof {
            lemma_unvote_bounds(pre, vidx as int, lidx as int);
        }
        let en = self.ledger.remove(lidx);
        let mut ve = self.votings.remove(vidx);
        let ghost ve0 = ve;
        let t0 = match ve.tally {
            Some(t) => t,
            None => vstd::pervasive::unreached(),
        };
        let t1 = match t0.apply_unvote(en.sign, en.stake) {
            Ok(t) => t,
            Err(_) => vstd::pervasive::unreached(),
        };
        ve.tally = Some(t1);
        let ghost ve1 = ve;
        self.votings.insert(vidx, ve);
        proof {
            assert(self.votings@ =~= pre.votings@.update(vidx as int, ve1));
            lemma_unvote_inv(pre, *self, vidx as int, lidx as int, ve0, ve1);
        }
        Ok(())
    }
}

/// While the invariant holds, a withdrawn vote's delta never drives a
/// tally field negative: the tally is present and each field dominates the
/// entry's contribution.
proof fn lemma_unvote_bounds(pre: Engine, vidx: int, lidx: int)
    requires
        pre.inv(),
        0 <= vidx < pre.votings@.len(),
        0 <= lidx < pre.ledger@.len(),
        pre.ledger@[lidx].id@ == pre.votings@[vidx].id@,
    ensures
        pre.votings@[vidx].tally is Some,
        tally_or_zero(pre.votings@[vidx].tally).votes >= 1,
        tally_or_zero(pre.votings@[vidx].tally).sum >= pre.ledger@[lidx].stake,
        pre.ledger@[lidx].sign is Positive ==> tally_or_zero(pre.votings@[vidx].tally).yas
            >= pre.ledger@[lidx].stake,
{
    let id = pre.votings@[vidx].id@;
    let l = pre.ledger@;
    assert(tally_wf(pre.votings@[vidx], l));
    crate::ledger::lemma_aggregates_remove(l, lidx, id);
    if pre.votings@[vidx].tally is None {
        assert(count_for(l, id) >= 1);
    }
}

/// After removing one ledger entry and replacing its voting's tally by
/// the unvoted one, the engine invariant holds again.
#[verifier::rlimit(60)]
#[verifier::spinoff_prover]
proof fn lemma_unvote_inv(
    pre: Engine,
    post: Engine,
    vidx: int,
    lidx: int,
    ve0: VotingEntry,
    ve1: VotingEntry,
)
    requires
        pre.inv(),
        0 <= vidx < pre.votings@.len(),
        pre.votings@[vidx] == ve0,
        0 <= lidx < pre.ledger@.len(),
        pre.ledger@[lidx].id@ == ve0.id@,
        ve1.voting == ve0.voting,
        ve1.id == ve0.id,
        ve1.deposit == ve0.deposit,
        ve1.tally == crate::tally::spec_apply_unvote(
            tally_or_zero(ve0.tally),
            pre.ledger@[lidx].sign,
            pre.ledger@[lidx].stake,
        ),
        ve0.tally is Some,
        ve1.tally is Some,
        post.votings@ == pre.votings@.update(vidx, ve1),
        post.calls == pre.calls,
        post.ledger@ == pre.ledger@.remove(lidx),
    ensures
        post.inv(),
        post.s_voting(ve0.id@) == Some(ve1),
        forall|id2: Seq<u8>|
            id2 != ve0.id@ ==> #[trigger] post.s_voting(id2) == pre.s_voting(id2),
        klookup(post.ledger@, lentry_key(), lentry_key()(pre.ledger@[lidx])) is None,
        forall|k: (u64, u64, Seq<u8>)|
            k != lentry_key()(pre.ledger@[lidx]) ==> #[trigger] klookup(
                post.ledger@,
                lentry_key(),
                k,
            ) == klookup(pre.ledger@, lentry_key(), k),
{
    let id = ve0.id@;
    let en = pre.ledger@[lidx];
    let vs_old = pre.votings@;
    let vs_new = post.votings@;
    let l_old = pre.ledger@;
    let l_new = post.ledger@;
    assert(ventry_key()(ve1) == id && ventry_key()(ve0) == id);
    lemma_klookup_index(vs_old, ventry_key(), vidx);
    assert forall|id2: Seq<u8>| true implies #[trigger] klookup(vs_new, ventry_key(), id2) == (
    if id2 == id {
        Some(ve1)
    } else {
        klookup(vs_old, ventry_key(), id2)
    }) by {
        lemma_klookup_update(vs_old, ventry_key(), vidx, ve1, id2);
    }
    lemma_klookup_update(vs_old, ventry_key(), vidx, ve1, id);
    lemma_kunique_remove(l_old, lentry_key(), lidx);
    assert forall|k: (u64, u64, Seq<u8>)| true implies #[trigger] klookup(
        l_new,
        lentry_key(),
        k,
    ) == (if k == lentry_key()(en) {
        None
    } else {
        klookup(l_old, lentry_key(), k)
    }) by {
        lemma_klookup_remove(l_old, lentry_key(), lidx, k);
    }
    // reference counts are untouched
    assert forall|i: int| 0 <= i < post.calls@.len() implies centry_wf(
        #[trigger] post.calls@[i],
        vs_new,
    ) by {
        assert(centry_wf(pre.calls@[i], vs_old));
        lemma_refs_update(vs_old, vidx, ve1, pre.calls@[i].digest@);
    }
    // every voting still names a stored call
    assert forall|i: int| 0 <= i < vs_new.len() implies klookup(
        post.calls@,
        centry_key(),
        (#[trigger] vs_new[i]).voting.call_hash@,
    ) is Some by {
        if i != vidx {
            assert(vs_new[i] == vs_old[i]);
        }
        assert(klookup(pre.calls@, centry_key(), vs_old[i].voting.call_hash@) is Some);
    }
    // remaining ledger entries still point at live votings of the asset
    assert forall|i: int| 0 <= i < l_new.len() implies lentry_wf(
        #[trigger] l_new[i],
        vs_new,
    ) by {
        let i2: int = if i < lidx {
            i
        } else {
            i + 1
        };
        assert(l_new[i] == l_old[i2]);
        assert(lentry_wf(l_old[i2], vs_old));
    }
    // tallies match the shrunken ledger
    assert forall|i: int| 0 <= i < vs_new.len() implies tally_wf(
        #[trigger] vs_new[i],
        l_new,
    ) by {
        crate::ledger::lemma_aggregates_remove(l_old, lidx, vs_new[i].id@);
        if i == vidx {
            assert(tally_wf(ve0, l_old));
        } else {
            assert(vs_new[i] == vs_old[i]);
            assert(tally_wf(vs_old[i], l_old));
            assert(vs_old[i].id@ != id);
        }
    }
}

/// The post-state that both `execute` and `close` leave behind: the
/// voting's registry entry is gone (tally and deposit with it), the
/// stored call loses one reference (and is gone when it was the last),
/// and every ledger entry of the voting is removed, all other entries
/// keeping their place. Given the pre-state and the id, this pins the
/// post-stores exactly; see [`lemma_cleanup_deterministic`].
pub open spec fn is_cleanup_of(post: Engine, pre: Engine, id: Seq<u8>) -> bool {
    let vi = kindex(pre.votings@, ventry_key(), id);
    let ve = pre.votings@[vi];
    let ch = ve.voting.call_hash@;
    let ci = kindex(pre.calls@, centry_key(), ch);
    &&& post.votings@ == pre.votings@.remove(vi)
    &&& if pre.calls@[ci].refs == 1 {
        post.calls@ == pre.calls@.remove(ci)
    } else {
        &&& post.calls@ == pre.calls@.update(ci, post.calls@[ci])
        &&& post.calls@[ci].digest == pre.calls@[ci].digest
        &&& post.calls@[ci].call == pre.calls@[ci].call
        &&& post.calls@[ci].refs == pre.calls@[ci].refs - 1
    }
    &&& post.ledger@ == purge_id(pre.ledger@, id)
}

/// Cleanup is a function of the pre-state and the voting id alone: two
/// cleanups of the same voting leave identical storage. `close` and
/// `execute` both end in [`is_cleanup_of`], so their reclamation is the
/// same in shape, the dispatch of the stored call being the only
/// difference.
pub proof fn lemma_cleanup_deterministic(pre: Engine, a: Engine, b: Engine, id: Seq<u8>)
    requires
        is_cleanup_of(a, pre, id),
        is_cleanup_of(b, pre, id),
    ensures
        a.votings@ == b.votings@,
        a.calls@ == b.calls@,
        a.ledger@ == b.ledger@,
{
    let ch = pre.votings@[kindex(pre.votings@, ventry_key(), id)].voting.call_hash@;
    let ci = kindex(pre.calls@, centry_key(), ch);
    if pre.calls@[ci].refs != 1 {
        assert(a.calls@[ci] == b.calls@[ci]);
        assert(a.calls@ =~= b.calls@);
    }
}

impl Engine {
    /// Removes the voting entry at `vidx`, releases its call reference and
    /// purges its ledger entries.
    #[verifier::rlimit(60)]
    #[verifier::spinoff_prover]
    #[verifier::loop_isolation(false)]
    fn cleanup(&mut self, vidx: usize) -> (ve: VotingEntry)
        requires
            old(self).inv(),
            vidx < old(self).votings@.len(),
        ensures
            final(self).inv(),
            ve == old(self).votings@[vidx as int],
            is_cleanup_of(*final(self), *old(self), ve.id@),
            final(self).s_voting(ve.id@) is None,
            forall|id2: Seq<u8>|
                id2 != ve.id@ ==> #[trigger] final(self).s_voting(id2) == old(self).s_voting(id2),
            count_for(final(self).ledger@, ve.id@) == 0,
    {
        let ghost pre = *self;
        let ve = self.votings.remove(vidx);
        let ghost id = ve.id@;
        proof {
            lemma_klookup_index(pre.votings@, ventry_key(), vidx as int);
            assert(klookup(pre.calls@, centry_key(), ve.voting.call_hash@) is Some);
        }
        let cidx = match self.find_call_idx(&ve.voting.call_hash) {
            Some(i) => i,
            None => vstd::pervasive::unreached(),
        };
        let centry = self.calls.remove(cidx);
        let ghost removed_call = centry;
        if centry.refs > 1 {
            let c2 = CallEntry { digest: centry.digest, call: centry.call, refs: centry.refs - 1 };
            self.calls.insert(cidx, c2);
            proof {
                assert(self.calls@ =~= pre.calls@.update(cidx as int, self.calls@[cidx as int]));
            }
        }
        let ghost mid_calls = self.calls@;
        // purge the ledger of this voting's entries, keeping order
        let mut i: usize = 0;
        let ghost l_old = pre.ledger@;
        let ghost mut j: int = 0;
        while i < self.ledger.len()
            invariant
                0 <= j <= l_old.len(),
                i as int == purge_id(l_old.subrange(0, j), id).len(),
                self.ledger@ == purge_id(l_old.subrange(0, j), id) + l_old.subrange(
                    j,
                    l_old.len() as int,
                ),
                i <= self.ledger@.len(),
                self.votings@ == pre.votings@.remove(vidx as int),
                self.calls@ == mid_calls,
            decreases l_old.len() - j,
        {
            proof {
                assert(self.ledger@[i as int] == l_old[j]);
            }
            if bytes_eq(&self.ledger[i].id, &ve.id) {
                self.ledger.remove(i);
                proof {
                    assert(l_old.subrange(0, j + 1).drop_last() =~= l_old.subrange(0, j));
                    assert(l_old.subrange(0, j + 1).last() == l_old[j]);
                    assert(purge_id(l_old.subrange(0, j + 1), id) =~= purge_id(
                        l_old.subrange(0, j),
                        id,
                    ));
                    assert(self.ledger@ =~= purge_id(l_old.subrange(0, j + 1), id)
                        + l_old.subrange(j + 1, l_old.len() as int));
                    j = j + 1;
                }
            } else {
                i += 1;
                proof {
                    assert(l_old.subrange(0, j + 1).drop_last() =~= l_old.subrange(0, j));
                    assert(l_old.subrange(0, j + 1).last() == l_old[j]);
                    assert(purge_id(l_old.subrange(0, j + 1), id) =~= purge_id(
                        l_old.subrange(0, j),
                        id,
                    ).push(l_old[j]));
                    assert(self.ledger@ =~= purge_id(l_old.subrange(0, j + 1), id)
                        + l_old.subrange(j + 1, l_old.len() as int));
                    j = j + 1;
                }
            }
        }
        proof {
            assert(j == l_old.len());
            assert(l_old.subrange(0, l_old.len() as int) =~= l_old);
            assert(self.ledger@ =~= purge_id(l_old, id));
            lemma_cleanup_inv(pre, *self, vidx as int, cidx as int, ve, removed_call);
        }
        ve
    }
}

/// After removing a voting, releasing its call reference and purging its
/// ledger entries, the engine invariant holds again and the post-state is
/// exactly the cleanup of the pre-state.
#[verifier::rlimit(80)]
#[verifier::spinoff_prover]
proof fn lemma_cleanup_inv(
    pre: Engine,
    post: Engine,
    vidx: int,
    cidx: int,
    ve: VotingEntry,
    removed_call: CallEntry,
)
    requires
        pre.inv(),
        0 <= vidx < pre.votings@.len(),
        pre.votings@[vidx] == ve,
        0 <= cidx < pre.calls@.len(),
        pre.calls@[cidx] == removed_call,
        removed_call.digest@ == ve.voting.call_hash@,
        post.votings@ == pre.votings@.remove(vidx),
        if removed_call.refs > 1 {
            &&& post.calls@.len() == pre.calls@.len()
            &&& post.calls@ == pre.calls@.update(cidx, post.calls@[cidx])
            &&& post.calls@[cidx].digest == removed_call.digest
            &&& post.calls@[cidx].call == removed_call.call
            &&& post.calls@[cidx].refs == removed_call.refs - 1
        } else {
            post.calls@ == pre.calls@.remove(cidx)
        },
        post.ledger@ == purge_id(pre.ledger@, ve.id@),
    ensures
        post.inv(),
        is_cleanup_of(post, pre, ve.id@),
        post.s_voting(ve.id@) is None,
        forall|id2: Seq<u8>|
            id2 != ve.id@ ==> #[trigger] post.s_voting(id2) == pre.s_voting(id2),
        count_for(post.ledger@, ve.id@) == 0,
{
    let id = ve.id@;
    let ch = ve.voting.call_hash@;
    let vs_old = pre.votings@;
    let vs_new = post.votings@;
    let l_old = pre.ledger@;
    let l_new = post.ledger@;
    assert(ventry_key()(ve) == id);
    assert(centry_key()(removed_call) == ch);
    assert(centry_wf(removed_call, vs_old));
    lemma_klookup_index(vs_old, ventry_key(), vidx);
    lemma_klookup_index(pre.calls@, centry_key(), cidx);
    lemma_kindex(vs_old, ventry_key(), id);
    assert(kindex(vs_old, ventry_key(), id) == vidx);
    lemma_kindex(pre.calls@, centry_key(), ch);
    assert(kindex(pre.calls@, centry_key(), ch) == cidx);
    lemma_kunique_remove(vs_old, ventry_key(), vidx);
    assert forall|id2: Seq<u8>| true implies #[trigger] klookup(vs_new, ventry_key(), id2) == (
    if id2 == id {
        None
    } else {
        klookup(vs_old, ventry_key(), id2)
    }) by {
        lemma_klookup_remove(vs_old, ventry_key(), vidx, id2);
    }
    assert forall|dx: Seq<u8>| true implies #[trigger] refs_for(vs_new, dx) == refs_for(vs_old, dx)
        - (if dx == ch {
        1nat
    } else {
        0nat
    }) by {
        lemma_refs_remove(vs_old, vidx, dx);
    }
    crate::ledger::lemma_purge_elements(l_old, id);
    crate::ledger::lemma_purge_aggregates(l_old, id, id);
    // the calls store after the release
    if removed_call.refs > 1 {
        assert forall|dx: Seq<u8>| true implies #[trigger] klookup(post.calls@, centry_key(), dx)
            == (if dx == ch {
            Some(post.calls@[cidx])
        } else {
            klookup(pre.calls@, centry_key(), dx)
        }) by {
            lemma_klookup_update(pre.calls@, centry_key(), cidx, post.calls@[cidx], dx);
        }
        lemma_klookup_update(pre.calls@, centry_key(), cidx, post.calls@[cidx], ch);
    } else {
        lemma_kunique_remove(pre.calls@, centry_key(), cidx);
        assert forall|dx: Seq<u8>| true implies #[trigger] klookup(post.calls@, centry_key(), dx)
            == (if dx == ch {
            None
        } else {
            klookup(pre.calls@, centry_key(), dx)
        }) by {
            lemma_klookup_remove(pre.calls@, centry_key(), cidx, dx);
        }
        // the released reference was the last: nothing names the digest now
        lemma_refs_zero(vs_new, ch);
    }
    // every remaining call entry's count matches the new registry
    assert forall|i: int| 0 <= i < post.calls@.len() implies centry_wf(
        #[trigger] post.calls@[i],
        vs_new,
    ) by {
        lemma_klookup_index(post.calls@, centry_key(), i);
        let c = post.calls@[i];
        if removed_call.refs > 1 {
            if i == cidx {
            } else {
                assert(c == pre.calls@[i]);
                assert(centry_wf(pre.calls@[i], vs_old));
                assert(c.digest@ != ch);
            }
        } else {
            let i2: int = if i < cidx {
                i
            } else {
                i + 1
            };
            assert(c == pre.calls@[i2]);
            assert(centry_wf(pre.calls@[i2], vs_old));
            assert(c.digest@ != ch);
        }
    }
    // every remaining voting still names a stored call
    assert forall|i: int| 0 <= i < vs_new.len() implies klookup(
        post.calls@,
        centry_key(),
        (#[trigger] vs_new[i]).voting.call_hash@,
    ) is Some by {
        let i2: int = if i < vidx {
            i
        } else {
            i + 1
        };
        assert(vs_new[i] == vs_old[i2]);
        assert(klookup(pre.calls@, centry_key(), vs_old[i2].voting.call_hash@) is Some);
        if vs_old[i2].voting.call_hash@ == ch {
            if removed_call.refs == 1 {
                assert(refs_for(vs_new, ch) == 0);
                assert(vs_new[i].voting.call_hash@ != ch);
            }
        }
    }
    // remaining ledger entries still point at remaining votings
    assert forall|i: int| 0 <= i < l_new.len() implies lentry_wf(
        #[trigger] l_new[i],
        vs_new,
    ) by {
        let n = choose|n: int| 0 <= n < l_old.len() && l_new[i] == l_old[n];
        assert(lentry_wf(l_old[n], vs_old));
        assert(l_new[i].id@ != id);
    }
    // remaining tallies match the purged ledger
    assert forall|i: int| 0 <= i < vs_new.len() implies tally_wf(
        #[trigger] vs_new[i],
        l_new,
    ) by {
        let i2: int = if i < vidx {
            i
        } else {
            i + 1
        };
        assert(vs_new[i] == vs_old[i2]);
        assert(tally_wf(vs_old[i2], l_old));
        assert(vs_old[i2].id@ != id);
        crate::ledger::lemma_purge_aggregates(l_old, id, vs_old[i2].id@);
    }
}

/// What `execute` hands back for the caller to act on: the approved call
/// bytes to dispatch, and the author's deposit to release. A dispatch
/// failure is the caller's to log; it never undoes the cleanup.
#[derive(Debug, PartialEq, Eq)]
pub struct ExecuteOutcome {
    /// The stored opaque call, to be dispatched under the caller's weight
    /// limit.
    pub call: Vec<u8>,
    /// The voting's author, owed the deposit back.
    pub author: u64,
    /// The deposit to release to the author.
    pub deposit: u64,
}

/// The deposit release a `close` ends in.
#[derive(Debug, PartialEq, Eq)]
pub struct Refund {
    /// The voting's author, owed the deposit back.
    pub author: u64,
    /// The deposit to release to the author.
    pub amount: u64,
}

/// Why `execute` fails, or `None` when it succeeds: an unknown voting,
/// then a voting nobody voted on, then a tally below the threshold against
/// the live supply.
pub open spec fn spec_execute_err(pre: Engine, id: Seq<u8>, total: u64) -> Option<Error> {
    match pre.s_voting(id) {
        None => Some(Error::UnknownVoting),
        Some(ve) => match ve.tally {
            None => Some(Error::NotVotedYet),
            Some(t) => if !crate::tally::spec_reached(t, ve.voting.threshold, total) {
                Some(Error::ThresholdNotReached)
            } else {
                None
            },
        },
    }
}

/// Why `close` fails, or `None` when it succeeds: an unknown voting, then
/// a caller who is neither the author nor past a set end.
pub open spec fn spec_close_err(pre: Engine, caller: u64, id: Seq<u8>, now: u64) -> Option<Error> {
    match pre.s_voting(id) {
        None => Some(Error::UnknownVoting),
        Some(ve) => if caller == ve.voting.author || (ve.voting.end matches Some(e) && now >= e) {
            None
        } else {
            Some(Error::NotAuthorized)
        },
    }
}

impl Engine {
    /// Executes voting `id`: evaluates its threshold against the live
    /// `total_supply` (queried by the caller at call time, never cached),
    /// and on success reclaims all of the voting's storage and returns the
    /// stored call for dispatch together with the deposit to release.
    /// Anyone may execute; `caller` only names the account acting.
    pub fn execute(&mut self, caller: u64, id: &Vec<u8>, total_supply: u64) -> (r: Result<
        ExecuteOutcome,
        Error,
    >)
        requires
            old(self).inv(),
        ensures
            final(self).inv(),
            match spec_execute_err(*old(self), id@, total_supply) {
                Some(e) => r == Err::<ExecuteOutcome, Error>(e) && *final(self) == *old(self),
                None => {
                    &&& r matches Ok(out) && old(self).s_voting(id@) matches Some(ve) && {
                        &&& out.author == ve.voting.author
                        &&& out.deposit == ve.deposit
                        &&& old(self).s_call(ve.voting.call_hash@) matches Some(c) && out.call@
                            == c.call@
                    }
                    &&& is_cleanup_of(*final(self), *old(self), id@)
                    &&& final(self).s_voting(id@) is None
                    &&& forall|id2: Seq<u8>|
                        id2 != id@ ==> #[trigger] final(self).s_voting(id2) == old(self).s_voting(
                            id2,
                        )
                    &&& count_for(final(self).ledger@, id@) == 0
                },
            },
    {
        let vidx = match self.find_voting_idx(id) {
            None => {
                return Err(Error::UnknownVoting);
            },
            Some(i) => i,
        };
        let t = match self.votings[vidx].tally {
            None => {
                return Err(Error::NotVotedYet);
            },
            Some(t) => t,
        };
        let th = self.votings[vidx].voting.threshold;
        proof {
            assert(ventry_wf(self.votings@[vidx as int]));
        }
        if !t.is_reached(th, total_supply) {
            return Err(Error::ThresholdNotReached);
        }
        proof {
            assert(klookup(self.calls@, centry_key(), self.votings@[vidx as int].voting.call_hash@)
                is Some);
        }
        let cidx = match self.find_call_idx(&self.votings[vidx].voting.call_hash) {
            Some(i) => i,
            None => vstd::pervasive::unreached(),
        };
        let call = copy_bytes(&self.calls[cidx].call);
        let author = self.votings[vidx].voting.author;
        let deposit = self.votings[vidx].deposit;
        let _ = caller;
        let _ = self.cleanup(vidx);
        Ok(ExecuteOutcome { call, author, deposit })
    }

    /// Closes voting `id` without dispatching anything: allowed to the
    /// author at any time, and to anyone once a set end has passed. The
    /// storage reclaimed is identical in shape to `execute`'s.
    pub fn close(&mut self, caller: u64, id: &Vec<u8>, now: u64) -> (r: Result<Refund, Error>)
        requires
            old(self).inv(),
        ensures
            final(self).inv(),
            match spec_close_err(*old(self), caller, id@, now) {
                Some(e) => r == Err::<Refund, Error>(e) && *final(self) == *old(self),
                None => {
                    &&& r matches Ok(out) && old(self).s_voting(id@) matches Some(ve) && {
                        &&& out.author == ve.voting.author
                        &&& out.amount == ve.deposit
                    }
                    &&& is_cleanup_of(*final(self), *old(self), id@)
                    &&& final(self).s_voting(id@) is None
                    &&& forall|id2: Seq<u8>|
                        id2 != id@ ==> #[trigger] final(self).s_voting(id2) == old(self).s_voting(
                            id2,
                        )
                    &&& count_for(final(self).ledger@, id@) == 0
                },
            },
    {
        let vidx = match self.find_voting_idx(id) {
            None => {
                return Err(Error::UnknownVoting);
            },
            Some(i) => i,
        };
        let authorized = caller == self.votings[vidx].voting.author || match self.votings[vidx]
            .voting
            .end {
            Some(e) => now >= e,
            None => false,
        };
        if !authorized {
            return Err(Error::NotAuthorized);
        }
        let author = self.votings[vidx].voting.author;
        let amount = self.votings[vidx].deposit;
        let _ = self.cleanup(vidx);
        Ok(Refund { author, amount })
    }

    /// The stored voting record of `id`, or `None` when no such voting is
    /// live.
    pub fn get_voting(&self, id: &Vec<u8>) -> (r: Option<Voting>)
        requires
            self.inv(),
        ensures
            match r {
                Some(v) => self.s_voting(id@) matches Some(ve) && v.author == ve.voting.author
                    && v.asset == ve.voting.asset && v.start == ve.voting.start && v.end
                    == ve.voting.end && v.threshold == ve.voting.threshold && v.call_hash@
                    == ve.voting.call_hash@,
                None => self.s_voting(id@) is None,
            },
    {
        match self.find_voting_idx(id) {
            Some(i) => Some(self.votings[i].voting.duplicate()),
            None => None,
        }
    }

    /// The tally of voting `id`; `None` when the voting is unknown or
    /// nobody has voted yet.
    pub fn get_tally(&self, id: &Vec<u8>) -> (r: Option<TallyState>)
        requires
            self.inv(),
        ensures
            r == match self.s_voting(id@) {
                Some(ve) => ve.tally,
                None => None::<TallyState>,
            },
    {
        match self.find_voting_idx(id) {
            Some(i) => self.votings[i].tally,
            None => None,
        }
    }

    /// The deposit reserved for voting `id`, or `None` when it is not
    /// live.
    pub fn get_deposit(&self, id: &Vec<u8>) -> (r: Option<u64>)
        requires
            self.inv(),
        ensures
            r == match self.s_voting(id@) {
                Some(ve) => Some(ve.deposit),
                None => None::<u64>,
            },
    {
        match self.find_voting_idx(id) {
            Some(i) => Some(self.votings[i].deposit),
            None => None,
        }
    }

    /// The stored call of `digest`; `UnknownCall` when no live voting
    /// names it.
    pub fn get_call(&self, digest: &Vec<u8>) -> (r: Result<Vec<u8>, Error>)
        requires
            self.inv(),
        ensures
            match r {
                Ok(b) => self.s_call(digest@) matches Some(c) && b@ == c.call@,
                Err(e) => e == Error::UnknownCall && self.s_call(digest@) is None,
            },
    {
        match self.find_call_idx(digest) {
            Some(i) => Ok(copy_bytes(&self.calls[i].call)),
            None => Err(Error::UnknownCall),
        }
    }

    /// Whether `voter` has an open vote on voting `id` of `asset`.
    pub fn has_open_vote(&self, voter: u64, asset: u64, id: &Vec<u8>) -> (r: bool)
        requires
            self.inv(),
        ensures
            r == (self.s_vote(voter, asset, id@) is Some),
    {
        match self.find_vote_idx(voter, asset, id) {
            Some(_) => true,
            None => false,
        }
    }
}

/// A live tally's vote count always equals the number of live ledger
/// entries of its voting: the counters and the ledger never drift apart.
pub proof fn lemma_tally_counts_ledger(e: Engine, id: Seq<u8>, ve: VotingEntry, t: TallyState)
    requires
        e.inv(),
        e.s_voting(id) == Some(ve),
        ve.tally == Some(t),
    ensures
        t.votes == count_for(e.ledger@, id),
{
    lemma_kindex(e.votings@, ventry_key(), id);
    let vi = kindex(e.votings@, ventry_key(), id);
    assert(tally_wf(e.votings@[vi], e.ledger@));
}

/// A live tally's positive stake never exceeds its total stake.
pub proof fn lemma_tally_yas_le_sum(e: Engine, id: Seq<u8>, ve: VotingEntry, t: TallyState)
    requires
        e.inv(),
        e.s_voting(id) == Some(ve),
        ve.tally == Some(t),
    ensures
        t.yas <= t.sum,
{
    lemma_kindex(e.votings@, ventry_key(), id);
    let vi = kindex(e.votings@, ventry_key(), id);
    assert(tally_wf(e.votings@[vi], e.ledger@));
    crate::ledger::lemma_yas_le_sum(e.ledger@, id);
}

} // verus!
