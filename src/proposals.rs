//! The proposal ledger: for each slot, the best proposal submitted so far,
//! and the one-shot finalization that validates and installs the winner.
use vstd::prelude::*;
use std::collections::HashMap;

verus! {

broadcast use vstd::std_specs::hash::group_hash_axioms;

/// A 16-byte identifier of a request or an offer.
pub type Uuid = u128;

/// The identity of a signed caller.
pub type AccountId = u64;

/// Upper bound on how many matches a single proposal may include.
pub const MAX_MATCHES_PER_PROPOSAL: usize = 256;

/// A single matched pair (request, offer) with its score contribution.
#[derive(Clone, Copy, Debug, PartialEq, Eq, Structural)]
pub struct Match {
    pub request_uuid: Uuid,
    pub offer_uuid: Uuid,
    pub agreed_price_cents: u32,
    pub partial_score: i64,
}

/// A proposal as stored for a slot.
#[derive(Clone, Debug)]
pub struct Proposal {
    pub total_score: i64,
    pub matches: Vec<Match>,
}

#[derive(Clone, Copy, Debug, PartialEq, Eq, Structural)]
pub enum Event {
    /// A proposal was submitted for `slot`, whether or not it became the best.
    ProposalSubmitted { slot: u64, total_score: i64, matches: u32, proposer: AccountId },
    /// The slot was finalized with the winning proposal.
    SlotFinalized { slot: u64, total_score: i64, matches: u32 },
}

#[derive(Clone, Copy, Debug, PartialEq, Eq, Structural)]
pub enum Error {
    /// The proposal has more matches than allowed.
    TooManyMatches,
    /// No non-empty best proposal exists for the slot.
    NoProposalForSlot,
    /// The proposal has no matches.
    EmptyMatches,
    /// The slot was finalized before.
    SlotAlreadyFinalized,
    /// The best proposal repeats a request or an offer, or its total score is
    /// not the sum of its partial scores.
    InvalidWinner,
}

/// A proposal as a value: its declared total and its matches.
pub struct ProposalView {
    pub total_score: i64,
    pub matches: Seq<Match>,
}

impl View for Proposal {
    type V = ProposalView;

    open spec fn view(&self) -> ProposalView {
        ProposalView { total_score: self.total_score, matches: self.matches@ }
    }
}

/// What the ledger holds.
pub struct LedgerState {
    pub best: Map<u64, ProposalView>,
    pub finalized: Map<u64, ProposalView>,
    pub last_finalized_slot: u64,
    pub events: Seq<Event>,
}

/// The proposal ledger.
pub struct Pallet {
    best: HashMap<u64, Proposal>,
    finalized: HashMap<u64, Proposal>,
    last_finalized_slot: u64,
    events: Vec<Event>,
}

/// The stored proposals as values.
pub open spec fn proposals_view(m: Map<u64, Proposal>) -> Map<u64, ProposalView> {
    m.map_values(|p: Proposal| p@)
}

impl View for Pallet {
    type V = LedgerState;

    closed spec fn view(&self) -> LedgerState {
        LedgerState {
            best: proposals_view(self.best@),
            finalized: proposals_view(self.finalized@),
            last_finalized_slot: self.last_finalized_slot,
            events: self.events@,
        }
    }
}

/// The matches that a list of (request, offer, price, score) tuples describes.
pub open spec fn to_matches(t: Seq<(Uuid, Uuid, u32, i64)>) -> Seq<Match> {
    Seq::new(
        t.len(),
        |i: int|
            Match {
                request_uuid: t[i].0,
                offer_uuid: t[i].1,
                agreed_price_cents: t[i].2,
                partial_score: t[i].3,
            },
    )
}

/// The best proposals after `p` is submitted for `slot`: it is installed if
/// the slot has none yet or if it scores strictly higher.
pub open spec fn merge_best(best: Map<u64, ProposalView>, slot: u64, p: ProposalView) -> Map<
    u64,
    ProposalView,
> {
    if !best.contains_key(slot) || p.total_score > best[slot].total_score {
        best.insert(slot, p)
    } else {
        best
    }
}

/// The outcome of `submit_proposal`: the new state and the result.
pub open spec fn submit_spec(
    s: LedgerState,
    who: AccountId,
    slot: u64,
    total_score: i64,
    matches: Seq<(Uuid, Uuid, u32, i64)>,
) -> (LedgerState, Result<(), Error>) {
    if matches.len() > MAX_MATCHES_PER_PROPOSAL {
        (s, Err(Error::TooManyMatches))
    } else if matches.len() == 0 {
        (s, Err(Error::EmptyMatches))
    } else {
        let p = ProposalView { total_score, matches: to_matches(matches) };
        let e = Event::ProposalSubmitted {
            slot,
            total_score,
            matches: matches.len() as u32,
            proposer: who,
        };
        (LedgerState { best: merge_best(s.best, slot, p), events: s.events.push(e), ..s }, Ok(()))
    }
}

/// No two matches share a request.
pub open spec fn distinct_requests(ms: Seq<Match>) -> bool {
    forall|a: int, b: int|
        #![trigger ms[a], ms[b]]
        0 <= a < b < ms.len() ==> ms[a].request_uuid != ms[b].request_uuid
}

/// No two matches share an offer.
pub open spec fn distinct_offers(ms: Seq<Match>) -> bool {
    forall|a: int, b: int|
        #![trigger ms[a], ms[b]]
        0 <= a < b < ms.len() ==> ms[a].offer_uuid != ms[b].offer_uuid
}

/// Sum of the partial scores of `ms`.
pub open spec fn sum_partial(ms: Seq<Match>) -> int
    decreases ms.len(),
{
    if ms.len() == 0 {
        0
    } else {
        sum_partial(ms.drop_last()) + ms.last().partial_score
    }
}

/// A proposal that may win: no request or offer twice, and a declared total
/// equal to the sum of the partial scores.
pub open spec fn valid_winner(p: ProposalView) -> bool {
    &&& distinct_requests(p.matches)
    &&& distinct_offers(p.matches)
    &&& p.total_score == sum_partial(p.matches)
}

/// The outcome of `finalize_slot`: the new state and the result.
pub open spec fn finalize_spec(s: LedgerState, slot: u64) -> (LedgerState, Result<(), Error>) {
    if s.finalized.contains_key(slot) {
        (s, Err(Error::SlotAlreadyFinalized))
    } else if !s.best.contains_key(slot) || s.best[slot].matches.len() == 0 {
        (s, Err(Error::NoProposalForSlot))
    } else if !valid_winner(s.best[slot]) {
        (s, Err(Error::InvalidWinner))
    } else {
        let w = s.best[slot];
        let e = Event::SlotFinalized {
            slot,
            total_score: w.total_score,
            matches: w.matches.len() as u32,
        };
        (
            LedgerState {
                best: s.best.remove(slot),
                finalized: s.finalized.insert(slot, w),
                last_finalized_slot: slot,
                events: s.events.push(e),
            },
            Ok(()),
        )
    }
}

/// Whether a proposal may win: no request and no offer appears twice, and the
/// declared total equals the sum of the partial scores.
#[verifier::loop_isolation(false)]
pub fn validate_winner(winner: &Proposal) -> (ok: bool)
    ensures
        ok == valid_winner(winner@),
{
    let ms = &winner.matches;
    let len = ms.len();
    let mut i: usize = 0;
    while i < len
        invariant
            i <= len,
            len == ms@.len(),
            forall|a: int, b: int|
                #![trigger ms@[a], ms@[b]]
                0 <= a < i && a < b < len ==> ms@[a].request_uuid != ms@[b].request_uuid
                    && ms@[a].offer_uuid != ms@[b].offer_uuid,
        decreases len - i,
    {
        let mut j: usize = i + 1;
        while j < len
            invariant
                i < len,
                i + 1 <= j <= len,
                len == ms@.len(),
                forall|a: int, b: int|
                    #![trigger ms@[a], ms@[b]]
                    0 <= a < i && a < b < len ==> ms@[a].request_uuid != ms@[b].request_uuid
                        && ms@[a].offer_uuid != ms@[b].offer_uuid,
                forall|b: int|
                    #![trigger ms@[b]]
                    i < b < j ==> ms@[i as int].request_uuid != ms@[b].request_uuid,
                forall|b: int|
                    #![trigger ms@[b]]
                    i < b < j ==> ms@[i as int].offer_uuid != ms@[b].offer_uuid,
            decreases len - j,
        {
            if ms[i].request_uuid == ms[j].request_uuid {
                assert(ms@[i as int].request_uuid == ms@[j as int].request_uuid);
                assert(!distinct_requests(winner@.matches));
                return false;
            }
            if ms[i].offer_uuid == ms[j].offer_uuid {
                assert(ms@[i as int].offer_uuid == ms@[j as int].offer_uuid);
                assert(!distinct_offers(winner@.matches));
                return false;
            }
            assert(ms@[i as int].request_uuid != ms@[j as int].request_uuid);
            assert(ms@[i as int].offer_uuid != ms@[j as int].offer_uuid);
            j = j + 1;
        }
        assert forall|a: int, b: int|
            #![trigger ms@[a], ms@[b]]
            0 <= a < i + 1 && a < b < len implies ms@[a].request_uuid != ms@[b].request_uuid
                && ms@[a].offer_uuid != ms@[b].offer_uuid by {
            if a == i {
                assert(i < b < j);
            }
        }
        i = i + 1;
    }
    let mut sum: i128 = 0;
    let mut k: usize = 0;
    while k < len
        invariant
            k <= len,
            len == ms@.len(),
            sum == sum_partial(ms@.take(k as int)),
            -k * 0x8000_0000_0000_0000 <= sum <= k * 0x8000_0000_0000_0000,
        decreases len - k,
    {
        proof {
            assert(ms@.take(k as int + 1).drop_last() =~= ms@.take(k as int));
            assert(-(k + 1) * 0x8000_0000_0000_0000 == -k * 0x8000_0000_0000_0000
                - 0x8000_0000_0000_0000) by (nonlinear_arith);
            assert((k + 1) * 0x8000_0000_0000_0000 == k * 0x8000_0000_0000_0000
                + 0x8000_0000_0000_0000) by (nonlinear_arith);
            assert(k * 0x8000_0000_0000_0000 < 0x7FFF_FFFF_FFFF_FFFF_8000_0000_0000_0000)
                by (nonlinear_arith)
                requires
                    k < 0xFFFF_FFFF_FFFF_FFFF,
            ;
        }
        sum = sum + ms[k].partial_score as i128;
        k = k + 1;
    }
    assert(ms@.take(len as int) =~= ms@);
    proof {
        assert(distinct_requests(ms@));
        assert(distinct_offers(ms@));
    }
    sum == winner.total_score as i128
}

impl Pallet {
    /// An empty ledger.
    pub fn new() -> (l: Pallet)
        ensures
            l@.best == Map::<u64, ProposalView>::empty(),
            l@.finalized == Map::<u64, ProposalView>::empty(),
            l@.last_finalized_slot == 0,
            l@.events == Seq::<Event>::empty(),
    {
        let l = Pallet {
            best: HashMap::new(),
            finalized: HashMap::new(),
            last_finalized_slot: 0,
            events: Vec::new(),
        };
        assert(l@.best =~= Map::<u64, ProposalView>::empty());
        assert(l@.finalized =~= Map::<u64, ProposalView>::empty());
        l
    }

    /// Submits (or improves) the best proposal for `slot`. The proposal
    /// replaces the stored one only if its total score is strictly higher;
    /// every accepted submission is recorded as an event.
    pub fn submit_proposal(
        &mut self,
        who: AccountId,
        slot: u64,
        total_score: i64,
        matches: Vec<(Uuid, Uuid, u32, i64)>,
    ) -> (r: Result<(), Error>)
        ensures
            (final(self)@, r) == submit_spec(old(self)@, who, slot, total_score, matches@),
    {
        if matches.len() > MAX_MATCHES_PER_PROPOSAL {
            return Err(Error::TooManyMatches);
        }
        if matches.len() == 0 {
            return Err(Error::EmptyMatches);
        }
        let mut tmp: Vec<Match> = Vec::new();
        let mut i: usize = 0;
        while i < matches.len()
            invariant
                i <= matches@.len(),
                tmp@ == to_matches(matches@).take(i as int),
            decreases matches@.len() - i,
        {
            let (rq, of, price, part) = matches[i];
            tmp.push(
                Match { request_uuid: rq, offer_uuid: of, agreed_price_cents: price, partial_score: part },
            );
            assert(tmp@ =~= to_matches(matches@).take(i as int + 1));
            i = i + 1;
        }
        assert(tmp@ =~= to_matches(matches@));
        let matches_len = tmp.len() as u32;
        let proposal = Proposal { total_score, matches: tmp };
        let replace = match self.best.get(&slot) {
            Some(existing) => total_score > existing.total_score,
            None => true,
        };
        if replace {
            self.best.insert(slot, proposal);
        }
        self.events.push(
            Event::ProposalSubmitted { slot, total_score, matches: matches_len, proposer: who },
        );
        proof {
            let want = submit_spec(old(self)@, who, slot, total_score, matches@).0;
            assert(self@.best =~= want.best);
        }
        Ok(())
    }

    /// Finalizes `slot`: its best proposal, once validated, moves to the
    /// finalized proposals and the slot becomes the last finalized one.
    pub fn finalize_slot(&mut self, _who: AccountId, slot: u64) -> (r: Result<(), Error>)
        ensures
            (final(self)@, r) == finalize_spec(old(self)@, slot),
    {
        if self.finalized.contains_key(&slot) {
            return Err(Error::SlotAlreadyFinalized);
        }
        match self.best.get(&slot) {
            None => {
                return Err(Error::NoProposalForSlot);
            },
            Some(w) => {
                if w.matches.len() == 0 {
                    return Err(Error::NoProposalForSlot);
                }
                if !validate_winner(w) {
                    return Err(Error::InvalidWinner);
                }
            },
        }
        let ghost s0 = self@;
        let winner = self.best.remove(&slot);
        match winner {
            Some(w) => {
                let matches_len = w.matches.len() as u32;
                let total_score = w.total_score;
                self.finalized.insert(slot, w);
                self.last_finalized_slot = slot;
                self.events.push(Event::SlotFinalized { slot, total_score, matches: matches_len });
                proof {
                    let want = finalize_spec(s0, slot).0;
                    assert(self@.best =~= want.best);
                    assert(self@.finalized =~= want.finalized);
                }
                Ok(())
            },
            None => Err(Error::NoProposalForSlot),
        }
    }

    /// The best proposal submitted for `slot` so far, if any.
    pub fn best_proposal(&self, slot: u64) -> (r: Option<&Proposal>)
        ensures
            match r {
                Some(p) => self@.best.contains_key(slot) && self@.best[slot] == p@,
                None => !self@.best.contains_key(slot),
            },
    {
        self.best.get(&slot)
    }

    /// The finalized proposal of `slot`, if any.
    pub fn finalized_proposal(&self, slot: u64) -> (r: Option<&Proposal>)
        ensures
            match r {
                Some(p) => self@.finalized.contains_key(slot) && self@.finalized[slot] == p@,
                None => !self@.finalized.contains_key(slot),
            },
    {
        self.finalized.get(&slot)
    }

    /// The last slot that was finalized (0 before any).
    pub fn last_finalized_slot(&self) -> (r: u64)
        ensures
            r == self@.last_finalized_slot,
    {
        self.last_finalized_slot
    }

    /// The events recorded so far, oldest first.
    pub fn events(&self) -> (r: &Vec<Event>)
        ensures
            r@ == self@.events,
    {
        &self.events
    }
}

/// The best proposals after the proposals `ps` are submitted for `slot`, in order.
pub open spec fn best_after(best: Map<u64, ProposalView>, slot: u64, ps: Seq<ProposalView>) -> Map<
    u64,
    ProposalView,
>
    decreases ps.len(),
{
    if ps.len() == 0 {
        best
    } else {
        merge_best(best_after(best, slot, ps.drop_last()), slot, ps.last())
    }
}

/// The highest total score among `ps`.
pub open spec fn max_total(ps: Seq<ProposalView>) -> int
    decreases ps.len(),
{
    if ps.len() <= 1 {
        ps[0].total_score as int
    } else {
        let m = max_total(ps.drop_last());
        if ps.last().total_score > m {
            ps.last().total_score as int
        } else {
            m
        }
    }
}

/// Submitting proposals for a slot that has none leaves as its best one of
/// the highest total score among them, the first such to arrive.
pub proof fn lemma_best_is_max(best: Map<u64, ProposalView>, slot: u64, ps: Seq<ProposalView>)
    requires
        !best.contains_key(slot),
        ps.len() > 0,
    ensures
        best_after(best, slot, ps).contains_key(slot),
        best_after(best, slot, ps)[slot].total_score == max_total(ps),
        exists|k: int|
            0 <= k < ps.len() && best_after(best, slot, ps)[slot] == ps[k] && forall|q: int|
                0 <= q < k ==> #[trigger] ps[q].total_score < ps[k].total_score,
    decreases ps.len(),
{
    if ps.len() == 1 {
        assert(ps.drop_last().len() == 0);
        assert(best_after(best, slot, ps.drop_last()) == best);
        assert(best_after(best, slot, ps)[slot] == ps[0]);
    } else {
        let init = ps.drop_last();
        lemma_best_is_max(best, slot, init);
        let k0 = choose|k: int|
            0 <= k < init.len() && best_after(best, slot, init)[slot] == init[k] && forall|q: int|
                0 <= q < k ==> #[trigger] init[q].total_score < init[k].total_score;
        if ps.last().total_score > max_total(init) {
            let k = ps.len() - 1;
            assert forall|q: int| 0 <= q < k implies #[trigger] ps[q].total_score
                < ps[k].total_score by {
                lemma_max_total_bounds(init, q);
                assert(init[q] == ps[q]);
            }
        } else {
            assert forall|q: int| 0 <= q < k0 implies #[trigger] ps[q].total_score
                < ps[k0].total_score by {
                assert(init[q] == ps[q]);
            }
            assert(ps[k0] == init[k0]);
        }
    }
}

proof fn lemma_max_total_bounds(ps: Seq<ProposalView>, q: int)
    requires
        0 <= q < ps.len(),
    ensures
        ps[q].total_score <= max_total(ps),
    decreases ps.len(),
{
    if ps.len() > 1 && q < ps.len() - 1 {
        lemma_max_total_bounds(ps.drop_last(), q);
    }
}

/// Once a slot has a best proposal, further submissions never lower its
/// total score.
pub proof fn lemma_best_never_decreases(
    best: Map<u64, ProposalView>,
    slot: u64,
    ps: Seq<ProposalView>,
    k: int,
)
    requires
        0 <= k <= ps.len(),
        best_after(best, slot, ps.take(k)).contains_key(slot),
    ensures
        best_after(best, slot, ps).contains_key(slot),
        best_after(best, slot, ps.take(k))[slot].total_score <= best_after(
            best,
            slot,
            ps,
        )[slot].total_score,
    decreases ps.len() - k,
{
    if k < ps.len() {
        let next = ps.take(k + 1);
        assert(next.drop_last() =~= ps.take(k));
        assert(next.last() == ps[k]);
        lemma_best_never_decreases(best, slot, ps, k + 1);
    } else {
        assert(ps.take(k) =~= ps);
    }
}

/// After `finalize_slot` succeeds for a slot, its finalized proposal is the
/// best one it had, and a further `finalize_slot` of it fails with nothing
/// changed.
pub proof fn lemma_finalize_one_shot(s: LedgerState, slot: u64)
    requires
        finalize_spec(s, slot).1 is Ok,
    ensures
        finalize_spec(s, slot).0.finalized[slot] == s.best[slot],
        finalize_spec(finalize_spec(s, slot).0, slot) == (
        finalize_spec(s, slot).0,
        Err::<(), Error>(Error::SlotAlreadyFinalized),
        ),
{
}

/// A finalized proposal is never changed: not by a submission, and not by a
/// finalization of any slot.
pub proof fn lemma_finalized_immutable(
    s: LedgerState,
    slot: u64,
    who: AccountId,
    other: u64,
    total_score: i64,
    matches: Seq<(Uuid, Uuid, u32, i64)>,
)
    requires
        s.finalized.contains_key(slot),
    ensures
        submit_spec(s, who, other, total_score, matches).0.finalized == s.finalized,
        finalize_spec(s, other).0.finalized.contains_key(slot),
        finalize_spec(s, other).0.finalized[slot] == s.finalized[slot],
{
}

/// Replaying a submission, or submitting one that does not score higher than
/// the slot's best, changes no stored proposal; it is only recorded as an event.
pub proof fn lemma_inferior_submission_keeps_best(
    s: LedgerState,
    who: AccountId,
    slot: u64,
    total_score: i64,
    matches: Seq<(Uuid, Uuid, u32, i64)>,
)
    requires
        s.best.contains_key(slot),
        total_score <= s.best[slot].total_score,
    ensures
        submit_spec(s, who, slot, total_score, matches).0.best == s.best,
        submit_spec(s, who, slot, total_score, matches).0.finalized == s.finalized,
        submit_spec(s, who, slot, total_score, matches).1 is Ok ==> submit_spec(
            s,
            who,
            slot,
            total_score,
            matches,
        ).0.events.len() == s.events.len() + 1,
{
}

} // verus!
