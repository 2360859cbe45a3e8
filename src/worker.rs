//! The decisions of the proposer/finalizer worker: which proposal to submit
//! for a slot and which slot to finalize, given what the market and the host
//! ledger returned.
use vstd::prelude::*;

use crate::market::{
    MarketOffer,
    MarketRequest,
    MatchItem,
    MatchParams,
    PairDistance,
    SubmitProposalBody,
    distances_fit,
};
use crate::matching::{compute_matches_for_market, is_best_matches, sum_scores};

verus! {

/// The slot of a best block number: the number itself, saturated to `u64`.
pub fn current_slot_from_client(best_number: u128) -> (slot: u64)
    ensures
        slot == if best_number > u64::MAX {
            u64::MAX as int
        } else {
            best_number as int
        },
{
    if best_number > u64::MAX as u128 {
        u64::MAX
    } else {
        best_number as u64
    }
}

/// `s` holds the character `c`.
pub open spec fn has_char(s: Seq<char>, c: char) -> bool {
    exists|i: int| 0 <= i < s.len() && s[i] == c
}

/// `base` with the query parameter `proposer_id` appended: after `&` if
/// `base` already has a query, else after `?`.
pub fn with_proposer_id(base: &str, proposer_id: &str) -> (url: String)
    ensures
        url@ == base@ + (if has_char(base@, '?') {
            "&"@
        } else {
            "?"@
        }) + "proposer_id="@ + proposer_id@,
{
    let len = base.unicode_len();
    let mut has_query = false;
    let mut i: usize = 0;
    while i < len
        invariant
            i <= len,
            len == base@.len(),
            has_query == exists|k: int| 0 <= k < i && base@[k] == '?',
        decreases len - i,
    {
        if base.get_char(i) == '?' {
            has_query = true;
        }
        i = i + 1;
    }
    let mut url = String::from_str(base);
    if has_query {
        url.append("&");
    } else {
        url.append("?");
    }
    url.append("proposer_id=");
    url.append(proposer_id);
    url
}

/// How a worker takes part: every worker proposes, a finalizer also closes slots.
pub struct WorkerConfig {
    pub is_finalizer: bool,
    /// How many slots behind the current one a finalizer closes.
    pub finalize_lag_slots: u64,
}

/// The worker's one piece of state.
pub struct WorkerState {
    /// The last slot whose finalization the worker saw succeed (0 before any).
    pub last_finalized_local: u64,
}

/// What one iteration of the worker does once the market and the slot are known.
pub struct IterationPlan {
    /// The proposal to submit, if the market yields any match.
    pub proposal: Option<SubmitProposalBody>,
    /// The slot to finalize, if any.
    pub finalize_slot: Option<u64>,
}

/// The slot a finalizer closes at `slot`: `slot - lag` (saturated at 0), if it
/// is past the last slot it finalized.
pub open spec fn finalize_target(cfg: WorkerConfig, st: WorkerState, slot: u64) -> Option<u64> {
    let target = if slot >= cfg.finalize_lag_slots {
        (slot - cfg.finalize_lag_slots) as u64
    } else {
        0u64
    };
    if cfg.is_finalizer && target > 0 && target > st.last_finalized_local {
        Some(target)
    } else {
        None
    }
}

impl WorkerState {
    pub fn new() -> (st: WorkerState)
        ensures
            st.last_finalized_local == 0,
    {
        WorkerState { last_finalized_local: 0 }
    }

    /// The slot to finalize at `slot`, if any.
    pub fn finalize_slot_for(&self, cfg: &WorkerConfig, slot: u64) -> (r: Option<u64>)
        ensures
            r == finalize_target(*cfg, *self, slot),
    {
        let target = slot.saturating_sub(cfg.finalize_lag_slots);
        if cfg.is_finalizer && target > 0 && target > self.last_finalized_local {
            Some(target)
        } else {
            None
        }
    }

    /// Records the outcome of finalizing `slot`: only a success moves the
    /// last finalized slot, so a failure is retried next iteration.
    pub fn record_finalize(&mut self, slot: u64, success: bool)
        ensures
            final(self).last_finalized_local == if success {
                slot
            } else {
                old(self).last_finalized_local
            },
    {
        if success {
            self.last_finalized_local = slot;
        }
    }

    /// Plans one iteration at `slot` on a market snapshot: with requests and
    /// offers on both sides, the best matches become a proposal (if there are
    /// any) and a finalizer picks the slot to close; with either side empty,
    /// the worker waits and does nothing.
    pub fn plan_iteration(
        &self,
        cfg: &WorkerConfig,
        slot: u64,
        requests: &Vec<MarketRequest>,
        offers: &Vec<MarketOffer>,
        params: &MatchParams,
        distances: &Vec<Vec<PairDistance>>,
    ) -> (plan: IterationPlan)
        requires
            offers@.len() <= 64,
            params.wf(),
            distances_fit(distances@, requests@.len() as int, offers@.len() as int),
        ensures
            requests@.len() == 0 || offers@.len() == 0 ==> plan.proposal is None
                && plan.finalize_slot is None,
            requests@.len() > 0 && offers@.len() > 0 ==> {
                &&& plan.finalize_slot == finalize_target(*cfg, *self, slot)
                &&& match plan.proposal {
                    None => is_best_matches(
                        requests@,
                        offers@,
                        *params,
                        distances@,
                        Seq::<MatchItem>::empty(),
                    ),
                    Some(body) => {
                        &&& body.slot == slot
                        &&& body.matches@.len() > 0
                        &&& is_best_matches(requests@, offers@, *params, distances@, body.matches@)
                        &&& body.total_score == sum_scores(body.matches@)
                    },
                }
            },
    {
        if requests.len() == 0 || offers.len() == 0 {
            return IterationPlan { proposal: None, finalize_slot: None };
        }
        let (total_score, matches) = compute_matches_for_market(
            slot,
            requests,
            offers,
            params,
            distances,
        );
        let proposal = if matches.len() == 0 {
            assert(matches@ =~= Seq::<MatchItem>::empty());
            None
        } else {
            Some(SubmitProposalBody { slot, total_score, matches })
        };
        IterationPlan { proposal, finalize_slot: self.finalize_slot_for(cfg, slot) }
    }
}

} // verus!
