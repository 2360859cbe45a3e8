//! Market snapshot types and the feasibility filter that turns each
//! (request, offer) pair into an admissible pair with cost, score and price.
use vstd::prelude::*;

use crate::solver::{PairEval, table_view};

verus! {

/// An open request (a package or a passenger to move), as the market lists it.
#[derive(Debug, Clone)]
pub struct MarketRequest {
    pub uuid_16: String,
    pub from_lat: i32,
    pub from_lon: i32,
    pub to_lat: i32,
    pub to_lon: i32,
    /// Highest price the requester pays, in cents; 0 means no cap.
    pub max_price_cents: u32,
    /// 0 = package, 1 = passenger.
    pub kind: u8,
    pub window_start: u64,
    pub window_end: u64,
}

/// An active courier offer, as the market lists it.
#[derive(Debug, Clone)]
pub struct MarketOffer {
    pub uuid_16: String,
    /// Lowest price the courier accepts, in cents.
    pub min_price_cents: u32,
    pub from_lat: i32,
    pub from_lon: i32,
    pub to_lat: i32,
    pub to_lon: i32,
    pub window_start: u64,
    pub window_end: u64,
    /// Bit 0 = package, bit 1 = passenger.
    pub types_mask: u32,
}

/// One matched (request, offer) pair of a proposal.
#[derive(Debug, Clone)]
pub struct MatchItem {
    pub request_uuid: String,
    pub offer_uuid: String,
    pub agreed_price_cents: u32,
    pub partial_score: i64,
}

/// A proposal for one slot, as handed to the ledger.
#[derive(Debug, Clone)]
pub struct SubmitProposalBody {
    pub slot: u64,
    pub total_score: i64,
    pub matches: Vec<MatchItem>,
}

/// Great-circle distances of one pair, in metres: between the two pickup
/// points and between the two drop-off points.
#[derive(Debug, Clone, Copy, PartialEq, Eq)]
pub struct PairDistance {
    pub start_m: u32,
    pub end_m: u32,
}

/// Largest base score for which the total score of a proposal of up to
/// 64 matches fits an `i64`.
pub const MAX_BASE_SCORE: i64 = 100_000_000_000_000_000;

/// The tunables of the filter and the search.
#[derive(Debug, Clone, Copy, PartialEq, Eq)]
pub struct MatchParams {
    /// Score of a pair before its penalty.
    pub base_score: i64,
    /// Penalty per kilometre, in thousandths.
    pub alpha_milli_per_km: u32,
    /// Penalty per cent of agreed price, in thousandths.
    pub beta_milli_per_cent: u32,
    /// Cost of leaving a request unmatched.
    pub skip_cost: u64,
    /// Caps on the pickup, drop-off and total distance, in metres.
    pub max_start_m: Option<u32>,
    pub max_end_m: Option<u32>,
    pub max_total_m: Option<u32>,
    pub require_time_overlap: bool,
    pub min_overlap_ms: i64,
    pub early_slack_ms: i64,
    pub late_slack_ms: i64,
}

impl MatchParams {
    /// The base score is small enough for a proposal's total to fit an `i64`.
    pub open spec fn wf(&self) -> bool {
        self.base_score <= MAX_BASE_SCORE
    }

    /// The default tunables: base score 1 000 000, 1000 per km, 1 per cent,
    /// skip cost 100 000 000, no distance caps, time overlap required with no
    /// slack.
    pub fn defaults() -> (p: MatchParams)
        ensures
            p.wf(),
            p.base_score == 1_000_000,
            p.alpha_milli_per_km == 1_000_000,
            p.beta_milli_per_cent == 1000,
            p.skip_cost == 100_000_000,
            p.max_start_m is None,
            p.max_end_m is None,
            p.max_total_m is None,
            p.require_time_overlap,
            p.min_overlap_ms == 0,
            p.early_slack_ms == 0,
            p.late_slack_ms == 0,
    {
        MatchParams {
            base_score: 1_000_000,
            alpha_milli_per_km: 1_000_000,
            beta_milli_per_cent: 1000,
            skip_cost: 100_000_000,
            max_start_m: None,
            max_end_m: None,
            max_total_m: None,
            require_time_overlap: true,
            min_overlap_ms: 0,
            early_slack_ms: 0,
            late_slack_ms: 0,
        }
    }
}

/// The `types_mask` bit that serves a request kind; 0 for an unknown kind.
pub open spec fn kind_bit(kind: u8) -> u32 {
    if kind == 0 {
        1
    } else if kind == 1 {
        2
    } else {
        0
    }
}

/// Bit of an offer's `types_mask` that serves a request of the given kind:
/// package (0) is bit 0, passenger (1) is bit 1, any other kind has no bit.
pub fn kind_to_bit(kind: u8) -> (r: u32)
    ensures
        r == kind_bit(kind),
{
    match kind {
        0 => 1,
        1 => 2,
        _ => 0,
    }
}

pub open spec fn min_int(a: int, b: int) -> int {
    if a <= b {
        a
    } else {
        b
    }
}

pub open spec fn max_int(a: int, b: int) -> int {
    if a >= b {
        a
    } else {
        b
    }
}

/// Window `a` and window `b`, widened by the slacks, overlap by at least
/// `min_olap_ms` (and by no negative amount). A zero bound means the window
/// is unknown: then the windows pass exactly when no overlap is required.
pub open spec fn windows_overlap(
    a_start: u64,
    a_end: u64,
    b_start: u64,
    b_end: u64,
    min_olap_ms: i64,
    early_slack_ms: i64,
    late_slack_ms: i64,
    require_overlap: bool,
) -> bool {
    if a_start == 0 || a_end == 0 || b_start == 0 || b_end == 0 {
        !require_overlap
    } else {
        min_int(a_end as int, b_end + late_slack_ms) - max_int(
            a_start as int,
            b_start - early_slack_ms,
        ) >= max_int(0, min_olap_ms as int)
    }
}

/// Time-window overlap test between a request window `a` and an offer
/// window `b` widened by the slacks.
pub fn intervals_overlap_ms(
    a_start: u64,
    a_end: u64,
    b_start: u64,
    b_end: u64,
    min_olap_ms: i64,
    early_slack_ms: i64,
    late_slack_ms: i64,
    require_overlap: bool,
) -> (r: bool)
    ensures
        r == windows_overlap(
            a_start,
            a_end,
            b_start,
            b_end,
            min_olap_ms,
            early_slack_ms,
            late_slack_ms,
            require_overlap,
        ),
{
    if a_start == 0 || a_end == 0 || b_start == 0 || b_end == 0 {
        return !require_overlap;
    }
    let a_s = a_start as i128;
    let a_e = a_end as i128;
    let b_s = b_start as i128 - early_slack_ms as i128;
    let b_e = b_end as i128 + late_slack_ms as i128;
    let lo = if a_s >= b_s {
        a_s
    } else {
        b_s
    };
    let hi = if a_e <= b_e {
        a_e
    } else {
        b_e
    };
    let need: i128 = if min_olap_ms > 0 {
        min_olap_ms as i128
    } else {
        0
    };
    hi - lo >= need
}

/// The request's kind is known and the offer serves it.
pub open spec fn type_ok(r: MarketRequest, o: MarketOffer) -> bool {
    kind_bit(r.kind) != 0 && o.types_mask & kind_bit(r.kind) != 0
}

/// The offer's minimum is within the request's cap, if it has one.
pub open spec fn price_ok(r: MarketRequest, o: MarketOffer) -> bool {
    r.max_price_cents == 0 || o.min_price_cents <= r.max_price_cents
}

/// The windows overlap enough, where the parameters require it.
pub open spec fn time_ok(r: MarketRequest, o: MarketOffer, p: MatchParams) -> bool {
    !p.require_time_overlap || windows_overlap(
        r.window_start,
        r.window_end,
        o.window_start,
        o.window_end,
        p.min_overlap_ms,
        p.early_slack_ms,
        p.late_slack_ms,
        true,
    )
}

/// Some coordinate of the pair is zero, that is unknown.
pub open spec fn coords_missing(r: MarketRequest, o: MarketOffer) -> bool {
    r.from_lat == 0 || r.from_lon == 0 || r.to_lat == 0 || r.to_lon == 0 || o.from_lat == 0
        || o.from_lon == 0 || o.to_lat == 0 || o.to_lon == 0
}

/// Some distance cap is configured.
pub open spec fn any_cap(p: MatchParams) -> bool {
    p.max_start_m is Some || p.max_end_m is Some || p.max_total_m is Some
}

/// Pickup distance used for the pair: zero where coordinates are unknown.
pub open spec fn start_dist(r: MarketRequest, o: MarketOffer, d: PairDistance) -> int {
    if coords_missing(r, o) {
        0
    } else {
        d.start_m as int
    }
}

/// Drop-off distance used for the pair: zero where coordinates are unknown.
pub open spec fn end_dist(r: MarketRequest, o: MarketOffer, d: PairDistance) -> int {
    if coords_missing(r, o) {
        0
    } else {
        d.end_m as int
    }
}

/// `x` is within `cap`, if there is one.
pub open spec fn within(cap: Option<u32>, x: int) -> bool {
    match cap {
        None => true,
        Some(c) => x <= c,
    }
}

/// The pair's distances are within the caps; with unknown coordinates, the
/// pair passes only if no cap is configured.
pub open spec fn distance_ok(r: MarketRequest, o: MarketOffer, p: MatchParams, d: PairDistance) -> bool {
    if coords_missing(r, o) && any_cap(p) {
        false
    } else {
        &&& within(p.max_start_m, start_dist(r, o, d))
        &&& within(p.max_end_m, end_dist(r, o, d))
        &&& within(p.max_total_m, start_dist(r, o, d) + end_dist(r, o, d))
    }
}

/// The pair passes the type, price, time and distance predicates.
pub open spec fn admissible(r: MarketRequest, o: MarketOffer, p: MatchParams, d: PairDistance) -> bool {
    &&& type_ok(r, o)
    &&& price_ok(r, o)
    &&& time_ok(r, o, p)
    &&& distance_ok(r, o, p, d)
}

/// Midpoint of the offer's minimum and the request's cap (the minimum where
/// there is no cap), and at least one cent.
pub open spec fn agreed_price(r: MarketRequest, o: MarketOffer) -> int {
    max_int(
        1,
        if r.max_price_cents > 0 {
            (o.min_price_cents + r.max_price_cents) / 2
        } else {
            o.min_price_cents as int
        },
    )
}

/// `alpha * km + beta * cents`, rounded half away from zero; the weights are
/// in thousandths and the distances in metres.
pub open spec fn penalty(r: MarketRequest, o: MarketOffer, p: MatchParams, d: PairDistance) -> int {
    (p.alpha_milli_per_km * (start_dist(r, o, d) + end_dist(r, o, d)) + 1000
        * p.beta_milli_per_cent * agreed_price(r, o) + 500_000) / 1_000_000
}

/// The pair's score: the base score less the penalty, and at least 0.
pub open spec fn pair_score(r: MarketRequest, o: MarketOffer, p: MatchParams, d: PairDistance) -> int {
    max_int(0, p.base_score - penalty(r, o, p, d))
}

/// What the filter makes of a pair: nothing if it is not admissible.
pub open spec fn eval_pair(r: MarketRequest, o: MarketOffer, p: MatchParams, d: PairDistance) -> Option<
    PairEval,
> {
    if admissible(r, o, p, d) {
        Some(
            PairEval {
                cost: penalty(r, o, p, d) as u64,
                score: pair_score(r, o, p, d) as i64,
                agreed_price_cents: agreed_price(r, o) as u32,
            },
        )
    } else {
        None
    }
}

/// The table of all pairs of a market snapshot.
pub open spec fn pair_table(
    reqs: Seq<MarketRequest>,
    offs: Seq<MarketOffer>,
    p: MatchParams,
    d: Seq<Vec<PairDistance>>,
) -> Seq<Seq<Option<PairEval>>> {
    Seq::new(
        reqs.len(),
        |i: int| Seq::new(offs.len(), |j: int| eval_pair(reqs[i], offs[j], p, d[i]@[j])),
    )
}

/// `d` holds one distance for each (request, offer) pair.
pub open spec fn distances_fit(d: Seq<Vec<PairDistance>>, n: int, m: int) -> bool {
    &&& d.len() == n
    &&& forall|i: int| 0 <= i < n ==> #[trigger] d[i]@.len() == m
}

/// The pair fails the type predicate.
pub const REJECTED_BY_TYPE: u8 = 0;

/// The pair passes the type predicate and fails the price predicate.
pub const REJECTED_BY_PRICE: u8 = 1;

/// The pair passes type and price and fails the time predicate.
pub const REJECTED_BY_TIME: u8 = 2;

/// The pair passes type, price and time and fails the distance predicate.
pub const REJECTED_BY_DISTANCE: u8 = 3;

/// The pair passes all four predicates.
pub const ADMITTED: u8 = 4;

/// The first predicate that the pair fails, in the order type, price, time,
/// distance; `ADMITTED` if none.
pub open spec fn pair_stage(r: MarketRequest, o: MarketOffer, p: MatchParams, d: PairDistance) -> u8 {
    if !type_ok(r, o) {
        REJECTED_BY_TYPE
    } else if !price_ok(r, o) {
        REJECTED_BY_PRICE
    } else if !time_ok(r, o, p) {
        REJECTED_BY_TIME
    } else if !distance_ok(r, o, p, d) {
        REJECTED_BY_DISTANCE
    } else {
        ADMITTED
    }
}

/// Applies the four predicates in order and tells which one rejects the pair.
pub fn admission_stage(r: &MarketRequest, o: &MarketOffer, p: &MatchParams, d: &PairDistance) -> (s:
    u8)
    ensures
        s == pair_stage(*r, *o, *p, *d),
{
    let bit = kind_to_bit(r.kind);
    if bit == 0 || o.types_mask & bit == 0 {
        return REJECTED_BY_TYPE;
    }
    if r.max_price_cents > 0 && o.min_price_cents > r.max_price_cents {
        return REJECTED_BY_PRICE;
    }
    if p.require_time_overlap && !intervals_overlap_ms(
        r.window_start,
        r.window_end,
        o.window_start,
        o.window_end,
        p.min_overlap_ms,
        p.early_slack_ms,
        p.late_slack_ms,
        true,
    ) {
        return REJECTED_BY_TIME;
    }
    let missing = r.from_lat == 0 || r.from_lon == 0 || r.to_lat == 0 || r.to_lon == 0
        || o.from_lat == 0 || o.from_lon == 0 || o.to_lat == 0 || o.to_lon == 0;
    let (d_start, d_end): (u64, u64) = if missing {
        if p.max_start_m.is_some() || p.max_end_m.is_some() || p.max_total_m.is_some() {
            return REJECTED_BY_DISTANCE;
        }
        (0, 0)
    } else {
        (d.start_m as u64, d.end_m as u64)
    };
    if let Some(cap) = p.max_start_m {
        if d_start > cap as u64 {
            return REJECTED_BY_DISTANCE;
        }
    }
    if let Some(cap) = p.max_end_m {
        if d_end > cap as u64 {
            return REJECTED_BY_DISTANCE;
        }
    }
    if let Some(cap) = p.max_total_m {
        if d_start + d_end > cap as u64 {
            return REJECTED_BY_DISTANCE;
        }
    }
    ADMITTED
}

proof fn lemma_penalty_bounds(r: MarketRequest, o: MarketOffer, p: MatchParams, d: PairDistance)
    ensures
        0 <= penalty(r, o, p, d) < 0x80_0000_0000_0000,
        1 <= agreed_price(r, o) <= 0xFFFF_FFFF,
{
    let a = p.alpha_milli_per_km as int;
    let b = p.beta_milli_per_cent as int;
    let dt = start_dist(r, o, d) + end_dist(r, o, d);
    let c = agreed_price(r, o);
    assert(0 <= a * dt <= 0xFFFF_FFFF * 0x1_FFFF_FFFE) by (nonlinear_arith)
        requires
            0 <= a <= 0xFFFF_FFFF,
            0 <= dt <= 0x1_FFFF_FFFE,
    ;
    assert(0 <= 1000 * b * c <= 1000 * 0xFFFF_FFFF * 0xFFFF_FFFF) by (nonlinear_arith)
        requires
            0 <= b <= 0xFFFF_FFFF,
            0 <= c <= 0xFFFF_FFFF,
    ;
}

/// Evaluates one pair: `None` where it fails a predicate, else its penalty,
/// score and agreed price.
pub fn evaluate_pair(r: &MarketRequest, o: &MarketOffer, p: &MatchParams, d: &PairDistance) -> (e:
    Option<PairEval>)
    ensures
        e == eval_pair(*r, *o, *p, *d),
{
    proof {
        lemma_penalty_bounds(*r, *o, *p, *d);
    }
    if admission_stage(r, o, p, d) != ADMITTED {
        return None;
    }
    let missing = r.from_lat == 0 || r.from_lon == 0 || r.to_lat == 0 || r.to_lon == 0
        || o.from_lat == 0 || o.from_lon == 0 || o.to_lat == 0 || o.to_lon == 0;
    let d_total: u64 = if missing {
        0
    } else {
        d.start_m as u64 + d.end_m as u64
    };
    let agreed: u64 = if r.max_price_cents > 0 {
        (o.min_price_cents as u64 + r.max_price_cents as u64) / 2
    } else {
        o.min_price_cents as u64
    };
    let agreed: u64 = if agreed < 1 {
        1
    } else {
        agreed
    };
    let numer: u128 = p.alpha_milli_per_km as u128 * d_total as u128 + 1000 * (
    p.beta_milli_per_cent as u128) * agreed as u128 + 500_000;
    let pen: u128 = numer / 1_000_000;
    let score: i128 = p.base_score as i128 - pen as i128;
    let score: i128 = if score > 0 {
        score
    } else {
        0
    };
    Some(PairEval { cost: pen as u64, score: score as i64, agreed_price_cents: agreed as u32 })
}

/// Evaluates every (request, offer) pair of the snapshot.
#[verifier::loop_isolation(false)]
pub fn build_pair_table(
    requests: &Vec<MarketRequest>,
    offers: &Vec<MarketOffer>,
    params: &MatchParams,
    distances: &Vec<Vec<PairDistance>>,
) -> (t: Vec<Vec<Option<PairEval>>>)
    requires
        distances_fit(distances@, requests@.len() as int, offers@.len() as int),
    ensures
        table_view(t@) == pair_table(requests@, offers@, *params, distances@),
{
    let n = requests.len();
    let m = offers.len();
    let ghost want = pair_table(requests@, offers@, *params, distances@);
    let mut t: Vec<Vec<Option<PairEval>>> = Vec::new();
    let mut i: usize = 0;
    while i < n
        invariant
            i <= n,
            n == requests@.len(),
            m == offers@.len(),
            distances_fit(distances@, n as int, m as int),
            t@.len() == i,
            forall|q: int| 0 <= q < i ==> #[trigger] t@[q]@ == want[q],
        decreases n - i,
    {
        let mut row: Vec<Option<PairEval>> = Vec::new();
        let mut j: usize = 0;
        assert(distances@[i as int]@.len() == m);
        while j < m
            invariant
                i < n,
                j <= m,
                n == requests@.len(),
                m == offers@.len(),
                distances@[i as int]@.len() == m,
                row@.len() == j,
                forall|q: int| 0 <= q < j ==> #[trigger] row@[q] == want[i as int][q],
            decreases m - j,
        {
            let e = evaluate_pair(&requests[i], &offers[j], params, &distances[i][j]);
            row.push(e);
            j = j + 1;
        }
        assert(row@ =~= want[i as int]);
        t.push(row);
        i = i + 1;
    }
    assert(table_view(t@) =~= want);
    t
}

/// How the pairs of a snapshot fared in the filter: each pair is counted
/// once, under the first predicate it fails, or as feasible.
#[derive(Clone, Copy, Debug, PartialEq, Eq, Structural)]
pub struct FilterCounts {
    pub total_pairs: u128,
    pub filtered_by_type: u128,
    pub filtered_by_price: u128,
    pub filtered_by_time: u128,
    pub filtered_by_distance: u128,
    pub feasible_pairs: u128,
}

/// Number of offers `j' < j` whose pair with request `i` is at stage `st`.
pub open spec fn stage_in_row(
    reqs: Seq<MarketRequest>,
    offs: Seq<MarketOffer>,
    p: MatchParams,
    d: Seq<Vec<PairDistance>>,
    st: u8,
    i: int,
    j: int,
) -> nat
    decreases j,
{
    if j <= 0 {
        0
    } else {
        stage_in_row(reqs, offs, p, d, st, i, j - 1) + if pair_stage(
            reqs[i],
            offs[j - 1],
            p,
            d[i]@[j - 1],
        ) == st {
            1nat
        } else {
            0nat
        }
    }
}

/// Number of pairs of the first `i` requests that are at stage `st`.
pub open spec fn stage_count(
    reqs: Seq<MarketRequest>,
    offs: Seq<MarketOffer>,
    p: MatchParams,
    d: Seq<Vec<PairDistance>>,
    st: u8,
    i: int,
) -> nat
    decreases i,
{
    if i <= 0 {
        0
    } else {
        stage_count(reqs, offs, p, d, st, i - 1) + stage_in_row(
            reqs,
            offs,
            p,
            d,
            st,
            i - 1,
            offs.len() as int,
        )
    }
}

proof fn lemma_stage_in_row_bound(
    reqs: Seq<MarketRequest>,
    offs: Seq<MarketOffer>,
    p: MatchParams,
    d: Seq<Vec<PairDistance>>,
    st: u8,
    i: int,
    j: int,
)
    requires
        0 <= j,
    ensures
        stage_in_row(reqs, offs, p, d, st, i, j) <= j,
    decreases j,
{
    if j > 0 {
        lemma_stage_in_row_bound(reqs, offs, p, d, st, i, j - 1);
    }
}

proof fn lemma_stage_count_bound(
    reqs: Seq<MarketRequest>,
    offs: Seq<MarketOffer>,
    p: MatchParams,
    d: Seq<Vec<PairDistance>>,
    st: u8,
    i: int,
)
    requires
        0 <= i,
    ensures
        stage_count(reqs, offs, p, d, st, i) <= i * offs.len(),
    decreases i,
{
    if i > 0 {
        lemma_stage_count_bound(reqs, offs, p, d, st, i - 1);
        lemma_stage_in_row_bound(reqs, offs, p, d, st, i - 1, offs.len() as int);
        assert((i - 1) * offs.len() + offs.len() == i * offs.len()) by (nonlinear_arith);
    }
}

/// The counters of the filter over a snapshot.
#[verifier::loop_isolation(false)]
pub fn filter_counts(
    requests: &Vec<MarketRequest>,
    offers: &Vec<MarketOffer>,
    params: &MatchParams,
    distances: &Vec<Vec<PairDistance>>,
) -> (c: FilterCounts)
    requires
        distances_fit(distances@, requests@.len() as int, offers@.len() as int),
    ensures
        c.total_pairs == requests@.len() * offers@.len(),
        c.filtered_by_type == stage_count(
            requests@,
            offers@,
            *params,
            distances@,
            REJECTED_BY_TYPE,
            requests@.len() as int,
        ),
        c.filtered_by_price == stage_count(
            requests@,
            offers@,
            *params,
            distances@,
            REJECTED_BY_PRICE,
            requests@.len() as int,
        ),
        c.filtered_by_time == stage_count(
            requests@,
            offers@,
            *params,
            distances@,
            REJECTED_BY_TIME,
            requests@.len() as int,
        ),
        c.filtered_by_distance == stage_count(
            requests@,
            offers@,
            *params,
            distances@,
            REJECTED_BY_DISTANCE,
            requests@.len() as int,
        ),
        c.feasible_pairs == stage_count(
            requests@,
            offers@,
            *params,
            distances@,
            ADMITTED,
            requests@.len() as int,
        ),
{
    let ghost (rs, os, p, d) = (requests@, offers@, *params, distances@);
    let n = requests.len();
    let m = offers.len();
    let mut c = FilterCounts {
        total_pairs: 0,
        filtered_by_type: 0,
        filtered_by_price: 0,
        filtered_by_time: 0,
        filtered_by_distance: 0,
        feasible_pairs: 0,
    };
    assert(n * m <= 0xFFFF_FFFF_FFFF_FFFF * 0xFFFF_FFFF_FFFF_FFFF) by (nonlinear_arith)
        requires
            n <= 0xFFFF_FFFF_FFFF_FFFF,
            m <= 0xFFFF_FFFF_FFFF_FFFF,
    ;
    let mut i: usize = 0;
    while i < n
        invariant
            i <= n,
            c.total_pairs == i * m,
            c.filtered_by_type == stage_count(rs, os, p, d, REJECTED_BY_TYPE, i as int),
            c.filtered_by_price == stage_count(rs, os, p, d, REJECTED_BY_PRICE, i as int),
            c.filtered_by_time == stage_count(rs, os, p, d, REJECTED_BY_TIME, i as int),
            c.filtered_by_distance == stage_count(rs, os, p, d, REJECTED_BY_DISTANCE, i as int),
            c.feasible_pairs == stage_count(rs, os, p, d, ADMITTED, i as int),
        decreases n - i,
    {
        assert(distances@[i as int]@.len() == m);
        let mut j: usize = 0;
        while j < m
            invariant
                i < n,
                j <= m,
                c.total_pairs == i * m + j,
                c.filtered_by_type == stage_count(rs, os, p, d, REJECTED_BY_TYPE, i as int)
                    + stage_in_row(rs, os, p, d, REJECTED_BY_TYPE, i as int, j as int),
                c.filtered_by_price == stage_count(rs, os, p, d, REJECTED_BY_PRICE, i as int)
                    + stage_in_row(rs, os, p, d, REJECTED_BY_PRICE, i as int, j as int),
                c.filtered_by_time == stage_count(rs, os, p, d, REJECTED_BY_TIME, i as int)
                    + stage_in_row(rs, os, p, d, REJECTED_BY_TIME, i as int, j as int),
                c.filtered_by_distance == stage_count(rs, os, p, d, REJECTED_BY_DISTANCE, i as int)
                    + stage_in_row(rs, os, p, d, REJECTED_BY_DISTANCE, i as int, j as int),
                c.feasible_pairs == stage_count(rs, os, p, d, ADMITTED, i as int) + stage_in_row(
                    rs,
                    os,
                    p,
                    d,
                    ADMITTED,
                    i as int,
                    j as int,
                ),
            decreases m - j,
        {
            proof {
                assert(i * m + j + 1 <= n * m) by (nonlinear_arith)
                    requires
                        i < n,
                        j < m,
                ;
                let st = pair_stage(rs[i as int], os[j as int], p, d[i as int]@[j as int]);
                lemma_stage_count_bound(rs, os, p, d, st, i as int);
                lemma_stage_in_row_bound(rs, os, p, d, st, i as int, j as int);
                assert(i * m + j <= n * m) by (nonlinear_arith)
                    requires
                        i < n,
                        j < m,
                ;
            }
            let st = admission_stage(&requests[i], &offers[j], params, &distances[i][j]);
            if st == REJECTED_BY_TYPE {
                c.filtered_by_type = c.filtered_by_type + 1;
            } else if st == REJECTED_BY_PRICE {
                c.filtered_by_price = c.filtered_by_price + 1;
            } else if st == REJECTED_BY_TIME {
                c.filtered_by_time = c.filtered_by_time + 1;
            } else if st == REJECTED_BY_DISTANCE {
                c.filtered_by_distance = c.filtered_by_distance + 1;
            } else {
                c.feasible_pairs = c.feasible_pairs + 1;
            }
            c.total_pairs = c.total_pairs + 1;
            j = j + 1;
        }
        assert((i + 1) * m == i * m + m) by (nonlinear_arith);
        i = i + 1;
    }
    c
}

} // verus!
