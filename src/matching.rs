//! From a market snapshot to a proposal: filter every pair, search the
//! cheapest assignment, and list its matches with their scores.
use vstd::prelude::*;
use vstd::set_lib::*;

use crate::market::{
    MarketOffer,
    MarketRequest,
    MatchItem,
    MatchParams,
    PairDistance,
    MAX_BASE_SCORE,
    admissible,
    build_pair_table,
    distances_fit,
    eval_pair,
    pair_table,
};
use crate::solver::{
    PairEval,
    is_best_assignment,
    is_rect,
    solve_assignment,
    table_view,
    valid_assignment,
};

verus! {

/// The match of request `r` with offer `o` under pair evaluation `e`.
pub open spec fn match_item(r: MarketRequest, o: MarketOffer, e: PairEval) -> MatchItem {
    MatchItem {
        request_uuid: r.uuid_16,
        offer_uuid: o.uuid_16,
        agreed_price_cents: e.agreed_price_cents,
        partial_score: e.score,
    }
}

/// The matches that the first `k` choices of assignment `a` make, in request order.
pub open spec fn matches_of(
    reqs: Seq<MarketRequest>,
    offs: Seq<MarketOffer>,
    t: Seq<Seq<Option<PairEval>>>,
    a: Seq<Option<usize>>,
    k: int,
) -> Seq<MatchItem>
    decreases k,
{
    if k <= 0 {
        Seq::empty()
    } else {
        let prev = matches_of(reqs, offs, t, a, k - 1);
        match a[k - 1] {
            None => prev,
            Some(j) => prev.push(match_item(reqs[k - 1], offs[j as int], t[k - 1][j as int]->0)),
        }
    }
}

/// Sum of the partial scores of `items`.
pub open spec fn sum_scores(items: Seq<MatchItem>) -> int
    decreases items.len(),
{
    if items.len() == 0 {
        0
    } else {
        sum_scores(items.drop_last()) + items.last().partial_score
    }
}

/// The offers taken by the first `k` choices of `a`.
pub open spec fn taken_offers(a: Seq<Option<usize>>, k: int) -> Set<int>
    decreases k,
{
    if k <= 0 {
        Set::empty()
    } else {
        match a[k - 1] {
            None => taken_offers(a, k - 1),
            Some(j) => taken_offers(a, k - 1).insert(j as int),
        }
    }
}

proof fn lemma_taken_offers(
    reqs: Seq<MarketRequest>,
    offs: Seq<MarketOffer>,
    t: Seq<Seq<Option<PairEval>>>,
    a: Seq<Option<usize>>,
    m: int,
    k: int,
)
    requires
        valid_assignment(t, a),
        is_rect(t, m),
        0 <= k <= a.len(),
    ensures
        taken_offers(a, k).finite(),
        taken_offers(a, k).len() == matches_of(reqs, offs, t, a, k).len(),
        taken_offers(a, k).subset_of(set_int_range(0, m)),
        forall|x: int| #[trigger]
            taken_offers(a, k).contains(x) ==> exists|q: int| 0 <= q < k && a[q] == Some(x as usize),
    decreases k,
{
    if k > 0 {
        lemma_taken_offers(reqs, offs, t, a, m, k - 1);
        assert(crate::solver::choice_ok(t, k - 1, a[k - 1]));
        if let Some(j) = a[k - 1] {
            if taken_offers(a, k - 1).contains(j as int) {
                let q = choose|q: int| 0 <= q < k - 1 && a[q] == Some(j);
                assert(a[q] != a[k - 1]);
            }
            assert forall|x: int| #[trigger] taken_offers(a, k).contains(x) implies exists|q: int|
                0 <= q < k && a[q] == Some(x as usize) by {
                if x != j as int {
                    assert(taken_offers(a, k - 1).contains(x));
                } else {
                    assert(a[k - 1] == Some(x as usize));
                }
            }
        }
    }
}

/// `ms` are the matches, in request order, of an assignment of least total
/// cost of the market snapshot.
pub open spec fn is_best_matches(
    reqs: Seq<MarketRequest>,
    offs: Seq<MarketOffer>,
    p: MatchParams,
    d: Seq<Vec<PairDistance>>,
    ms: Seq<MatchItem>,
) -> bool {
    let t = pair_table(reqs, offs, p, d);
    exists|a: Seq<Option<usize>>|
        #![trigger is_best_assignment(t, p.skip_cost as int, a)]
        is_best_assignment(t, p.skip_cost as int, a) && ms == matches_of(
            reqs,
            offs,
            t,
            a,
            reqs.len() as int,
        )
}

/// A valid assignment makes no more matches than there are offers.
proof fn lemma_match_count(
    reqs: Seq<MarketRequest>,
    offs: Seq<MarketOffer>,
    t: Seq<Seq<Option<PairEval>>>,
    a: Seq<Option<usize>>,
    m: int,
)
    requires
        valid_assignment(t, a),
        is_rect(t, m),
        0 <= m,
    ensures
        matches_of(reqs, offs, t, a, a.len() as int).len() <= m,
{
    lemma_taken_offers(reqs, offs, t, a, m, a.len() as int);
    lemma_int_range(0, m);
    lemma_len_subset(taken_offers(a, a.len() as int), set_int_range(0, m));
}

/// The proposal that a market snapshot yields: an assignment of least total
/// cost, under the feasibility predicates and the skip cost of `params`, with
/// its matches in request order and its total score.
///
/// `distances[i][j]` holds the great-circle distances of request `i` and
/// offer `j`; they are used only where all eight coordinates are known.
#[verifier::loop_isolation(false)]
pub fn compute_matches_for_market(
    _slot: u64,
    requests: &Vec<MarketRequest>,
    offers: &Vec<MarketOffer>,
    params: &MatchParams,
    distances: &Vec<Vec<PairDistance>>,
) -> (res: (i64, Vec<MatchItem>))
    requires
        offers@.len() <= 64,
        params.wf(),
        distances_fit(distances@, requests@.len() as int, offers@.len() as int),
    ensures
        is_best_matches(requests@, offers@, *params, distances@, res.1@),
        res.0 == sum_scores(res.1@),
        forall|k: int| 0 <= k < res.1@.len() ==> #[trigger] res.1@[k].partial_score >= 0,
{
    let ghost tspec = pair_table(requests@, offers@, *params, distances@);
    let n = requests.len();
    let m = offers.len();
    let table = build_pair_table(requests, offers, params, distances);
    assert(is_rect(table_view(table@), m as int));
    let best = solve_assignment(&table, m, params.skip_cost);
    let ghost tv = table_view(table@);
    let ghost a = best@;
    proof {
        lemma_match_count(requests@, offers@, tv, a, m as int);
    }
    let mut matches: Vec<MatchItem> = Vec::new();
    let mut total: i64 = 0;
    let mut i: usize = 0;
    while i < n
        invariant
            i <= n,
            n == requests@.len(),
            m == offers@.len(),
            best@ == a,
            tv == tspec,
            table_view(table@) == tv,
            valid_assignment(tv, a),
            matches@ == matches_of(requests@, offers@, tv, a, i as int),
            matches_of(requests@, offers@, tv, a, i as int).len() <= matches_of(
                requests@,
                offers@,
                tv,
                a,
                n as int,
            ).len(),
            matches_of(requests@, offers@, tv, a, n as int).len() <= 64,
            total == sum_scores(matches@),
            0 <= total <= matches@.len() * MAX_BASE_SCORE,
            forall|k: int| 0 <= k < matches@.len() ==> #[trigger] matches@[k].partial_score >= 0,
        decreases n - i,
    {
        assert(crate::solver::choice_ok(tv, i as int, a[i as int]));
        if let Some(j) = best[i] {
            let e = table[i][j];
            match e {
                Some(pe) => {
                    let ghost prev = matches@;
                    assert(pe.score >= 0 && pe.score <= MAX_BASE_SCORE) by {
                        assert(table@[i as int]@[j as int] == tv[i as int][j as int]);
                        assert(tv[i as int][j as int] == eval_pair(
                            requests@[i as int],
                            offers@[j as int],
                            *params,
                            distances@[i as int]@[j as int],
                        ));
                    }
                    let item = MatchItem {
                        request_uuid: requests[i].uuid_16.clone(),
                        offer_uuid: offers[j].uuid_16.clone(),
                        agreed_price_cents: pe.agreed_price_cents,
                        partial_score: pe.score,
                    };
                    proof {
                        lemma_matches_grow(requests@, offers@, tv, a, i as int + 1, n as int);
                        assert(prev.len() + 1 <= 64);
                        assert((prev.len() + 1) * MAX_BASE_SCORE == prev.len() * MAX_BASE_SCORE
                            + MAX_BASE_SCORE) by (nonlinear_arith);
                    }
                    matches.push(item);
                    total = total + pe.score;
                    proof {
                        assert(matches@.drop_last() =~= prev);
                    }
                },
                None => {},
            }
        } else {
            proof {
                lemma_matches_grow(requests@, offers@, tv, a, i as int + 1, n as int);
            }
        }
        i = i + 1;
    }
    assert(is_best_assignment(tspec, params.skip_cost as int, a));
    (total, matches)
}

proof fn lemma_matches_grow(
    reqs: Seq<MarketRequest>,
    offs: Seq<MarketOffer>,
    t: Seq<Seq<Option<PairEval>>>,
    a: Seq<Option<usize>>,
    k: int,
    n: int,
)
    requires
        0 <= k <= n,
    ensures
        matches_of(reqs, offs, t, a, k).len() <= matches_of(reqs, offs, t, a, n).len(),
    decreases n - k,
{
    if k < n {
        lemma_matches_grow(reqs, offs, t, a, k + 1, n);
    }
}

/// `item` is the match of request `i` with offer `j`, an admissible pair,
/// with the price and score the filter gives that pair.
pub open spec fn is_pair_match(
    reqs: Seq<MarketRequest>,
    offs: Seq<MarketOffer>,
    p: MatchParams,
    d: Seq<Vec<PairDistance>>,
    item: MatchItem,
    i: int,
    j: int,
) -> bool {
    &&& 0 <= i < reqs.len()
    &&& 0 <= j < offs.len()
    &&& admissible(reqs[i], offs[j], p, d[i]@[j])
    &&& item == match_item(reqs[i], offs[j], eval_pair(reqs[i], offs[j], p, d[i]@[j])->0)
}

/// `item` is the match of some request and offer of the snapshot that form
/// an admissible pair.
pub open spec fn from_admissible_pair(
    reqs: Seq<MarketRequest>,
    offs: Seq<MarketOffer>,
    p: MatchParams,
    d: Seq<Vec<PairDistance>>,
    item: MatchItem,
) -> bool {
    exists|i: int, j: int| #[trigger] is_pair_match(reqs, offs, p, d, item, i, j)
}

/// `item` is the match of request `i` with the offer `j` it takes in `a`,
/// an admissible pair.
pub open spec fn sourced_at(
    reqs: Seq<MarketRequest>,
    offs: Seq<MarketOffer>,
    p: MatchParams,
    d: Seq<Vec<PairDistance>>,
    a: Seq<Option<usize>>,
    item: MatchItem,
    i: int,
    j: usize,
) -> bool {
    &&& 0 <= i < reqs.len()
    &&& 0 <= j < offs.len()
    &&& a[i] == Some(j)
    &&& admissible(reqs[i], offs[j as int], p, d[i]@[j as int])
    &&& item == match_item(
        reqs[i],
        offs[j as int],
        eval_pair(reqs[i], offs[j as int], p, d[i]@[j as int])->0,
    )
}

/// `item` is the match of some request `i < k` with the offer it takes in `a`.
pub open spec fn sourced(
    reqs: Seq<MarketRequest>,
    offs: Seq<MarketOffer>,
    p: MatchParams,
    d: Seq<Vec<PairDistance>>,
    a: Seq<Option<usize>>,
    item: MatchItem,
    k: int,
) -> bool {
    exists|i: int, j: usize| i < k && #[trigger] sourced_at(reqs, offs, p, d, a, item, i, j)
}

/// Each of the matches of the first `k` choices comes from an earlier row and
/// the offer that row took, an admissible pair.
proof fn lemma_match_sources(
    reqs: Seq<MarketRequest>,
    offs: Seq<MarketOffer>,
    p: MatchParams,
    d: Seq<Vec<PairDistance>>,
    t: Seq<Seq<Option<PairEval>>>,
    a: Seq<Option<usize>>,
    k: int,
)
    requires
        t == pair_table(reqs, offs, p, d),
        valid_assignment(t, a),
        distances_fit(d, reqs.len() as int, offs.len() as int),
        0 <= k <= a.len(),
    ensures
        forall|q: int|
            0 <= q < matches_of(reqs, offs, t, a, k).len() ==> #[trigger] sourced(
                reqs,
                offs,
                p,
                d,
                a,
                matches_of(reqs, offs, t, a, k)[q],
                k,
            ),
    decreases k,
{
    if k > 0 {
        lemma_match_sources(reqs, offs, p, d, t, a, k - 1);
        let prev = matches_of(reqs, offs, t, a, k - 1);
        let cur = matches_of(reqs, offs, t, a, k);
        assert(crate::solver::choice_ok(t, k - 1, a[k - 1]));
        assert forall|q: int| 0 <= q < cur.len() implies #[trigger] sourced(
            reqs,
            offs,
            p,
            d,
            a,
            cur[q],
            k,
        ) by {
            if q < prev.len() {
                assert(cur[q] == prev[q]);
                assert(sourced(reqs, offs, p, d, a, prev[q], k - 1));
                let (i, j) = choose|i: int, j: usize|
                    i < k - 1 && #[trigger] sourced_at(reqs, offs, p, d, a, prev[q], i, j);
                assert(sourced_at(reqs, offs, p, d, a, cur[q], i, j));
            } else {
                let i = k - 1;
                let j = a[k - 1]->0;
                assert(t[i][j as int] == eval_pair(reqs[i], offs[j as int], p, d[i]@[j as int]));
                assert(sourced_at(reqs, offs, p, d, a, cur[q], i, j));
            }
        }
    }
}

/// Every match of a best proposal pairs a request and an offer of the
/// snapshot that pass the type, price, time and distance predicates, with the
/// price and score the filter gives that pair.
pub proof fn lemma_matches_are_admissible(
    reqs: Seq<MarketRequest>,
    offs: Seq<MarketOffer>,
    p: MatchParams,
    d: Seq<Vec<PairDistance>>,
    ms: Seq<MatchItem>,
)
    requires
        distances_fit(d, reqs.len() as int, offs.len() as int),
        is_best_matches(reqs, offs, p, d, ms),
    ensures
        forall|q: int|
            0 <= q < ms.len() ==> #[trigger] from_admissible_pair(reqs, offs, p, d, ms[q]),
{
    let t = pair_table(reqs, offs, p, d);
    let a = choose|a: Seq<Option<usize>>|
        #![trigger is_best_assignment(t, p.skip_cost as int, a)]
        is_best_assignment(t, p.skip_cost as int, a) && ms == matches_of(
            reqs,
            offs,
            t,
            a,
            reqs.len() as int,
        );
    lemma_match_sources(reqs, offs, p, d, t, a, reqs.len() as int);
    assert forall|q: int| 0 <= q < ms.len() implies #[trigger] from_admissible_pair(
        reqs,
        offs,
        p,
        d,
        ms[q],
    ) by {
        assert(sourced(reqs, offs, p, d, a, ms[q], reqs.len() as int));
        let (i, j) = choose|i: int, j: usize|
            i < reqs.len() && #[trigger] sourced_at(reqs, offs, p, d, a, ms[q], i, j);
        assert(sourced_at(reqs, offs, p, d, a, ms[q], i, j));
        assert(is_pair_match(reqs, offs, p, d, ms[q], i, j as int));
    }
}

/// No two requests (offers) of the snapshot share an identifier.
pub open spec fn distinct_market_ids(reqs: Seq<MarketRequest>, offs: Seq<MarketOffer>) -> bool {
    &&& forall|a: int, b: int|
        #![trigger reqs[a], reqs[b]]
        0 <= a < reqs.len() && 0 <= b < reqs.len() && a != b ==> reqs[a].uuid_16 != reqs[b].uuid_16
    &&& forall|a: int, b: int|
        #![trigger offs[a], offs[b]]
        0 <= a < offs.len() && 0 <= b < offs.len() && a != b ==> offs[a].uuid_16 != offs[b].uuid_16
}

proof fn lemma_distinct_upto(
    reqs: Seq<MarketRequest>,
    offs: Seq<MarketOffer>,
    p: MatchParams,
    d: Seq<Vec<PairDistance>>,
    a: Seq<Option<usize>>,
    k: int,
)
    requires
        valid_assignment(pair_table(reqs, offs, p, d), a),
        distances_fit(d, reqs.len() as int, offs.len() as int),
        distinct_market_ids(reqs, offs),
        0 <= k <= a.len(),
    ensures
        ({
            let ms = matches_of(reqs, offs, pair_table(reqs, offs, p, d), a, k);
            forall|x: int, y: int|
                #![trigger ms[x], ms[y]]
                0 <= x < y < ms.len() ==> ms[x].request_uuid != ms[y].request_uuid
                    && ms[x].offer_uuid != ms[y].offer_uuid
        }),
    decreases k,
{
    let t = pair_table(reqs, offs, p, d);
    if k > 0 {
        lemma_distinct_upto(reqs, offs, p, d, a, k - 1);
        lemma_match_sources(reqs, offs, p, d, t, a, k - 1);
        let prev = matches_of(reqs, offs, t, a, k - 1);
        let ms = matches_of(reqs, offs, t, a, k);
        assert(crate::solver::choice_ok(t, k - 1, a[k - 1]));
        if let Some(jn) = a[k - 1] {
            assert forall|x: int, y: int|
                #![trigger ms[x], ms[y]]
                0 <= x < y < ms.len() implies ms[x].request_uuid != ms[y].request_uuid
                    && ms[x].offer_uuid != ms[y].offer_uuid by {
                if y < prev.len() {
                    assert(ms[x] == prev[x] && ms[y] == prev[y]);
                } else {
                    assert(ms[x] == prev[x]);
                    assert(sourced(reqs, offs, p, d, a, prev[x], k - 1));
                    let (i, j) = choose|i: int, j: usize|
                        i < k - 1 && #[trigger] sourced_at(reqs, offs, p, d, a, prev[x], i, j);
                    assert(a[i] != a[k - 1]);
                    assert(reqs[i].uuid_16 != reqs[k - 1].uuid_16);
                    assert(offs[j as int].uuid_16 != offs[jn as int].uuid_16);
                }
            }
        }
    }
}

/// When the snapshot's identifiers are distinct, so are the requests and the
/// offers of a best proposal's matches.
pub proof fn lemma_matches_unique(
    reqs: Seq<MarketRequest>,
    offs: Seq<MarketOffer>,
    p: MatchParams,
    d: Seq<Vec<PairDistance>>,
    ms: Seq<MatchItem>,
)
    requires
        distances_fit(d, reqs.len() as int, offs.len() as int),
        distinct_market_ids(reqs, offs),
        is_best_matches(reqs, offs, p, d, ms),
    ensures
        forall|x: int, y: int|
            #![trigger ms[x], ms[y]]
            0 <= x < y < ms.len() ==> ms[x].request_uuid != ms[y].request_uuid && ms[x].offer_uuid
                != ms[y].offer_uuid,
{
    let t = pair_table(reqs, offs, p, d);
    let a = choose|a: Seq<Option<usize>>|
        #![trigger is_best_assignment(t, p.skip_cost as int, a)]
        is_best_assignment(t, p.skip_cost as int, a) && ms == matches_of(
            reqs,
            offs,
            t,
            a,
            reqs.len() as int,
        );
    lemma_distinct_upto(reqs, offs, p, d, a, reqs.len() as int);
}

} // verus!
