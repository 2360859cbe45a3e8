//! Branch-and-bound search for a minimum-cost partial matching of requests to
//! offers, over a table of admissible pairs.
use vstd::prelude::*;

verus! {

/// What the filter found for one admissible (request, offer) pair.
#[derive(Clone, Copy, Debug, PartialEq, Eq)]
pub struct PairEval {
    /// Penalty of the pair: what the search minimises.
    pub cost: u64,
    /// Score the pair contributes to a proposal.
    pub score: i64,
    /// Price agreed for the pair, in cents.
    pub agreed_price_cents: u32,
}

/// The largest value of a `u64`, as a mathematical integer.
pub open spec fn u64_top() -> int {
    0xFFFF_FFFF_FFFF_FFFF
}

/// A table of exec rows seen as a table of sequences.
pub open spec fn table_view(t: Seq<Vec<Option<PairEval>>>) -> Seq<Seq<Option<PairEval>>> {
    t.map_values(|row: Vec<Option<PairEval>>| row@)
}

/// Every row of `t` has `m` columns.
pub open spec fn is_rect(t: Seq<Seq<Option<PairEval>>>, m: int) -> bool {
    forall|i: int| 0 <= i < t.len() ==> #[trigger] t[i].len() == m
}

/// Choice `c` for request `i`: skip, or an existing offer whose pair is admissible.
pub open spec fn choice_ok(t: Seq<Seq<Option<PairEval>>>, i: int, c: Option<usize>) -> bool {
    match c {
        None => true,
        Some(j) => j < t[i].len() && t[i][j as int] is Some,
    }
}

/// The first `i` choices of `a` are admissible and use no offer twice.
pub open spec fn valid_prefix(t: Seq<Seq<Option<PairEval>>>, a: Seq<Option<usize>>, i: int) -> bool {
    &&& a.len() == t.len()
    &&& 0 <= i <= a.len()
    &&& forall|k: int| 0 <= k < i ==> #[trigger] choice_ok(t, k, a[k])
    &&& forall|k1: int, k2: int|
        #![trigger a[k1], a[k2]]
        0 <= k1 < i && 0 <= k2 < i && k1 != k2 && a[k1] is Some ==> a[k1] != a[k2]
}

/// A complete assignment: one choice per request, admissible, each offer used at most once.
pub open spec fn valid_assignment(t: Seq<Seq<Option<PairEval>>>, a: Seq<Option<usize>>) -> bool {
    valid_prefix(t, a, t.len() as int)
}

/// Cost of choice `c` for request `i`: the pair's penalty, or the skip cost.
pub open spec fn choice_cost(t: Seq<Seq<Option<PairEval>>>, skip: int, i: int, c: Option<usize>) -> int {
    match c {
        None => skip,
        Some(j) => t[i][j as int]->0.cost as int,
    }
}

/// Sum of the choice costs of requests `lo .. hi`.
pub open spec fn cost_range(
    t: Seq<Seq<Option<PairEval>>>,
    skip: int,
    a: Seq<Option<usize>>,
    lo: int,
    hi: int,
) -> int
    decreases hi - lo,
{
    if hi <= lo {
        0
    } else {
        cost_range(t, skip, a, lo, hi - 1) + choice_cost(t, skip, hi - 1, a[hi - 1])
    }
}

/// Total cost of an assignment.
pub open spec fn assignment_cost(t: Seq<Seq<Option<PairEval>>>, skip: int, a: Seq<Option<usize>>) -> int {
    cost_range(t, skip, a, 0, a.len() as int)
}

/// `a` is a valid assignment and no valid assignment costs less.
pub open spec fn is_best_assignment(t: Seq<Seq<Option<PairEval>>>, skip: int, a: Seq<Option<usize>>) -> bool {
    &&& valid_assignment(t, a)
    &&& forall|b: Seq<Option<usize>>|
        #[trigger] valid_assignment(t, b) ==> assignment_cost(t, skip, a) <= assignment_cost(t, skip, b)
}

/// `a` and `b` make the same first `i` choices.
pub open spec fn agrees(a: Seq<Option<usize>>, b: Seq<Option<usize>>, i: int) -> bool {
    forall|k: int| 0 <= k < i ==> #[trigger] a[k] == b[k]
}

/// Some of the first `i` choices of `a` takes offer `j`.
pub open spec fn uses(a: Seq<Option<usize>>, i: int, j: usize) -> bool {
    exists|k: int| 0 <= k < i && a[k] == Some(j)
}

/// Bit `j` of `mask` is set.
pub open spec fn bit(mask: u64, j: u64) -> bool {
    (mask >> j) & 1u64 == 1u64
}

proof fn lemma_bit_insert(mask: u64, j: u64, k: u64)
    requires
        j < 64,
        k < 64,
    ensures
        bit(mask | (1u64 << j), k) <==> (bit(mask, k) || k == j),
{
    assert((((mask | (1u64 << j)) >> k) & 1u64 == 1u64) <==> ((((mask >> k) & 1u64) == 1u64) || k
        == j)) by (bit_vector)
        requires
            j < 64,
            k < 64,
    ;
}

proof fn lemma_bit_empty(k: u64)
    requires
        k < 64,
    ensures
        !bit(0u64, k),
{
    assert(((0u64 >> k) & 1u64) != 1u64) by (bit_vector);
}

proof fn lemma_cost_split(
    t: Seq<Seq<Option<PairEval>>>,
    skip: int,
    a: Seq<Option<usize>>,
    lo: int,
    mid: int,
    hi: int,
)
    requires
        lo <= mid <= hi,
    ensures
        cost_range(t, skip, a, lo, hi) == cost_range(t, skip, a, lo, mid) + cost_range(
            t,
            skip,
            a,
            mid,
            hi,
        ),
    decreases hi - mid,
{
    if hi > mid {
        lemma_cost_split(t, skip, a, lo, mid, hi - 1);
    }
}

proof fn lemma_cost_agree(
    t: Seq<Seq<Option<PairEval>>>,
    skip: int,
    a: Seq<Option<usize>>,
    b: Seq<Option<usize>>,
    lo: int,
    hi: int,
)
    requires
        forall|k: int| lo <= k < hi ==> a[k] == b[k],
    ensures
        cost_range(t, skip, a, lo, hi) == cost_range(t, skip, b, lo, hi),
    decreases hi - lo,
{
    if hi > lo {
        lemma_cost_agree(t, skip, a, b, lo, hi - 1);
    }
}

proof fn lemma_cost_bounds(
    t: Seq<Seq<Option<PairEval>>>,
    skip: int,
    a: Seq<Option<usize>>,
    lo: int,
    hi: int,
)
    requires
        0 <= skip <= u64_top(),
        lo <= hi,
    ensures
        0 <= cost_range(t, skip, a, lo, hi) <= (hi - lo) * u64_top(),
    decreases hi - lo,
{
    if hi > lo {
        lemma_cost_bounds(t, skip, a, lo, hi - 1);
        assert((hi - 1 - lo) * u64_top() + u64_top() == (hi - lo) * u64_top()) by (nonlinear_arith);
    }
}

/// Depth-first branch and bound from request `i`, with the offers in `used`
/// taken by the choices already made in `current` and their cost `acc`.
#[verifier::loop_isolation(false)]
#[verifier::rlimit(60)]
fn search(
    t: &Vec<Vec<Option<PairEval>>>,
    m: usize,
    skip: u64,
    i: usize,
    used: u64,
    acc: u128,
    best_cost: &mut u128,
    current: &mut Vec<Option<usize>>,
    best_assign: &mut Vec<Option<usize>>,
)
    requires
        is_rect(table_view(t@), m as int),
        m <= 64,
        i <= t@.len(),
        old(current)@.len() == t@.len(),
        old(best_assign)@.len() == t@.len(),
        valid_prefix(table_view(t@), old(current)@, i as int),
        forall|k: int| i <= k < t@.len() ==> old(current)@[k] is None,
        forall|j: usize|
            j < 64 ==> (bit(used, j as u64) <==> #[trigger] uses(old(current)@, i as int, j)),
        acc == cost_range(table_view(t@), skip as int, old(current)@, 0, i as int),
        *old(best_cost) < u128::MAX ==> valid_assignment(table_view(t@), old(best_assign)@)
            && assignment_cost(table_view(t@), skip as int, old(best_assign)@) == *old(best_cost),
    ensures
        final(current)@ == old(current)@,
        final(best_assign)@.len() == t@.len(),
        *final(best_cost) <= *old(best_cost),
        *final(best_cost) < u128::MAX ==> valid_assignment(table_view(t@), final(best_assign)@)
            && assignment_cost(table_view(t@), skip as int, final(best_assign)@) == *final(best_cost),
        forall|b: Seq<Option<usize>>|
            #[trigger] valid_assignment(table_view(t@), b) && agrees(b, old(current)@, i as int)
                ==> *final(best_cost) <= assignment_cost(table_view(t@), skip as int, b),
    decreases t@.len() - i,
{
    let ghost tv = table_view(t@);
    let ghost cur0 = current@;
    let ghost sk = skip as int;
    let n = t.len();
    proof {
        lemma_cost_bounds(tv, sk, cur0, 0, i as int);
    }
    if i == n {
        if acc < *best_cost {
            *best_cost = acc;
            let mut k: usize = 0;
            while k < n
                invariant
                    k <= n,
                    best_assign@.len() == n,
                    current@ == cur0,
                    forall|q: int| 0 <= q < k ==> best_assign@[q] == cur0[q],
                decreases n - k,
            {
                best_assign.set(k, current[k]);
                k = k + 1;
            }
            assert(best_assign@ =~= cur0);
        }
        assert forall|b: Seq<Option<usize>>|
            #[trigger] valid_assignment(tv, b) && agrees(b, cur0, i as int) implies *best_cost
            <= assignment_cost(tv, sk, b) by {
            lemma_cost_agree(tv, sk, b, cur0, 0, i as int);
        }
        return ;
    }
    if acc >= *best_cost {
        assert forall|b: Seq<Option<usize>>|
            #[trigger] valid_assignment(tv, b) && agrees(b, cur0, i as int) implies *best_cost
            <= assignment_cost(tv, sk, b) by {
            lemma_cost_agree(tv, sk, b, cur0, 0, i as int);
            lemma_cost_split(tv, sk, b, 0, i as int, n as int);
            lemma_cost_bounds(tv, sk, b, i as int, n as int);
        }
        return ;
    }
    let ghost best0 = *best_cost;
    assert(i < n);
    assert(tv[i as int].len() == m);
    let mut j: usize = 0;
    while j < m
        invariant
            j <= m,
            current@ == cur0,
            best_assign@.len() == n,
            *best_cost <= best0,
            *best_cost < u128::MAX ==> valid_assignment(tv, best_assign@) && assignment_cost(
                tv,
                sk,
                best_assign@,
            ) == *best_cost,
            forall|b: Seq<Option<usize>>|
                #[trigger] valid_assignment(tv, b) && agrees(b, cur0, i as int) && b[i as int] is Some
                    && b[i as int]->0 < j ==> *best_cost <= assignment_cost(tv, sk, b),
        decreases m - j,
    {
        let taken = (used >> (j as u64)) & 1u64 == 1u64;
        let entry = t[i][j];
        if !taken {
            if let Some(pe) = entry {
                assert(acc + pe.cost <= (i + 1) * u64_top()) by (nonlinear_arith)
                    requires
                        acc <= i * u64_top(),
                        pe.cost <= u64_top(),
                ;
                assert((i + 1) * u64_top() <= u64_top() * u64_top()) by (nonlinear_arith)
                    requires
                        i + 1 <= u64_top(),
                ;
                let new_cost = acc + pe.cost as u128;
                if new_cost < *best_cost {
                    current.set(i, Some(j));
                    let ghost cur1 = current@;
                    proof {
                        assert(!uses(cur0, i as int, j));
                        assert forall|k1: int, k2: int|
                            #![trigger cur1[k1], cur1[k2]]
                            0 <= k1 < i + 1 && 0 <= k2 < i + 1 && k1 != k2 && cur1[k1] is Some
                                implies cur1[k1] != cur1[k2] by {
                            if k1 == i {
                                assert(!(cur0[k2] == Some(j)));
                            } else if k2 == i {
                                assert(!(cur0[k1] == Some(j)));
                            }
                        }
                        assert forall|k: int| 0 <= k < i + 1 implies #[trigger] choice_ok(
                            tv,
                            k,
                            cur1[k],
                        ) by {
                            if k < i {
                                assert(choice_ok(tv, k, cur0[k]));
                            }
                        }
                        assert forall|q: usize| q < 64 implies (bit(used | (1u64 << (j as u64)), q as u64)
                            <==> #[trigger] uses(cur1, i + 1, q)) by {
                            lemma_bit_insert(used, j as u64, q as u64);
                            if uses(cur0, i as int, q) {
                                let k = choose|k: int| 0 <= k < i && cur0[k] == Some(q);
                                assert(cur1[k] == Some(q));
                            }
                            if uses(cur1, i + 1, q) && q != j {
                                let k = choose|k: int| 0 <= k < i + 1 && cur1[k] == Some(q);
                                assert(cur0[k] == Some(q));
                            }
                            if q == j {
                                assert(cur1[i as int] == Some(q));
                            }
                        }
                        lemma_cost_agree(tv, sk, cur0, cur1, 0, i as int);
                    }
                    search(
                        t,
                        m,
                        skip,
                        i + 1,
                        used | (1u64 << (j as u64)),
                        new_cost,
                        best_cost,
                        current,
                        best_assign,
                    );
                    current.set(i, None);
                    assert(current@ =~= cur0);
                    proof {
                        assert forall|b: Seq<Option<usize>>|
                            #[trigger] valid_assignment(tv, b) && agrees(b, cur0, i as int)
                                && b[i as int] is Some && b[i as int]->0 < j + 1 implies *best_cost
                            <= assignment_cost(tv, sk, b) by {
                            if b[i as int]->0 == j {
                                assert(agrees(b, cur1, i + 1));
                            }
                        }
                    }
                } else {
                    proof {
                        assert forall|b: Seq<Option<usize>>|
                            #[trigger] valid_assignment(tv, b) && agrees(b, cur0, i as int)
                                && b[i as int] is Some && b[i as int]->0 < j + 1 implies *best_cost
                            <= assignment_cost(tv, sk, b) by {
                            if b[i as int]->0 == j {
                                lemma_cost_agree(tv, sk, b, cur0, 0, i as int);
                                lemma_cost_split(tv, sk, b, 0, i as int + 1, n as int);
                                lemma_cost_bounds(tv, sk, b, i as int + 1, n as int);
                            }
                        }
                    }
                }
            } else {
                proof {
                    assert forall|b: Seq<Option<usize>>|
                        #[trigger] valid_assignment(tv, b) && agrees(b, cur0, i as int)
                            && b[i as int] is Some && b[i as int]->0 < j + 1 implies *best_cost
                        <= assignment_cost(tv, sk, b) by {
                        if b[i as int]->0 == j {
                            assert(choice_ok(tv, i as int, b[i as int]));
                        }
                    }
                }
            }
        } else {
            proof {
                assert(uses(cur0, i as int, j));
                assert forall|b: Seq<Option<usize>>|
                    #[trigger] valid_assignment(tv, b) && agrees(b, cur0, i as int)
                        && b[i as int] is Some && b[i as int]->0 < j + 1 implies *best_cost
                    <= assignment_cost(tv, sk, b) by {
                    if b[i as int]->0 == j {
                        let k = choose|k: int| 0 <= k < i && cur0[k] == Some(j);
                        assert(b[k] == cur0[k]);
                        assert(b[k] != b[i as int]);
                    }
                }
            }
        }
        j = j + 1;
    }
    assert(acc + skip <= (i + 1) * u64_top()) by (nonlinear_arith)
        requires
            acc <= i * u64_top(),
            skip <= u64_top(),
    ;
    assert((i + 1) * u64_top() <= u64_top() * u64_top()) by (nonlinear_arith)
        requires
            i + 1 <= u64_top(),
    ;
    let new_cost = acc + skip as u128;
    let ghost best_mid = *best_cost;
    if new_cost < *best_cost {
        proof {
            assert forall|q: usize| q < 64 implies (bit(used, q as u64) <==> #[trigger] uses(
                cur0,
                i + 1,
                q,
            )) by {
                if uses(cur0, i + 1, q) {
                    let k = choose|k: int| 0 <= k < i + 1 && cur0[k] == Some(q);
                    assert(k < i);
                    assert(uses(cur0, i as int, q));
                }
                if uses(cur0, i as int, q) {
                    let k = choose|k: int| 0 <= k < i && cur0[k] == Some(q);
                    assert(uses(cur0, i + 1, q));
                }
            }
        }
        search(t, m, skip, i + 1, used, new_cost, best_cost, current, best_assign);
    }
    assert forall|b: Seq<Option<usize>>|
        #[trigger] valid_assignment(tv, b) && agrees(b, cur0, i as int) implies *best_cost
        <= assignment_cost(tv, sk, b) by {
        if b[i as int] is None {
            if new_cost < best_mid {
                assert(agrees(b, cur0, i + 1));
            } else {
                lemma_cost_agree(tv, sk, b, cur0, 0, i as int);
                lemma_cost_split(tv, sk, b, 0, i as int + 1, n as int);
                lemma_cost_bounds(tv, sk, b, i as int + 1, n as int);
            }
        } else {
            assert(choice_ok(tv, i as int, b[i as int]));
        }
    }
}

/// An assignment of `n` requests that skips them all.
fn unassigned(n: usize) -> (a: Vec<Option<usize>>)
    ensures
        a@.len() == n,
        forall|q: int| 0 <= q < n ==> a@[q] is None,
{
    let mut a: Vec<Option<usize>> = Vec::new();
    let mut k: usize = 0;
    while k < n
        invariant
            k <= n,
            a@.len() == k,
            forall|q: int| 0 <= q < k ==> a@[q] is None,
        decreases n - k,
    {
        a.push(None);
        k = k + 1;
    }
    a
}

/// Finds an assignment of minimum total cost: each request takes an admissible
/// offer or is skipped at `skip_cost`, and no offer is taken twice. Offers are
/// tried in index order before skipping.
pub fn solve_assignment(t: &Vec<Vec<Option<PairEval>>>, n_offers: usize, skip_cost: u64) -> (a: Vec<
    Option<usize>,
>)
    requires
        is_rect(table_view(t@), n_offers as int),
        n_offers <= 64,
    ensures
        is_best_assignment(table_view(t@), skip_cost as int, a@),
{
    let ghost tv = table_view(t@);
    let n = t.len();
    let mut current = unassigned(n);
    let mut best_assign = unassigned(n);
    let mut best_cost: u128 = u128::MAX;
    proof {
        assert forall|q: usize| q < 64 implies (bit(0u64, q as u64) <==> #[trigger] uses(
            current@,
            0,
            q,
        )) by {
            lemma_bit_empty(q as u64);
        }
        assert(tv.len() == n);
    }
    search(t, n_offers, skip_cost, 0, 0, 0, &mut best_cost, &mut current, &mut best_assign);
    proof {
        let none_all = current@;
        assert(valid_assignment(tv, none_all));
        assert(agrees(none_all, current@, 0));
        lemma_cost_bounds(tv, skip_cost as int, none_all, 0, n as int);
        assert(n * u64_top() < u128::MAX) by (nonlinear_arith)
            requires
                n <= u64_top(),
        ;
    }
    best_assign
}

} // verus!
