use poba::market::{
    evaluate_pair, filter_counts, FilterCounts, intervals_overlap_ms, kind_to_bit, MarketOffer, MarketRequest, MatchParams,
    PairDistance,
};
use poba::matching::compute_matches_for_market;
use poba::solver::{solve_assignment, PairEval};

fn request(uuid: &str, kind: u8, max: u32, ws: u64, we: u64) -> MarketRequest {
    MarketRequest {
        uuid_16: uuid.to_string(),
        from_lat: 0,
        from_lon: 0,
        to_lat: 0,
        to_lon: 0,
        max_price_cents: max,
        kind,
        window_start: ws,
        window_end: we,
    }
}

fn offer(uuid: &str, min: u32, mask: u32, ws: u64, we: u64) -> MarketOffer {
    MarketOffer {
        uuid_16: uuid.to_string(),
        min_price_cents: min,
        from_lat: 0,
        from_lon: 0,
        to_lat: 0,
        to_lon: 0,
        window_start: ws,
        window_end: we,
        types_mask: mask,
    }
}

fn zero_distances(n: usize, m: usize) -> Vec<Vec<PairDistance>> {
    vec![vec![PairDistance { start_m: 0, end_m: 0 }; m]; n]
}

fn no_overlap_params() -> MatchParams {
    let mut p = MatchParams::defaults();
    p.require_time_overlap = false;
    p
}

#[test]
fn single_feasible_match() {
    let reqs = vec![request("R1", 0, 1000, 0, 10_000)];
    let offs = vec![offer("O1", 500, 1, 0, 10_000)];
    let (total, matches) =
        compute_matches_for_market(1, &reqs, &offs, &no_overlap_params(), &zero_distances(1, 1));
    assert_eq!(matches.len(), 1);
    assert_eq!(matches[0].request_uuid, "R1");
    assert_eq!(matches[0].offer_uuid, "O1");
    assert_eq!(matches[0].agreed_price_cents, 750);
    assert_eq!(matches[0].partial_score, 999_250);
    assert_eq!(total, 999_250);
}

#[test]
fn zero_window_start_rejected_when_overlap_required() {
    let reqs = vec![request("R1", 0, 1000, 0, 10_000)];
    let offs = vec![offer("O1", 500, 1, 0, 10_000)];
    let (total, matches) = compute_matches_for_market(
        1,
        &reqs,
        &offs,
        &MatchParams::defaults(),
        &zero_distances(1, 1),
    );
    assert!(matches.is_empty());
    assert_eq!(total, 0);
}

#[test]
fn overlapping_windows_match_with_defaults() {
    let reqs = vec![request("R1", 0, 1000, 1, 10_000)];
    let offs = vec![offer("O1", 500, 1, 5_000, 20_000)];
    let (total, matches) = compute_matches_for_market(
        1,
        &reqs,
        &offs,
        &MatchParams::defaults(),
        &zero_distances(1, 1),
    );
    assert_eq!(matches.len(), 1);
    assert_eq!(total, 999_250);
}

#[test]
fn type_mismatch() {
    let reqs = vec![request("R1", 0, 1000, 0, 10_000)];
    let offs = vec![offer("O1", 500, 2, 0, 10_000)];
    let (total, matches) =
        compute_matches_for_market(1, &reqs, &offs, &no_overlap_params(), &zero_distances(1, 1));
    assert!(matches.is_empty());
    assert_eq!(total, 0);
}

#[test]
fn unknown_kind_never_matches() {
    let reqs = vec![request("R1", 7, 1000, 0, 10_000)];
    let offs = vec![offer("O1", 500, 0xFFFF_FFFF, 0, 10_000)];
    let (total, matches) =
        compute_matches_for_market(1, &reqs, &offs, &no_overlap_params(), &zero_distances(1, 1));
    assert!(matches.is_empty());
    assert_eq!(total, 0);
}

#[test]
fn price_infeasible() {
    let reqs = vec![request("R1", 0, 1000, 0, 10_000)];
    let offs = vec![offer("O1", 2000, 1, 0, 10_000)];
    let (total, matches) =
        compute_matches_for_market(1, &reqs, &offs, &no_overlap_params(), &zero_distances(1, 1));
    assert!(matches.is_empty());
    assert_eq!(total, 0);
}

#[test]
fn skip_preferred() {
    let reqs = vec![
        request("R1", 0, 200_000_000, 0, 10_000),
        request("R2", 0, 200_000_000, 0, 10_000),
    ];
    let offs = vec![offer("O1", 200_000_000, 1, 0, 10_000)];
    let (total, matches) =
        compute_matches_for_market(1, &reqs, &offs, &no_overlap_params(), &zero_distances(2, 1));
    assert!(matches.is_empty());
    assert_eq!(total, 0);
}

#[test]
fn empty_market_gives_empty_proposal() {
    let (total, matches) = compute_matches_for_market(
        1,
        &Vec::new(),
        &Vec::new(),
        &MatchParams::defaults(),
        &Vec::new(),
    );
    assert!(matches.is_empty());
    assert_eq!(total, 0);
}

#[test]
fn search_beats_greedy_choice() {
    let e = |cost: u64| Some(PairEval { cost, score: 0, agreed_price_cents: 1 });
    let table = vec![vec![e(1), e(2)], vec![e(1), e(100)]];
    let a = solve_assignment(&table, 2, 1000);
    assert_eq!(a, vec![Some(1), Some(0)]);
}

#[test]
fn search_skips_when_cheaper() {
    let e = |cost: u64| Some(PairEval { cost, score: 0, agreed_price_cents: 1 });
    let table = vec![vec![e(50), None], vec![e(5), None]];
    let a = solve_assignment(&table, 2, 10);
    assert_eq!(a, vec![None, Some(0)]);
}

#[test]
fn best_total_score_with_two_offers() {
    let reqs = vec![request("R1", 0, 1000, 0, 0), request("R2", 1, 0, 0, 0)];
    let offs = vec![offer("O1", 600, 3, 0, 0), offer("O2", 100, 2, 0, 0)];
    let (total, matches) =
        compute_matches_for_market(3, &reqs, &offs, &no_overlap_params(), &zero_distances(2, 2));
    // R1 can only take O1 (agreed 800); R2 takes O2 (no cap: agreed 100).
    assert_eq!(matches.len(), 2);
    assert_eq!(matches[0].request_uuid, "R1");
    assert_eq!(matches[0].offer_uuid, "O1");
    assert_eq!(matches[0].agreed_price_cents, 800);
    assert_eq!(matches[1].request_uuid, "R2");
    assert_eq!(matches[1].offer_uuid, "O2");
    assert_eq!(matches[1].partial_score, 999_900);
    assert_eq!(total, 999_200 + 999_900);
    assert!(matches.iter().all(|m| m.partial_score >= 0));
    assert_eq!(total, matches.iter().map(|m| m.partial_score).sum::<i64>());
}

#[test]
fn kind_bits() {
    assert_eq!(kind_to_bit(0), 1);
    assert_eq!(kind_to_bit(1), 2);
    assert_eq!(kind_to_bit(2), 0);
    assert_eq!(kind_to_bit(255), 0);
}

#[test]
fn overlap_rules() {
    assert!(!intervals_overlap_ms(0, 10, 1, 10, 0, 0, 0, true));
    assert!(intervals_overlap_ms(0, 10, 1, 10, 0, 0, 0, false));
    assert!(intervals_overlap_ms(100, 200, 150, 300, 50, 0, 0, true));
    assert!(!intervals_overlap_ms(100, 200, 150, 300, 51, 0, 0, true));
    // Slack widens the offer window.
    assert!(!intervals_overlap_ms(100, 200, 250, 300, 0, 0, 0, true));
    assert!(intervals_overlap_ms(100, 200, 250, 300, 0, 50, 0, true));
    // A negative minimum counts as zero.
    assert!(!intervals_overlap_ms(100, 200, 201, 300, -5, 0, 0, true));
}

fn located_request() -> MarketRequest {
    MarketRequest {
        uuid_16: "R".to_string(),
        from_lat: 32_000_000,
        from_lon: 34_000_000,
        to_lat: 32_100_000,
        to_lon: 34_100_000,
        max_price_cents: 1000,
        kind: 0,
        window_start: 0,
        window_end: 0,
    }
}

fn located_offer() -> MarketOffer {
    MarketOffer {
        uuid_16: "O".to_string(),
        min_price_cents: 500,
        from_lat: 32_001_000,
        from_lon: 34_001_000,
        to_lat: 32_101_000,
        to_lon: 34_101_000,
        window_start: 0,
        window_end: 0,
        types_mask: 1,
    }
}

#[test]
fn penalty_counts_distance_and_price() {
    let d = PairDistance { start_m: 1500, end_m: 2500 };
    let e = evaluate_pair(&located_request(), &located_offer(), &no_overlap_params(), &d).unwrap();
    assert_eq!(e.agreed_price_cents, 750);
    assert_eq!(e.cost, 4750);
    assert_eq!(e.score, 1_000_000 - 4750);
}

#[test]
fn penalty_rounds_half_away_from_zero() {
    let mut p = no_overlap_params();
    p.alpha_milli_per_km = 1500;
    p.beta_milli_per_cent = 0;
    let eval = |m: u32| {
        let d = PairDistance { start_m: m, end_m: 0 };
        evaluate_pair(&located_request(), &located_offer(), &p, &d).unwrap().cost
    };
    assert_eq!(eval(999), 1);
    assert_eq!(eval(1000), 2);
    assert_eq!(eval(1001), 2);
}

#[test]
fn distance_caps() {
    let d = PairDistance { start_m: 1500, end_m: 2500 };
    let mut p = no_overlap_params();
    p.max_start_m = Some(1499);
    assert!(evaluate_pair(&located_request(), &located_offer(), &p, &d).is_none());
    p.max_start_m = Some(1500);
    assert!(evaluate_pair(&located_request(), &located_offer(), &p, &d).is_some());
    p.max_total_m = Some(3999);
    assert!(evaluate_pair(&located_request(), &located_offer(), &p, &d).is_none());
    let mut q = no_overlap_params();
    q.max_end_m = Some(2000);
    assert!(evaluate_pair(&located_request(), &located_offer(), &q, &d).is_none());
}

#[test]
fn missing_coordinates_with_caps_rejected() {
    let d = PairDistance { start_m: 0, end_m: 0 };
    let mut r = located_request();
    r.to_lon = 0;
    let mut p = no_overlap_params();
    assert!(evaluate_pair(&r, &located_offer(), &p, &d).is_some());
    p.max_total_m = Some(1_000_000);
    assert!(evaluate_pair(&r, &located_offer(), &p, &d).is_none());
}

#[test]
fn missing_coordinates_ignore_distance() {
    let far = PairDistance { start_m: 9_000_000, end_m: 9_000_000 };
    let mut r = located_request();
    r.from_lat = 0;
    let e = evaluate_pair(&r, &located_offer(), &no_overlap_params(), &far).unwrap();
    assert_eq!(e.cost, 750);
}

#[test]
fn uncapped_request_pays_offer_minimum() {
    let mut r = located_request();
    r.max_price_cents = 0;
    let mut o = located_offer();
    o.min_price_cents = 0;
    let d = PairDistance { start_m: 0, end_m: 0 };
    let e = evaluate_pair(&r, &o, &no_overlap_params(), &d).unwrap();
    assert_eq!(e.agreed_price_cents, 1);
}

#[test]
fn filter_counters() {
    let reqs = vec![
        request("R1", 0, 1000, 0, 0),
        request("R2", 1, 100, 0, 0),
        request("R3", 5, 0, 0, 0),
    ];
    let offs = vec![offer("O1", 500, 1, 0, 0), offer("O2", 50, 3, 0, 0)];
    let c = filter_counts(&reqs, &offs, &no_overlap_params(), &zero_distances(3, 2));
    // R1: O1 feasible, O2 feasible; R2: O1 type, O2 feasible; R3: both type.
    assert_eq!(
        c,
        FilterCounts {
            total_pairs: 6,
            filtered_by_type: 3,
            filtered_by_price: 0,
            filtered_by_time: 0,
            filtered_by_distance: 0,
            feasible_pairs: 3,
        }
    );
    let mut p = no_overlap_params();
    p.max_total_m = Some(5);
    let mut priced = reqs.clone();
    priced[0].max_price_cents = 100;
    let c = filter_counts(&priced, &offs, &p, &zero_distances(3, 2));
    assert_eq!(c.filtered_by_price, 1);
    assert_eq!(c.filtered_by_distance, 2);
    assert_eq!(c.feasible_pairs, 0);
    let c = filter_counts(&reqs, &offs, &MatchParams::defaults(), &zero_distances(3, 2));
    assert_eq!(c.filtered_by_time, 3);
}
