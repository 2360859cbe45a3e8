use poba::market::{MarketOffer, MarketRequest, MatchParams, PairDistance};
use poba::worker::{current_slot_from_client, with_proposer_id, WorkerConfig, WorkerState};

#[test]
fn proposer_id_query() {
    assert_eq!(
        with_proposer_id("http://b/poba/submit-proposal", "alice"),
        "http://b/poba/submit-proposal?proposer_id=alice"
    );
    assert_eq!(
        with_proposer_id("http://b/x?y=1", "bob"),
        "http://b/x?y=1&proposer_id=bob"
    );
}

#[test]
fn slot_from_best_number() {
    assert_eq!(current_slot_from_client(42), 42);
    assert_eq!(current_slot_from_client(u128::MAX), u64::MAX);
}

#[test]
fn finalize_target_with_lag() {
    let st = WorkerState::new();
    let fin = WorkerConfig { is_finalizer: true, finalize_lag_slots: 1 };
    assert_eq!(st.finalize_slot_for(&fin, 10), Some(9));
    assert_eq!(st.finalize_slot_for(&fin, 1), None);
    let prop = WorkerConfig { is_finalizer: false, finalize_lag_slots: 0 };
    assert_eq!(st.finalize_slot_for(&prop, 10), None);
}

#[test]
fn finalize_progress_only_on_success() {
    let mut st = WorkerState::new();
    let fin = WorkerConfig { is_finalizer: true, finalize_lag_slots: 0 };
    st.record_finalize(5, false);
    assert_eq!(st.last_finalized_local, 0);
    assert_eq!(st.finalize_slot_for(&fin, 5), Some(5));
    st.record_finalize(5, true);
    assert_eq!(st.last_finalized_local, 5);
    assert_eq!(st.finalize_slot_for(&fin, 5), None);
    assert_eq!(st.finalize_slot_for(&fin, 6), Some(6));
}

#[test]
fn plan_iteration_builds_proposal() {
    let reqs = vec![MarketRequest {
        uuid_16: "R1".to_string(),
        from_lat: 0,
        from_lon: 0,
        to_lat: 0,
        to_lon: 0,
        max_price_cents: 1000,
        kind: 0,
        window_start: 1,
        window_end: 10_000,
    }];
    let offs = vec![MarketOffer {
        uuid_16: "O1".to_string(),
        min_price_cents: 500,
        from_lat: 0,
        from_lon: 0,
        to_lat: 0,
        to_lon: 0,
        window_start: 1,
        window_end: 10_000,
        types_mask: 1,
    }];
    let d = vec![vec![PairDistance { start_m: 0, end_m: 0 }]];
    let st = WorkerState::new();
    let fin = WorkerConfig { is_finalizer: true, finalize_lag_slots: 0 };
    let plan = st.plan_iteration(&fin, 12, &reqs, &offs, &MatchParams::defaults(), &d);
    let body = plan.proposal.unwrap();
    assert_eq!(body.slot, 12);
    assert_eq!(body.total_score, 999_250);
    assert_eq!(body.matches.len(), 1);
    assert_eq!(plan.finalize_slot, Some(12));

    let empty = st.plan_iteration(&fin, 12, &reqs, &Vec::new(), &MatchParams::defaults(), &vec![vec![]]);
    assert!(empty.proposal.is_none());
    assert!(empty.finalize_slot.is_none());

    let mut strict = MatchParams::defaults();
    strict.max_total_m = Some(10);
    let none = st.plan_iteration(&fin, 12, &reqs, &offs, &strict, &d);
    assert!(none.proposal.is_none());
    assert_eq!(none.finalize_slot, Some(12));
}
