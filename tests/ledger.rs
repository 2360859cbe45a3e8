use poba::proposals::{validate_winner, Error, Event, Match, Pallet, Proposal};

fn m(req: u128, off: u128, score: i64) -> (u128, u128, u32, i64) {
    (req, off, 100, score)
}

#[test]
fn ledger_improvement() {
    let mut l = Pallet::new();
    assert_eq!(l.submit_proposal(1, 5, 100, vec![m(1, 1, 100)]), Ok(()));
    assert_eq!(l.submit_proposal(2, 5, 80, vec![m(2, 2, 80)]), Ok(()));
    assert_eq!(l.submit_proposal(3, 5, 150, vec![m(3, 3, 150)]), Ok(()));
    let best = l.best_proposal(5).unwrap();
    assert_eq!(best.total_score, 150);
    assert_eq!(best.matches[0].request_uuid, 3);
    let submitted = l
        .events()
        .iter()
        .filter(|e| matches!(e, Event::ProposalSubmitted { slot: 5, .. }))
        .count();
    assert_eq!(submitted, 3);
    assert_eq!(
        l.events()[1],
        Event::ProposalSubmitted { slot: 5, total_score: 80, matches: 1, proposer: 2 }
    );
}

#[test]
fn equal_score_keeps_first_proposal() {
    let mut l = Pallet::new();
    l.submit_proposal(1, 7, 100, vec![m(1, 1, 100)]).unwrap();
    l.submit_proposal(2, 7, 100, vec![m(9, 9, 100)]).unwrap();
    assert_eq!(l.best_proposal(7).unwrap().matches[0].request_uuid, 1);
}

#[test]
fn submit_rejects_empty_and_oversized() {
    let mut l = Pallet::new();
    assert_eq!(l.submit_proposal(1, 1, 0, vec![]), Err(Error::EmptyMatches));
    let big: Vec<_> = (0..257u128).map(|i| m(i, i, 1)).collect();
    assert_eq!(l.submit_proposal(1, 1, 257, big), Err(Error::TooManyMatches));
    let max: Vec<_> = (0..256u128).map(|i| m(i, i, 1)).collect();
    assert_eq!(l.submit_proposal(1, 1, 256, max), Ok(()));
    assert_eq!(l.events().len(), 1);
}

#[test]
fn finalize_moves_best_and_is_one_shot() {
    let mut l = Pallet::new();
    l.submit_proposal(1, 5, 150, vec![m(1, 1, 100), m(2, 2, 50)]).unwrap();
    assert_eq!(l.finalize_slot(1, 5), Ok(()));
    assert!(l.best_proposal(5).is_none());
    assert_eq!(l.finalized_proposal(5).unwrap().total_score, 150);
    assert_eq!(l.last_finalized_slot(), 5);
    assert_eq!(
        *l.events().last().unwrap(),
        Event::SlotFinalized { slot: 5, total_score: 150, matches: 2 }
    );
    assert_eq!(l.finalize_slot(1, 5), Err(Error::SlotAlreadyFinalized));
    l.submit_proposal(1, 5, 999, vec![m(3, 3, 999)]).unwrap();
    assert_eq!(l.finalize_slot(1, 5), Err(Error::SlotAlreadyFinalized));
    assert_eq!(l.finalized_proposal(5).unwrap().total_score, 150);
}

#[test]
fn finalize_without_proposal() {
    let mut l = Pallet::new();
    assert_eq!(l.finalize_slot(1, 3), Err(Error::NoProposalForSlot));
    assert_eq!(l.last_finalized_slot(), 0);
}

#[test]
fn finalize_rejects_invalid_winner() {
    let mut l = Pallet::new();
    l.submit_proposal(1, 4, 150, vec![m(1, 1, 100), m(1, 2, 50)]).unwrap();
    assert_eq!(l.finalize_slot(1, 4), Err(Error::InvalidWinner));
    assert!(l.best_proposal(4).is_some());
    assert!(l.finalized_proposal(4).is_none());

    let mut l2 = Pallet::new();
    l2.submit_proposal(1, 4, 151, vec![m(1, 1, 100), m(2, 2, 50)]).unwrap();
    assert_eq!(l2.finalize_slot(1, 4), Err(Error::InvalidWinner));
}

fn proposal(total: i64, ms: &[(u128, u128, i64)]) -> Proposal {
    Proposal {
        total_score: total,
        matches: ms
            .iter()
            .map(|&(r, o, s)| Match {
                request_uuid: r,
                offer_uuid: o,
                agreed_price_cents: 1,
                partial_score: s,
            })
            .collect(),
    }
}

#[test]
fn winner_validation() {
    assert!(validate_winner(&proposal(30, &[(1, 1, 10), (2, 2, 20)])));
    assert!(!validate_winner(&proposal(30, &[(1, 1, 10), (1, 2, 20)])));
    assert!(!validate_winner(&proposal(30, &[(1, 1, 10), (2, 1, 20)])));
    assert!(!validate_winner(&proposal(31, &[(1, 1, 10), (2, 2, 20)])));
    assert!(validate_winner(&proposal(0, &[])));
    assert!(validate_winner(&proposal(
        -5,
        &[(1, 1, i64::MAX), (2, 2, i64::MIN), (3, 3, -4)]
    )));
}
