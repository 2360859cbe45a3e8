use poba::bids::{Error, Event, Pallet};

#[test]
fn index_and_remove_request() {
    let mut p = Pallet::new(4);
    assert_eq!(p.index_request(1, 5, 0, 100, 1, 2, 3, 4, 5, 6, vec![1, 2, 3]), Ok(()));
    assert_eq!(
        p.index_request(1, 5, 0, 100, 1, 2, 3, 4, 5, 6, vec![]),
        Err(Error::AlreadyExists)
    );
    assert_eq!(p.request(5).unwrap().notes, vec![1, 2, 3]);
    assert_eq!(p.request(5).unwrap().owner, 1);
    assert_eq!(p.remove_request(1, 5), Ok(()));
    assert_eq!(p.remove_request(1, 5), Err(Error::NotFound));
    assert_eq!(
        p.events().clone(),
        vec![Event::RequestIndexed(5), Event::RequestRemoved(5)]
    );
}

#[test]
fn long_notes_are_dropped() {
    let mut p = Pallet::new(2);
    p.index_request(1, 6, 1, 0, 0, 0, 0, 0, 0, 0, vec![1, 2, 3]).unwrap();
    assert!(p.request(6).unwrap().notes.is_empty());
}

#[test]
fn index_and_remove_offer() {
    let mut p = Pallet::new(0);
    assert_eq!(p.index_offer(9, 7, 300, 1, 2, 3, 4, 10, 20, 3), Ok(()));
    assert_eq!(p.index_offer(9, 7, 300, 1, 2, 3, 4, 10, 20, 3), Err(Error::AlreadyExists));
    assert_eq!(p.offer(7).unwrap().courier, 9);
    assert_eq!(p.offer(7).unwrap().types_mask, 3);
    assert_eq!(p.remove_offer(9, 7), Ok(()));
    assert!(p.offer(7).is_none());
    assert_eq!(p.remove_offer(9, 7), Err(Error::NotFound));
}
