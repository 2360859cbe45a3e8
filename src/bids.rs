//! The market index: request and offer markers mirrored from the off-chain
//! market by identifier, so that nodes can refer to the same items.
use vstd::prelude::*;
use std::collections::HashMap;

use crate::proposals::{AccountId, Uuid};

verus! {

broadcast use vstd::std_specs::hash::group_hash_axioms;

/// A request as indexed: its essentials and its owner.
#[derive(Clone, Debug)]
pub struct RequestMarker {
    pub uuid_16: Uuid,
    pub owner: AccountId,
    pub kind: u8,
    pub max_price_cents: u32,
    pub window_start: u64,
    pub window_end: u64,
    pub from_lat: i32,
    pub from_lon: i32,
    pub to_lat: i32,
    pub to_lon: i32,
    /// Free text, empty when the submitted notes exceed the bound.
    pub notes: Vec<u8>,
}

/// An offer as indexed: its essentials and its courier.
#[derive(Clone, Copy, Debug, PartialEq, Eq, Structural)]
pub struct OfferMarker {
    pub uuid_16: Uuid,
    pub courier: AccountId,
    pub min_price_cents: u32,
    pub from_lat: i32,
    pub from_lon: i32,
    pub to_lat: i32,
    pub to_lon: i32,
    pub window_start: u64,
    pub window_end: u64,
    pub types_mask: u32,
}

#[derive(Clone, Copy, Debug, PartialEq, Eq, Structural)]
pub enum Event {
    RequestIndexed(Uuid),
    OfferIndexed(Uuid),
    RequestRemoved(Uuid),
    OfferRemoved(Uuid),
}

#[derive(Clone, Copy, Debug, PartialEq, Eq, Structural)]
pub enum Error {
    AlreadyExists,
    NotFound,
}

/// A request marker as a value.
pub struct RequestMarkerView {
    pub uuid_16: Uuid,
    pub owner: AccountId,
    pub kind: u8,
    pub max_price_cents: u32,
    pub window_start: u64,
    pub window_end: u64,
    pub from_lat: i32,
    pub from_lon: i32,
    pub to_lat: i32,
    pub to_lon: i32,
    pub notes: Seq<u8>,
}

impl View for RequestMarker {
    type V = RequestMarkerView;

    open spec fn view(&self) -> RequestMarkerView {
        RequestMarkerView {
            uuid_16: self.uuid_16,
            owner: self.owner,
            kind: self.kind,
            max_price_cents: self.max_price_cents,
            window_start: self.window_start,
            window_end: self.window_end,
            from_lat: self.from_lat,
            from_lon: self.from_lon,
            to_lat: self.to_lat,
            to_lon: self.to_lon,
            notes: self.notes@,
        }
    }
}

/// What the index holds.
pub struct IndexState {
    pub requests: Map<Uuid, RequestMarkerView>,
    pub offers: Map<Uuid, OfferMarker>,
    pub max_notes_len: u32,
    pub events: Seq<Event>,
}

/// The market index.
pub struct Pallet {
    requests: HashMap<Uuid, RequestMarker>,
    offers: HashMap<Uuid, OfferMarker>,
    max_notes_len: u32,
    events: Vec<Event>,
}

impl View for Pallet {
    type V = IndexState;

    closed spec fn view(&self) -> IndexState {
        IndexState {
            requests: self.requests@.map_values(|m: RequestMarker| m@),
            offers: self.offers@,
            max_notes_len: self.max_notes_len,
            events: self.events@,
        }
    }
}

/// The notes kept for a request: as submitted if within the bound, else none.
pub open spec fn kept_notes(notes: Seq<u8>, max_len: u32) -> Seq<u8> {
    if notes.len() <= max_len {
        notes
    } else {
        Seq::empty()
    }
}

/// The outcome of `index_request`.
pub open spec fn index_request_spec(
    s: IndexState,
    m: RequestMarkerView,
) -> (IndexState, Result<(), Error>) {
    if s.requests.contains_key(m.uuid_16) {
        (s, Err(Error::AlreadyExists))
    } else {
        let kept = RequestMarkerView { notes: kept_notes(m.notes, s.max_notes_len), ..m };
        (
            IndexState {
                requests: s.requests.insert(m.uuid_16, kept),
                events: s.events.push(Event::RequestIndexed(m.uuid_16)),
                ..s
            },
            Ok(()),
        )
    }
}

/// The outcome of `index_offer`.
pub open spec fn index_offer_spec(s: IndexState, m: OfferMarker) -> (IndexState, Result<(), Error>) {
    if s.offers.contains_key(m.uuid_16) {
        (s, Err(Error::AlreadyExists))
    } else {
        (
            IndexState {
                offers: s.offers.insert(m.uuid_16, m),
                events: s.events.push(Event::OfferIndexed(m.uuid_16)),
                ..s
            },
            Ok(()),
        )
    }
}

/// The outcome of `remove_request`.
pub open spec fn remove_request_spec(s: IndexState, uuid_16: Uuid) -> (IndexState, Result<(), Error>) {
    if !s.requests.contains_key(uuid_16) {
        (s, Err(Error::NotFound))
    } else {
        (
            IndexState {
                requests: s.requests.remove(uuid_16),
                events: s.events.push(Event::RequestRemoved(uuid_16)),
                ..s
            },
            Ok(()),
        )
    }
}

/// The outcome of `remove_offer`.
pub open spec fn remove_offer_spec(s: IndexState, uuid_16: Uuid) -> (IndexState, Result<(), Error>) {
    if !s.offers.contains_key(uuid_16) {
        (s, Err(Error::NotFound))
    } else {
        (
            IndexState {
                offers: s.offers.remove(uuid_16),
                events: s.events.push(Event::OfferRemoved(uuid_16)),
                ..s
            },
            Ok(()),
        )
    }
}

/// A request marker built from its fields.
pub open spec fn request_marker(
    uuid_16: Uuid,
    owner: AccountId,
    kind: u8,
    max_price_cents: u32,
    window_start: u64,
    window_end: u64,
    from_lat: i32,
    from_lon: i32,
    to_lat: i32,
    to_lon: i32,
    notes: Seq<u8>,
) -> RequestMarkerView {
    RequestMarkerView {
        uuid_16,
        owner,
        kind,
        max_price_cents,
        window_start,
        window_end,
        from_lat,
        from_lon,
        to_lat,
        to_lon,
        notes,
    }
}

/// An offer marker built from its fields.
pub open spec fn offer_marker(
    uuid_16: Uuid,
    courier: AccountId,
    min_price_cents: u32,
    from_lat: i32,
    from_lon: i32,
    to_lat: i32,
    to_lon: i32,
    window_start: u64,
    window_end: u64,
    types_mask: u32,
) -> OfferMarker {
    OfferMarker {
        uuid_16,
        courier,
        min_price_cents,
        from_lat,
        from_lon,
        to_lat,
        to_lon,
        window_start,
        window_end,
        types_mask,
    }
}

impl Pallet {
    /// An empty index that keeps request notes of at most `max_notes_len` bytes.
    pub fn new(max_notes_len: u32) -> (p: Pallet)
        ensures
            p@.requests == Map::<Uuid, RequestMarkerView>::empty(),
            p@.offers == Map::<Uuid, OfferMarker>::empty(),
            p@.max_notes_len == max_notes_len,
            p@.events == Seq::<Event>::empty(),
    {
        let p = Pallet {
            requests: HashMap::new(),
            offers: HashMap::new(),
            max_notes_len,
            events: Vec::new(),
        };
        assert(p@.requests =~= Map::<Uuid, RequestMarkerView>::empty());
        assert(p@.offers =~= Map::<Uuid, OfferMarker>::empty());
        p
    }

    /// Indexes a request owned by `who`; an identifier is indexed at most once.
    pub fn index_request(
        &mut self,
        who: AccountId,
        uuid_16: Uuid,
        kind: u8,
        max_price_cents: u32,
        window_start: u64,
        window_end: u64,
        from_lat: i32,
        from_lon: i32,
        to_lat: i32,
        to_lon: i32,
        notes: Vec<u8>,
    ) -> (r: Result<(), Error>)
        ensures
            (final(self)@, r) == index_request_spec(
                old(self)@,
                request_marker(
                    uuid_16,
                    who,
                    kind,
                    max_price_cents,
                    window_start,
                    window_end,
                    from_lat,
                    from_lon,
                    to_lat,
                    to_lon,
                    notes@,
                ),
            ),
    {
        if self.requests.contains_key(&uuid_16) {
            return Err(Error::AlreadyExists);
        }
        let kept = if notes.len() <= self.max_notes_len as usize {
            notes
        } else {
            Vec::new()
        };
        let marker = RequestMarker {
            uuid_16,
            owner: who,
            kind,
            max_price_cents,
            window_start,
            window_end,
            from_lat,
            from_lon,
            to_lat,
            to_lon,
            notes: kept,
        };
        let ghost v = marker@;
        let ghost s0 = self@;
        self.requests.insert(uuid_16, marker);
        self.events.push(Event::RequestIndexed(uuid_16));
        assert(self@.requests =~= s0.requests.insert(uuid_16, v));
        Ok(())
    }

    /// Indexes an offer of courier `who`; an identifier is indexed at most once.
    pub fn index_offer(
        &mut self,
        who: AccountId,
        uuid_16: Uuid,
        min_price_cents: u32,
        from_lat: i32,
        from_lon: i32,
        to_lat: i32,
        to_lon: i32,
        window_start: u64,
        window_end: u64,
        types_mask: u32,
    ) -> (r: Result<(), Error>)
        ensures
            (final(self)@, r) == index_offer_spec(
                old(self)@,
                offer_marker(
                    uuid_16,
                    who,
                    min_price_cents,
                    from_lat,
                    from_lon,
                    to_lat,
                    to_lon,
                    window_start,
                    window_end,
                    types_mask,
                ),
            ),
    {
        if self.offers.contains_key(&uuid_16) {
            return Err(Error::AlreadyExists);
        }
        let marker = OfferMarker {
            uuid_16,
            courier: who,
            min_price_cents,
            from_lat,
            from_lon,
            to_lat,
            to_lon,
            window_start,
            window_end,
            types_mask,
        };
        let ghost s0 = self@;
        self.offers.insert(uuid_16, marker);
        self.events.push(Event::OfferIndexed(uuid_16));
        assert(self@.requests =~= s0.requests);
        Ok(())
    }

    /// Removes the marker of a request that was closed.
    pub fn remove_request(&mut self, _who: AccountId, uuid_16: Uuid) -> (r: Result<(), Error>)
        ensures
            (final(self)@, r) == remove_request_spec(old(self)@, uuid_16),
    {
        if !self.requests.contains_key(&uuid_16) {
            return Err(Error::NotFound);
        }
        let ghost s0 = self@;
        self.requests.remove(&uuid_16);
        self.events.push(Event::RequestRemoved(uuid_16));
        assert(self@.requests =~= s0.requests.remove(uuid_16));
        Ok(())
    }

    /// Removes the marker of an offer that was closed.
    pub fn remove_offer(&mut self, _who: AccountId, uuid_16: Uuid) -> (r: Result<(), Error>)
        ensures
            (final(self)@, r) == remove_offer_spec(old(self)@, uuid_16),
    {
        if !self.offers.contains_key(&uuid_16) {
            return Err(Error::NotFound);
        }
        let ghost s0 = self@;
        self.offers.remove(&uuid_16);
        self.events.push(Event::OfferRemoved(uuid_16));
        assert(self@.requests =~= s0.requests);
        Ok(())
    }

    /// The marker of an indexed offer, if any.
    pub fn offer(&self, uuid_16: Uuid) -> (r: Option<OfferMarker>)
        ensures
            match r {
                Some(m) => self@.offers.contains_key(uuid_16) && self@.offers[uuid_16] == m,
                None => !self@.offers.contains_key(uuid_16),
            },
    {
        match self.offers.get(&uuid_16) {
            Some(m) => Some(*m),
            None => None,
        }
    }

    /// The marker of an indexed request, if any.
    pub fn request(&self, uuid_16: Uuid) -> (r: Option<&RequestMarker>)
        ensures
            match r {
                Some(m) => self@.requests.contains_key(uuid_16) && self@.requests[uuid_16] == m@,
                None => !self@.requests.contains_key(uuid_16),
            },
    {
        self.requests.get(&uuid_16)
    }

    /// The events recorded so far, oldest first.
    pub fn events(&self) -> (r: &Vec<Event>)
        ensures
            r@ == self@.events,
    {
        &self.events
    }
}

} // verus!
