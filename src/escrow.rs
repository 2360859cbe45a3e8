//! The escrow ledger: one record per matched pair, advancing from creation
//! through pickup and delivery to confirmation or timeout-based release.
use vstd::prelude::*;
use std::collections::HashMap;

use crate::proposals::{AccountId, Uuid};

verus! {

broadcast use vstd::std_specs::hash::group_hash_axioms;

/// Escrow identifier, independent of the market's identifiers.
pub type EscrowId = u64;

/// Monetary amount held for an assignment.
pub type Balance = u128;

/// Height of the host ledger; deadlines are counted in blocks.
pub type BlockNumber = u64;

/// Delivery state of an assignment.
#[derive(Clone, Copy, Debug, PartialEq, Eq, Structural)]
pub enum DeliveryStatus {
    Created,
    PickedUpByCourier,
    DeliveredByCourier,
    ConfirmedByReceiver,
    TimeoutReleased,
    Cancelled,
    Failed,
}

/// The record of one assignment.
#[derive(Clone, Copy, Debug, PartialEq, Eq, Structural)]
pub struct AssignmentEscrow {
    pub request_uuid: Uuid,
    pub offer_uuid: Uuid,
    pub driver: AccountId,
    pub payer: AccountId,
    pub amount: Balance,
    pub status: DeliveryStatus,
    pub created_at: BlockNumber,
    pub deadline: BlockNumber,
}

#[derive(Clone, Copy, Debug, PartialEq, Eq, Structural)]
pub enum Event {
    EscrowCreated {
        escrow_id: EscrowId,
        request_uuid: Uuid,
        offer_uuid: Uuid,
        driver: AccountId,
        payer: AccountId,
        amount: Balance,
        deadline: BlockNumber,
    },
    PickedUp { escrow_id: EscrowId },
    Delivered { escrow_id: EscrowId },
    ReceiverConfirmed { escrow_id: EscrowId },
    PaymentReleased { escrow_id: EscrowId, amount: Balance },
}

#[derive(Clone, Copy, Debug, PartialEq, Eq, Structural)]
pub enum Error {
    /// The request already has an escrow.
    RequestAlreadyAssigned,
    /// No escrow with this id (or for this request and offer).
    EscrowNotFound,
    /// The escrow is in a terminal state.
    EscrowAlreadyFinal,
    /// The caller is not the escrow's driver.
    NotDriver,
    /// The caller is not the escrow's payer.
    NotPayer,
    /// The escrow is not in the state this step starts from.
    InvalidStatusTransition,
    /// The amount is zero.
    ZeroAmountNotAllowed,
    /// The deadline has not been reached.
    TimeoutNotReached,
}

/// No transition leaves a terminal state.
pub open spec fn is_terminal(s: DeliveryStatus) -> bool {
    match s {
        DeliveryStatus::ConfirmedByReceiver
        | DeliveryStatus::TimeoutReleased
        | DeliveryStatus::Cancelled
        | DeliveryStatus::Failed => true,
        _ => false,
    }
}

/// Whether no more transitions are allowed from `status`.
pub fn is_final_status(status: &DeliveryStatus) -> (r: bool)
    ensures
        r == is_terminal(*status),
{
    match status {
        DeliveryStatus::ConfirmedByReceiver
        | DeliveryStatus::TimeoutReleased
        | DeliveryStatus::Cancelled
        | DeliveryStatus::Failed => true,
        _ => false,
    }
}

/// What the escrow ledger holds.
pub struct EscrowState {
    pub next_escrow_id: EscrowId,
    pub escrows: Map<EscrowId, AssignmentEscrow>,
    pub request_to_escrow: Map<Uuid, EscrowId>,
    pub confirmation_timeout_blocks: BlockNumber,
    pub events: Seq<Event>,
}

/// The escrow ledger.
pub struct Pallet {
    next_escrow_id: EscrowId,
    escrows: HashMap<EscrowId, AssignmentEscrow>,
    request_to_escrow: HashMap<Uuid, EscrowId>,
    confirmation_timeout_blocks: BlockNumber,
    events: Vec<Event>,
}

impl View for Pallet {
    type V = EscrowState;

    closed spec fn view(&self) -> EscrowState {
        EscrowState {
            next_escrow_id: self.next_escrow_id,
            escrows: self.escrows@,
            request_to_escrow: self.request_to_escrow@,
            confirmation_timeout_blocks: self.confirmation_timeout_blocks,
            events: self.events@,
        }
    }
}

/// Every escrow's request is indexed, and no two escrows share a request.
pub open spec fn escrow_wf(s: EscrowState) -> bool {
    &&& forall|id: EscrowId| #[trigger]
        s.escrows.contains_key(id) ==> s.request_to_escrow.contains_key(s.escrows[id].request_uuid)
    &&& forall|a: EscrowId, b: EscrowId|
        #[trigger] s.escrows.contains_key(a) && #[trigger] s.escrows.contains_key(b)
            && s.escrows[a].request_uuid == s.escrows[b].request_uuid ==> a == b
}

/// `s` with the status of escrow `id` set to `st`.
pub open spec fn with_status(s: EscrowState, id: EscrowId, st: DeliveryStatus) -> EscrowState {
    EscrowState { escrows: s.escrows.insert(id, AssignmentEscrow { status: st, ..s.escrows[id] }), ..s }
}

/// `s` with the events `es` recorded.
pub open spec fn with_events(s: EscrowState, es: Seq<Event>) -> EscrowState {
    EscrowState { events: s.events + es, ..s }
}

/// The outcome of `create_escrow`.
pub open spec fn create_spec(
    s: EscrowState,
    now: BlockNumber,
    request_uuid: Uuid,
    offer_uuid: Uuid,
    driver: AccountId,
    payer: AccountId,
    amount: Balance,
) -> (EscrowState, Result<(), Error>) {
    if s.request_to_escrow.contains_key(request_uuid) {
        (s, Err(Error::RequestAlreadyAssigned))
    } else if amount == 0 {
        (s, Err(Error::ZeroAmountNotAllowed))
    } else {
        let id = s.next_escrow_id;
        let deadline = if now + s.confirmation_timeout_blocks > u64::MAX {
            u64::MAX
        } else {
            (now + s.confirmation_timeout_blocks) as u64
        };
        let rec = AssignmentEscrow {
            request_uuid,
            offer_uuid,
            driver,
            payer,
            amount,
            status: DeliveryStatus::Created,
            created_at: now,
            deadline,
        };
        let e = Event::EscrowCreated {
            escrow_id: id,
            request_uuid,
            offer_uuid,
            driver,
            payer,
            amount,
            deadline,
        };
        (
            EscrowState {
                next_escrow_id: if id == u64::MAX {
                    0
                } else {
                    (id + 1) as u64
                },
                escrows: s.escrows.insert(id, rec),
                request_to_escrow: s.request_to_escrow.insert(request_uuid, id),
                events: s.events.push(e),
                ..s
            },
            Ok(()),
        )
    }
}

/// The outcome of a driver's step from `from` to `to` on escrow `id`.
pub open spec fn driver_step_spec(
    s: EscrowState,
    who: AccountId,
    id: EscrowId,
    from: DeliveryStatus,
    to: DeliveryStatus,
    e: Event,
) -> (EscrowState, Result<(), Error>) {
    if !s.escrows.contains_key(id) {
        (s, Err(Error::EscrowNotFound))
    } else if is_terminal(s.escrows[id].status) {
        (s, Err(Error::EscrowAlreadyFinal))
    } else if who != s.escrows[id].driver {
        (s, Err(Error::NotDriver))
    } else if s.escrows[id].status != from {
        (s, Err(Error::InvalidStatusTransition))
    } else {
        (with_events(with_status(s, id, to), seq![e]), Ok(()))
    }
}

/// The outcome of `mark_picked_up`.
pub open spec fn picked_up_spec(s: EscrowState, who: AccountId, id: EscrowId) -> (
    EscrowState,
    Result<(), Error>,
) {
    driver_step_spec(
        s,
        who,
        id,
        DeliveryStatus::Created,
        DeliveryStatus::PickedUpByCourier,
        Event::PickedUp { escrow_id: id },
    )
}

/// The outcome of `mark_delivered`.
pub open spec fn delivered_spec(s: EscrowState, who: AccountId, id: EscrowId) -> (
    EscrowState,
    Result<(), Error>,
) {
    driver_step_spec(
        s,
        who,
        id,
        DeliveryStatus::PickedUpByCourier,
        DeliveryStatus::DeliveredByCourier,
        Event::Delivered { escrow_id: id },
    )
}

/// The events of a confirmed escrow: the payment, then the confirmation.
pub open spec fn release_events(id: EscrowId, amount: Balance) -> Seq<Event> {
    seq![
        Event::PaymentReleased { escrow_id: id, amount },
        Event::ReceiverConfirmed { escrow_id: id },
    ]
}

/// The outcome of `confirm_received`.
pub open spec fn confirm_spec(s: EscrowState, who: AccountId, id: EscrowId) -> (
    EscrowState,
    Result<(), Error>,
) {
    if !s.escrows.contains_key(id) {
        (s, Err(Error::EscrowNotFound))
    } else if is_terminal(s.escrows[id].status) {
        (s, Err(Error::EscrowAlreadyFinal))
    } else if who != s.escrows[id].payer {
        (s, Err(Error::NotPayer))
    } else if s.escrows[id].status != DeliveryStatus::DeliveredByCourier {
        (s, Err(Error::InvalidStatusTransition))
    } else {
        (
            with_events(
                with_status(s, id, DeliveryStatus::ConfirmedByReceiver),
                release_events(id, s.escrows[id].amount),
            ),
            Ok(()),
        )
    }
}

/// The outcome of `release_escrow`.
pub open spec fn release_spec(s: EscrowState, request_uuid: Uuid, offer_uuid: Uuid) -> (
    EscrowState,
    Result<(), Error>,
) {
    if !s.request_to_escrow.contains_key(request_uuid) {
        (s, Err(Error::EscrowNotFound))
    } else {
        let id = s.request_to_escrow[request_uuid];
        if !s.escrows.contains_key(id) || s.escrows[id].offer_uuid != offer_uuid {
            (s, Err(Error::EscrowNotFound))
        } else if is_terminal(s.escrows[id].status) {
            (s, Err(Error::EscrowAlreadyFinal))
        } else {
            (
                with_events(
                    with_status(s, id, DeliveryStatus::ConfirmedByReceiver),
                    release_events(id, s.escrows[id].amount),
                ),
                Ok(()),
            )
        }
    }
}

/// The outcome of `force_timeout_release`.
pub open spec fn timeout_spec(s: EscrowState, now: BlockNumber, id: EscrowId) -> (
    EscrowState,
    Result<(), Error>,
) {
    if !s.escrows.contains_key(id) {
        (s, Err(Error::EscrowNotFound))
    } else if is_terminal(s.escrows[id].status) {
        (s, Err(Error::EscrowAlreadyFinal))
    } else if now < s.escrows[id].deadline {
        (s, Err(Error::TimeoutNotReached))
    } else {
        (
            with_events(
                with_status(s, id, DeliveryStatus::TimeoutReleased),
                seq![Event::PaymentReleased { escrow_id: id, amount: s.escrows[id].amount }],
            ),
            Ok(()),
        )
    }
}

impl Pallet {
    /// The ledger's invariant: see `escrow_wf`.
    pub open spec fn wf(&self) -> bool {
        escrow_wf(self@)
    }

    /// An empty escrow ledger whose escrows time out after
    /// `confirmation_timeout_blocks` blocks.
    pub fn new(confirmation_timeout_blocks: BlockNumber) -> (p: Pallet)
        ensures
            p.wf(),
            p@.next_escrow_id == 0,
            p@.escrows == Map::<EscrowId, AssignmentEscrow>::empty(),
            p@.request_to_escrow == Map::<Uuid, EscrowId>::empty(),
            p@.confirmation_timeout_blocks == confirmation_timeout_blocks,
            p@.events == Seq::<Event>::empty(),
    {
        let p = Pallet {
            next_escrow_id: 0,
            escrows: HashMap::new(),
            request_to_escrow: HashMap::new(),
            confirmation_timeout_blocks,
            events: Vec::new(),
        };
        assert(p@.escrows =~= Map::<EscrowId, AssignmentEscrow>::empty());
        assert(p@.request_to_escrow =~= Map::<Uuid, EscrowId>::empty());
        p
    }

    /// Creates an escrow for (request, offer) at block `now`, with its
    /// deadline `confirmation_timeout_blocks` later.
    pub fn create_escrow(
        &mut self,
        who: AccountId,
        now: BlockNumber,
        request_uuid: Uuid,
        offer_uuid: Uuid,
        driver: AccountId,
        payer: AccountId,
        amount: Balance,
    ) -> (r: Result<(), Error>)
        requires
            old(self).wf(),
        ensures
            final(self).wf(),
            (final(self)@, r) == create_spec(
                old(self)@,
                now,
                request_uuid,
                offer_uuid,
                driver,
                payer,
                amount,
            ),
    {
        if self.request_to_escrow.contains_key(&request_uuid) {
            return Err(Error::RequestAlreadyAssigned);
        }
        if amount == 0 {
            return Err(Error::ZeroAmountNotAllowed);
        }
        let ghost s0 = self@;
        let deadline = if now > u64::MAX - self.confirmation_timeout_blocks {
            u64::MAX
        } else {
            now + self.confirmation_timeout_blocks
        };
        let escrow_id = self.next_escrow_id;
        self.next_escrow_id = if escrow_id == u64::MAX {
            0
        } else {
            escrow_id + 1
        };
        let record = AssignmentEscrow {
            request_uuid,
            offer_uuid,
            driver,
            payer,
            amount,
            status: DeliveryStatus::Created,
            created_at: now,
            deadline,
        };
        self.escrows.insert(escrow_id, record);
        self.request_to_escrow.insert(request_uuid, escrow_id);
        self.events.push(
            Event::EscrowCreated {
                escrow_id,
                request_uuid,
                offer_uuid,
                driver,
                payer,
                amount,
                deadline,
            },
        );
        proof {
            assert forall|a: EscrowId, b: EscrowId|
                #[trigger] self@.escrows.contains_key(a) && #[trigger] self@.escrows.contains_key(b)
                    && self@.escrows[a].request_uuid == self@.escrows[b].request_uuid implies a
                == b by {
                if a != escrow_id {
                    assert(s0.escrows.contains_key(a));
                }
                if b != escrow_id {
                    assert(s0.escrows.contains_key(b));
                }
            }
            assert forall|id: EscrowId| #[trigger]
                self@.escrows.contains_key(id) implies self@.request_to_escrow.contains_key(
                self@.escrows[id].request_uuid,
            ) by {
                if id != escrow_id {
                    assert(s0.escrows.contains_key(id));
                }
            }
        }
        Ok(())
    }

    /// Sets the status of an existing escrow and records `es`.
    fn set_status(&mut self, escrow_id: EscrowId, rec: AssignmentEscrow, st: DeliveryStatus)
        requires
            old(self).wf(),
            old(self)@.escrows.contains_key(escrow_id),
            old(self)@.escrows[escrow_id] == rec,
        ensures
            final(self).wf(),
            final(self)@ == with_status(old(self)@, escrow_id, st),
    {
        let ghost s0 = self@;
        self.escrows.insert(escrow_id, AssignmentEscrow { status: st, ..rec });
        proof {
            assert forall|a: EscrowId, b: EscrowId|
                #[trigger] self@.escrows.contains_key(a) && #[trigger] self@.escrows.contains_key(b)
                    && self@.escrows[a].request_uuid == self@.escrows[b].request_uuid implies a
                == b by {
                assert(s0.escrows.contains_key(a));
                assert(s0.escrows.contains_key(b));
            }
            assert forall|id: EscrowId| #[trigger]
                self@.escrows.contains_key(id) implies self@.request_to_escrow.contains_key(
                self@.escrows[id].request_uuid,
            ) by {
                assert(s0.escrows.contains_key(id));
            }
        }
    }

    /// A driver's step on escrow `escrow_id` from status `from` to `to`.
    fn driver_step(
        &mut self,
        who: AccountId,
        escrow_id: EscrowId,
        from: DeliveryStatus,
        to: DeliveryStatus,
        e: Event,
    ) -> (r: Result<(), Error>)
        requires
            old(self).wf(),
        ensures
            final(self).wf(),
            (final(self)@, r) == driver_step_spec(old(self)@, who, escrow_id, from, to, e),
    {
        let rec = match self.escrows.get(&escrow_id) {
            None => {
                return Err(Error::EscrowNotFound);
            },
            Some(r) => *r,
        };
        if is_final_status(&rec.status) {
            return Err(Error::EscrowAlreadyFinal);
        }
        if who != rec.driver {
            return Err(Error::NotDriver);
        }
        if rec.status != from {
            return Err(Error::InvalidStatusTransition);
        }
        let ghost s1 = with_status(self@, escrow_id, to);
        self.set_status(escrow_id, rec, to);
        self.events.push(e);
        assert(self@.events =~= s1.events + seq![e]);
        Ok(())
    }

    /// The driver marks the pickup: `Created` becomes `PickedUpByCourier`.
    pub fn mark_picked_up(&mut self, who: AccountId, escrow_id: EscrowId) -> (r: Result<(), Error>)
        requires
            old(self).wf(),
        ensures
            final(self).wf(),
            (final(self)@, r) == picked_up_spec(old(self)@, who, escrow_id),
    {
        self.driver_step(
            who,
            escrow_id,
            DeliveryStatus::Created,
            DeliveryStatus::PickedUpByCourier,
            Event::PickedUp { escrow_id },
        )
    }

    /// The driver marks the delivery: `PickedUpByCourier` becomes
    /// `DeliveredByCourier`.
    pub fn mark_delivered(&mut self, who: AccountId, escrow_id: EscrowId) -> (r: Result<(), Error>)
        requires
            old(self).wf(),
        ensures
            final(self).wf(),
            (final(self)@, r) == delivered_spec(old(self)@, who, escrow_id),
    {
        self.driver_step(
            who,
            escrow_id,
            DeliveryStatus::PickedUpByCourier,
            DeliveryStatus::DeliveredByCourier,
            Event::Delivered { escrow_id },
        )
    }

    /// Marks an escrow confirmed and records the payment and the confirmation.
    fn release(&mut self, escrow_id: EscrowId, rec: AssignmentEscrow)
        requires
            old(self).wf(),
            old(self)@.escrows.contains_key(escrow_id),
            old(self)@.escrows[escrow_id] == rec,
        ensures
            final(self).wf(),
            final(self)@ == with_events(
                with_status(old(self)@, escrow_id, DeliveryStatus::ConfirmedByReceiver),
                release_events(escrow_id, rec.amount),
            ),
    {
        let ghost s1 = with_status(self@, escrow_id, DeliveryStatus::ConfirmedByReceiver);
        self.set_status(escrow_id, rec, DeliveryStatus::ConfirmedByReceiver);
        self.events.push(Event::PaymentReleased { escrow_id, amount: rec.amount });
        self.events.push(Event::ReceiverConfirmed { escrow_id });
        assert(self@.events =~= s1.events + release_events(escrow_id, rec.amount));
    }

    /// The payer confirms the delivery: `DeliveredByCourier` becomes
    /// `ConfirmedByReceiver` and the payment is released.
    pub fn confirm_received(&mut self, who: AccountId, escrow_id: EscrowId) -> (r: Result<(), Error>)
        requires
            old(self).wf(),
        ensures
            final(self).wf(),
            (final(self)@, r) == confirm_spec(old(self)@, who, escrow_id),
    {
        let rec = match self.escrows.get(&escrow_id) {
            None => {
                return Err(Error::EscrowNotFound);
            },
            Some(r) => *r,
        };
        if is_final_status(&rec.status) {
            return Err(Error::EscrowAlreadyFinal);
        }
        if who != rec.payer {
            return Err(Error::NotPayer);
        }
        if rec.status != DeliveryStatus::DeliveredByCourier {
            return Err(Error::InvalidStatusTransition);
        }
        self.release(escrow_id, rec);
        Ok(())
    }

    /// Releases the escrow of `request_uuid`, whose offer must be
    /// `offer_uuid`, from any non-terminal state.
    pub fn release_escrow(&mut self, _who: AccountId, request_uuid: Uuid, offer_uuid: Uuid) -> (r:
        Result<(), Error>)
        requires
            old(self).wf(),
        ensures
            final(self).wf(),
            (final(self)@, r) == release_spec(old(self)@, request_uuid, offer_uuid),
    {
        let escrow_id = match self.request_to_escrow.get(&request_uuid) {
            None => {
                return Err(Error::EscrowNotFound);
            },
            Some(id) => *id,
        };
        let rec = match self.escrows.get(&escrow_id) {
            None => {
                return Err(Error::EscrowNotFound);
            },
            Some(r) => *r,
        };
        if rec.offer_uuid != offer_uuid {
            return Err(Error::EscrowNotFound);
        }
        if is_final_status(&rec.status) {
            return Err(Error::EscrowAlreadyFinal);
        }
        self.release(escrow_id, rec);
        Ok(())
    }

    /// Releases the payment of an unconfirmed escrow once block `now` has
    /// reached its deadline.
    pub fn force_timeout_release(&mut self, _who: AccountId, now: BlockNumber, escrow_id: EscrowId) -> (r:
        Result<(), Error>)
        requires
            old(self).wf(),
        ensures
            final(self).wf(),
            (final(self)@, r) == timeout_spec(old(self)@, now, escrow_id),
    {
        let rec = match self.escrows.get(&escrow_id) {
            None => {
                return Err(Error::EscrowNotFound);
            },
            Some(r) => *r,
        };
        if is_final_status(&rec.status) {
            return Err(Error::EscrowAlreadyFinal);
        }
        if now < rec.deadline {
            return Err(Error::TimeoutNotReached);
        }
        let ghost s1 = with_status(self@, escrow_id, DeliveryStatus::TimeoutReleased);
        self.set_status(escrow_id, rec, DeliveryStatus::TimeoutReleased);
        let e = Event::PaymentReleased { escrow_id, amount: rec.amount };
        self.events.push(e);
        assert(self@.events =~= s1.events + seq![e]);
        Ok(())
    }

    /// The escrow with this id, if any.
    pub fn escrow(&self, escrow_id: EscrowId) -> (r: Option<AssignmentEscrow>)
        ensures
            match r {
                Some(e) => self@.escrows.contains_key(escrow_id) && self@.escrows[escrow_id] == e,
                None => !self@.escrows.contains_key(escrow_id),
            },
    {
        match self.escrows.get(&escrow_id) {
            Some(e) => Some(*e),
            None => None,
        }
    }

    /// The escrow id indexed for a request, if any.
    pub fn request_to_escrow(&self, request_uuid: Uuid) -> (r: Option<EscrowId>)
        ensures
            match r {
                Some(id) => self@.request_to_escrow.contains_key(request_uuid)
                    && self@.request_to_escrow[request_uuid] == id,
                None => !self@.request_to_escrow.contains_key(request_uuid),
            },
    {
        match self.request_to_escrow.get(&request_uuid) {
            Some(id) => Some(*id),
            None => None,
        }
    }

    /// The id the next escrow will get.
    pub fn next_escrow_id(&self) -> (r: EscrowId)
        ensures
            r == self@.next_escrow_id,
    {
        self.next_escrow_id
    }

    /// The events recorded so far, oldest first.
    pub fn events(&self) -> (r: &Vec<Event>)
        ensures
            r@ == self@.events,
    {
        &self.events
    }
}

/// A call on the escrow ledger.
pub enum EscrowCall {
    Create { request_uuid: Uuid, offer_uuid: Uuid, driver: AccountId, payer: AccountId, amount: Balance },
    MarkPickedUp { escrow_id: EscrowId },
    MarkDelivered { escrow_id: EscrowId },
    ConfirmReceived { escrow_id: EscrowId },
    Release { request_uuid: Uuid, offer_uuid: Uuid },
    ForceTimeoutRelease { escrow_id: EscrowId },
}

/// The outcome of call `c` by `who` at block `now`.
pub open spec fn step_spec(s: EscrowState, who: AccountId, now: BlockNumber, c: EscrowCall) -> (
    EscrowState,
    Result<(), Error>,
) {
    match c {
        EscrowCall::Create { request_uuid, offer_uuid, driver, payer, amount } => create_spec(
            s,
            now,
            request_uuid,
            offer_uuid,
            driver,
            payer,
            amount,
        ),
        EscrowCall::MarkPickedUp { escrow_id } => picked_up_spec(s, who, escrow_id),
        EscrowCall::MarkDelivered { escrow_id } => delivered_spec(s, who, escrow_id),
        EscrowCall::ConfirmReceived { escrow_id } => confirm_spec(s, who, escrow_id),
        EscrowCall::Release { request_uuid, offer_uuid } => release_spec(
            s,
            request_uuid,
            offer_uuid,
        ),
        EscrowCall::ForceTimeoutRelease { escrow_id } => timeout_spec(s, now, escrow_id),
    }
}

/// The rows of the transition table: call `c` by `who` at block `now` may
/// move an escrow `e` to status `to`.
pub open spec fn table_row(
    c: EscrowCall,
    who: AccountId,
    now: BlockNumber,
    e: AssignmentEscrow,
    to: DeliveryStatus,
) -> bool {
    match c {
        EscrowCall::Create { .. } => false,
        EscrowCall::MarkPickedUp { .. } => who == e.driver && e.status == DeliveryStatus::Created
            && to == DeliveryStatus::PickedUpByCourier,
        EscrowCall::MarkDelivered { .. } => who == e.driver && e.status
            == DeliveryStatus::PickedUpByCourier && to == DeliveryStatus::DeliveredByCourier,
        EscrowCall::ConfirmReceived { .. } => who == e.payer && e.status
            == DeliveryStatus::DeliveredByCourier && to == DeliveryStatus::ConfirmedByReceiver,
        EscrowCall::Release { .. } => !is_terminal(e.status) && to
            == DeliveryStatus::ConfirmedByReceiver,
        EscrowCall::ForceTimeoutRelease { .. } => !is_terminal(e.status) && now >= e.deadline && to
            == DeliveryStatus::TimeoutReleased,
    }
}

/// Every call keeps the ledger's invariant.
pub proof fn lemma_step_keeps_wf(s: EscrowState, who: AccountId, now: BlockNumber, c: EscrowCall)
    requires
        escrow_wf(s),
    ensures
        escrow_wf(step_spec(s, who, now, c).0),
{
    let s1 = step_spec(s, who, now, c).0;
    match c {
        EscrowCall::Create { request_uuid, .. } => {
            if step_spec(s, who, now, c).1 is Ok {
                let id = s.next_escrow_id;
                assert forall|a: EscrowId, b: EscrowId|
                    #[trigger] s1.escrows.contains_key(a) && #[trigger] s1.escrows.contains_key(b)
                        && s1.escrows[a].request_uuid == s1.escrows[b].request_uuid implies a
                    == b by {
                    if a != id {
                        assert(s.escrows.contains_key(a));
                    }
                    if b != id {
                        assert(s.escrows.contains_key(b));
                    }
                }
                assert forall|x: EscrowId| #[trigger]
                    s1.escrows.contains_key(x) implies s1.request_to_escrow.contains_key(
                    s1.escrows[x].request_uuid,
                ) by {
                    if x != id {
                        assert(s.escrows.contains_key(x));
                    }
                }
            }
        },
        _ => {
            if step_spec(s, who, now, c).1 is Ok {
                assert forall|a: EscrowId, b: EscrowId|
                    #[trigger] s1.escrows.contains_key(a) && #[trigger] s1.escrows.contains_key(b)
                        && s1.escrows[a].request_uuid == s1.escrows[b].request_uuid implies a
                    == b by {
                    assert(s.escrows.contains_key(a));
                    assert(s.escrows.contains_key(b));
                }
                assert forall|x: EscrowId| #[trigger]
                    s1.escrows.contains_key(x) implies s1.request_to_escrow.contains_key(
                    s1.escrows[x].request_uuid,
                ) by {
                    assert(s.escrows.contains_key(x));
                }
            }
        },
    }
}

/// In a well-formed ledger a request has at most one non-terminal escrow.
pub proof fn lemma_one_active_escrow_per_request(s: EscrowState, a: EscrowId, b: EscrowId)
    requires
        escrow_wf(s),
        s.escrows.contains_key(a),
        s.escrows.contains_key(b),
        !is_terminal(s.escrows[a].status),
        !is_terminal(s.escrows[b].status),
        s.escrows[a].request_uuid == s.escrows[b].request_uuid,
    ensures
        a == b,
{
}

/// A call that fails changes nothing. A call that succeeds either creates a
/// new escrow in state `Created`, or changes the status of one escrow along
/// a row of the transition table and nothing else of any escrow.
pub proof fn lemma_transitions_follow_table(
    s: EscrowState,
    who: AccountId,
    now: BlockNumber,
    c: EscrowCall,
)
    ensures
        step_spec(s, who, now, c).1 is Err ==> step_spec(s, who, now, c).0 == s,
        step_spec(s, who, now, c).1 is Ok && c is Create ==> ({
            let s1 = step_spec(s, who, now, c).0;
            &&& s1.escrows == s.escrows.insert(s.next_escrow_id, s1.escrows[s.next_escrow_id])
            &&& s1.escrows[s.next_escrow_id].status == DeliveryStatus::Created
        }),
        step_spec(s, who, now, c).1 is Ok && !(c is Create) ==> ({
            let s1 = step_spec(s, who, now, c).0;
            exists|id: EscrowId|
                #![trigger s.escrows[id]]
                s.escrows.contains_key(id) && s1.escrows == s.escrows.insert(
                    id,
                    AssignmentEscrow { status: s1.escrows[id].status, ..s.escrows[id] },
                ) && table_row(c, who, now, s.escrows[id], s1.escrows[id].status)
        }),
{
    let s1 = step_spec(s, who, now, c).0;
    if step_spec(s, who, now, c).1 is Ok {
        match c {
            EscrowCall::Create { .. } => {
                assert(s1.escrows =~= s.escrows.insert(s.next_escrow_id, s1.escrows[s.next_escrow_id]));
            },
            EscrowCall::Release { request_uuid, .. } => {
                let id = s.request_to_escrow[request_uuid];
                assert(s1.escrows =~= s.escrows.insert(
                    id,
                    AssignmentEscrow { status: s1.escrows[id].status, ..s.escrows[id] },
                ));
                assert(table_row(c, who, now, s.escrows[id], s1.escrows[id].status));
            },
            EscrowCall::MarkPickedUp { escrow_id: id }
            | EscrowCall::MarkDelivered { escrow_id: id }
            | EscrowCall::ConfirmReceived { escrow_id: id }
            | EscrowCall::ForceTimeoutRelease { escrow_id: id } => {
                assert(s1.escrows =~= s.escrows.insert(
                    id,
                    AssignmentEscrow { status: s1.escrows[id].status, ..s.escrows[id] },
                ));
                assert(table_row(c, who, now, s.escrows[id], s1.escrows[id].status));
            },
        }
    }
}

/// `force_timeout_release` succeeds exactly when the escrow exists, is not
/// terminal, and block `now` has reached its deadline.
pub proof fn lemma_timeout_release_iff(s: EscrowState, now: BlockNumber, id: EscrowId)
    ensures
        timeout_spec(s, now, id).1 is Ok <==> (s.escrows.contains_key(id) && !is_terminal(
            s.escrows[id].status,
        ) && now >= s.escrows[id].deadline),
        timeout_spec(s, now, id).1 is Ok ==> timeout_spec(s, now, id).0.escrows[id].status
            == DeliveryStatus::TimeoutReleased,
{
}

} // verus!
