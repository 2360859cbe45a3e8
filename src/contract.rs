//! The escrow contract: funds deposited per assignment, released to the
//! driver on the sender's confirmation or after a timeout that starts at
//! delivery, or refunded to the sender before delivery. The contract decides;
//! its host performs the transfers it returns, and reverts the call if a
//! transfer fails.
use vstd::prelude::*;
use std::collections::HashMap;

use crate::proposals::AccountId;

verus! {

broadcast use vstd::std_specs::hash::group_hash_axioms;

pub const STATUS_OPEN: u8 = 0;

pub const STATUS_DELIVERED: u8 = 1;

pub const STATUS_COMPLETED: u8 = 2;

pub const STATUS_CANCELLED: u8 = 3;

/// Reserved for refunds after delivery.
pub const STATUS_REFUNDED: u8 = 4;

/// One assignment of a winning proposal, for validation.
#[derive(Clone, Copy, Debug, PartialEq, Eq, Structural)]
pub struct AssignmentInput {
    pub request_id: u128,
    pub driver: AccountId,
    pub pair_score: u128,
}

/// The escrow of one assignment.
#[derive(Clone, Copy, Debug, PartialEq, Eq, Structural)]
pub struct EscrowEntry {
    pub sender: AccountId,
    pub driver: AccountId,
    pub amount: u128,
    pub status: u8,
    /// Milliseconds.
    pub created_at: u64,
    /// Milliseconds; 0 until delivery.
    pub delivered_at: u64,
    /// How long after delivery the payment may be released without
    /// confirmation, in milliseconds.
    pub timeout_ms: u64,
}

/// A payment the host must make for the call to take effect.
#[derive(Clone, Copy, Debug, PartialEq, Eq, Structural)]
pub struct Transfer {
    pub to: AccountId,
    pub amount: u128,
}

#[derive(Clone, Copy, Debug, PartialEq, Eq, Structural)]
pub enum ContractError {
    /// An escrow exists for this assignment already.
    AlreadyExists,
    /// No escrow for this assignment.
    NotFound,
    /// Only the driver may mark the delivery.
    NotDriver,
    /// Only the sender may confirm or cancel.
    NotSender,
    /// The escrow is not open.
    NotOpen,
    /// The escrow is not delivered.
    NotDelivered,
    /// The delivery time was never set.
    DeliveredAtUnset,
    /// The timeout after delivery has not passed.
    TooEarly,
}

/// The escrow contract's storage.
pub struct Escrow {
    entries: HashMap<u128, EscrowEntry>,
}

impl View for Escrow {
    type V = Map<u128, EscrowEntry>;

    closed spec fn view(&self) -> Map<u128, EscrowEntry> {
        self.entries@
    }
}

/// The outcome of `open_and_deposit`.
pub open spec fn open_spec(
    s: Map<u128, EscrowEntry>,
    caller: AccountId,
    transferred: u128,
    now: u64,
    id: u128,
    driver: AccountId,
    timeout_ms: u64,
) -> (Map<u128, EscrowEntry>, Result<(), ContractError>) {
    if s.contains_key(id) {
        (s, Err(ContractError::AlreadyExists))
    } else {
        (
            s.insert(
                id,
                EscrowEntry {
                    sender: caller,
                    driver,
                    amount: transferred,
                    status: STATUS_OPEN,
                    created_at: now,
                    delivered_at: 0,
                    timeout_ms,
                },
            ),
            Ok(()),
        )
    }
}

/// The outcome of `driver_mark_delivered`.
pub open spec fn delivered_spec(s: Map<u128, EscrowEntry>, caller: AccountId, now: u64, id: u128) -> (
    Map<u128, EscrowEntry>,
    Result<(), ContractError>,
) {
    if !s.contains_key(id) {
        (s, Err(ContractError::NotFound))
    } else if caller != s[id].driver {
        (s, Err(ContractError::NotDriver))
    } else if s[id].status != STATUS_OPEN {
        (s, Err(ContractError::NotOpen))
    } else {
        (s.insert(id, EscrowEntry { status: STATUS_DELIVERED, delivered_at: now, ..s[id] }), Ok(()))
    }
}

/// The outcome of `receiver_confirm`: the driver is paid.
pub open spec fn confirm_spec(s: Map<u128, EscrowEntry>, caller: AccountId, id: u128) -> (
    Map<u128, EscrowEntry>,
    Result<Transfer, ContractError>,
) {
    if !s.contains_key(id) {
        (s, Err(ContractError::NotFound))
    } else if caller != s[id].sender {
        (s, Err(ContractError::NotSender))
    } else if s[id].status != STATUS_DELIVERED {
        (s, Err(ContractError::NotDelivered))
    } else {
        (
            s.insert(id, EscrowEntry { status: STATUS_COMPLETED, ..s[id] }),
            Ok(Transfer { to: s[id].driver, amount: s[id].amount }),
        )
    }
}

/// When the payment of a delivered escrow may be released without
/// confirmation: delivery time plus timeout, saturated.
pub open spec fn release_time(e: EscrowEntry) -> int {
    if e.delivered_at + e.timeout_ms > u64::MAX {
        u64::MAX as int
    } else {
        e.delivered_at + e.timeout_ms
    }
}

/// The outcome of `auto_release_if_timeout`: the driver is paid.
pub open spec fn auto_release_spec(s: Map<u128, EscrowEntry>, now: u64, id: u128) -> (
    Map<u128, EscrowEntry>,
    Result<Transfer, ContractError>,
) {
    if !s.contains_key(id) {
        (s, Err(ContractError::NotFound))
    } else if s[id].status != STATUS_DELIVERED {
        (s, Err(ContractError::NotDelivered))
    } else if s[id].delivered_at == 0 {
        (s, Err(ContractError::DeliveredAtUnset))
    } else if now < release_time(s[id]) {
        (s, Err(ContractError::TooEarly))
    } else {
        (
            s.insert(id, EscrowEntry { status: STATUS_COMPLETED, ..s[id] }),
            Ok(Transfer { to: s[id].driver, amount: s[id].amount }),
        )
    }
}

/// The outcome of `cancel_before_delivered`: the sender is refunded.
pub open spec fn cancel_spec(s: Map<u128, EscrowEntry>, caller: AccountId, id: u128) -> (
    Map<u128, EscrowEntry>,
    Result<Transfer, ContractError>,
) {
    if !s.contains_key(id) {
        (s, Err(ContractError::NotFound))
    } else if caller != s[id].sender {
        (s, Err(ContractError::NotSender))
    } else if s[id].status != STATUS_OPEN {
        (s, Err(ContractError::NotOpen))
    } else {
        (
            s.insert(id, EscrowEntry { status: STATUS_CANCELLED, ..s[id] }),
            Ok(Transfer { to: s[id].sender, amount: s[id].amount }),
        )
    }
}

/// Sum of the pair scores of `a`, added one by one with saturation.
pub open spec fn saturating_total(a: Seq<AssignmentInput>) -> int
    decreases a.len(),
{
    if a.len() == 0 {
        0
    } else {
        let s = saturating_total(a.drop_last()) + a.last().pair_score;
        if s > u128::MAX {
            u128::MAX as int
        } else {
            s
        }
    }
}

/// No request appears twice among the assignments.
pub open spec fn distinct_request_ids(a: Seq<AssignmentInput>) -> bool {
    forall|i: int, j: int|
        #![trigger a[i], a[j]]
        0 <= i < j < a.len() ==> a[i].request_id != a[j].request_id
}

impl Escrow {
    /// A contract with no escrows.
    pub fn new() -> (e: Escrow)
        ensures
            e@ == Map::<u128, EscrowEntry>::empty(),
    {
        let e = Escrow { entries: HashMap::new() };
        assert(e@ =~= Map::<u128, EscrowEntry>::empty());
        e
    }

    /// Opens an escrow for `assignment_id`: the caller is the sender and
    /// deposits `transferred`; `timeout_ms` is how long after delivery the
    /// payment may be released without confirmation.
    pub fn open_and_deposit(
        &mut self,
        caller: AccountId,
        transferred: u128,
        now: u64,
        assignment_id: u128,
        driver: AccountId,
        timeout_ms: u64,
    ) -> (r: Result<(), ContractError>)
        ensures
            (final(self)@, r) == open_spec(
                old(self)@,
                caller,
                transferred,
                now,
                assignment_id,
                driver,
                timeout_ms,
            ),
    {
        if self.entries.contains_key(&assignment_id) {
            return Err(ContractError::AlreadyExists);
        }
        self.entries.insert(
            assignment_id,
            EscrowEntry {
                sender: caller,
                driver,
                amount: transferred,
                status: STATUS_OPEN,
                created_at: now,
                delivered_at: 0,
                timeout_ms,
            },
        );
        Ok(())
    }

    /// The driver marks the assignment delivered at `now`.
    pub fn driver_mark_delivered(&mut self, caller: AccountId, now: u64, assignment_id: u128) -> (r:
        Result<(), ContractError>)
        ensures
            (final(self)@, r) == delivered_spec(old(self)@, caller, now, assignment_id),
    {
        let e = match self.entries.get(&assignment_id) {
            None => {
                return Err(ContractError::NotFound);
            },
            Some(e) => *e,
        };
        if caller != e.driver {
            return Err(ContractError::NotDriver);
        }
        if e.status != STATUS_OPEN {
            return Err(ContractError::NotOpen);
        }
        self.entries.insert(
            assignment_id,
            EscrowEntry { status: STATUS_DELIVERED, delivered_at: now, ..e },
        );
        Ok(())
    }

    /// The sender confirms a delivered assignment; the driver is paid.
    pub fn receiver_confirm(&mut self, caller: AccountId, assignment_id: u128) -> (r: Result<
        Transfer,
        ContractError,
    >)
        ensures
            (final(self)@, r) == confirm_spec(old(self)@, caller, assignment_id),
    {
        let e = match self.entries.get(&assignment_id) {
            None => {
                return Err(ContractError::NotFound);
            },
            Some(e) => *e,
        };
        if caller != e.sender {
            return Err(ContractError::NotSender);
        }
        if e.status != STATUS_DELIVERED {
            return Err(ContractError::NotDelivered);
        }
        self.entries.insert(assignment_id, EscrowEntry { status: STATUS_COMPLETED, ..e });
        Ok(Transfer { to: e.driver, amount: e.amount })
    }

    /// Anyone releases the payment of a delivered assignment once the
    /// timeout after delivery has passed at `now`; the driver is paid.
    pub fn auto_release_if_timeout(&mut self, now: u64, assignment_id: u128) -> (r: Result<
        Transfer,
        ContractError,
    >)
        ensures
            (final(self)@, r) == auto_release_spec(old(self)@, now, assignment_id),
    {
        let e = match self.entries.get(&assignment_id) {
            None => {
                return Err(ContractError::NotFound);
            },
            Some(e) => *e,
        };
        if e.status != STATUS_DELIVERED {
            return Err(ContractError::NotDelivered);
        }
        if e.delivered_at == 0 {
            return Err(ContractError::DeliveredAtUnset);
        }
        let deadline = e.delivered_at.saturating_add(e.timeout_ms);
        if now < deadline {
            return Err(ContractError::TooEarly);
        }
        self.entries.insert(assignment_id, EscrowEntry { status: STATUS_COMPLETED, ..e });
        Ok(Transfer { to: e.driver, amount: e.amount })
    }

    /// The sender cancels an assignment that is still open; the sender is
    /// refunded.
    pub fn cancel_before_delivered(&mut self, caller: AccountId, assignment_id: u128) -> (r: Result<
        Transfer,
        ContractError,
    >)
        ensures
            (final(self)@, r) == cancel_spec(old(self)@, caller, assignment_id),
    {
        let e = match self.entries.get(&assignment_id) {
            None => {
                return Err(ContractError::NotFound);
            },
            Some(e) => *e,
        };
        if caller != e.sender {
            return Err(ContractError::NotSender);
        }
        if e.status != STATUS_OPEN {
            return Err(ContractError::NotOpen);
        }
        self.entries.insert(assignment_id, EscrowEntry { status: STATUS_CANCELLED, ..e });
        Ok(Transfer { to: e.sender, amount: e.amount })
    }

    /// The status of the escrow of `assignment_id`, if there is one.
    pub fn get_status(&self, assignment_id: u128) -> (r: Option<u8>)
        ensures
            r == (if self@.contains_key(assignment_id) {
                Some(self@[assignment_id].status)
            } else {
                None::<u8>
            }),
    {
        match self.entries.get(&assignment_id) {
            Some(e) => Some(e.status),
            None => None,
        }
    }

    /// Whether a winning proposal is acceptable: no request appears twice,
    /// and `winner_total_score` equals the (saturating) sum of the pair scores.
    /// A driver may appear more than once.
    #[verifier::loop_isolation(false)]
    pub fn validate_winner(&self, winner_total_score: u128, assignments: &Vec<AssignmentInput>) -> (ok:
        bool)
        ensures
            ok == (distinct_request_ids(assignments@) && winner_total_score == saturating_total(
                assignments@,
            )),
    {
        let a = assignments;
        let len = a.len();
        let mut i: usize = 0;
        while i < len
            invariant
                i <= len,
                len == a@.len(),
                forall|x: int, y: int|
                    #![trigger a@[x], a@[y]]
                    0 <= x < i && x < y < len ==> a@[x].request_id != a@[y].request_id,
            decreases len - i,
        {
            let mut j: usize = i + 1;
            while j < len
                invariant
                    i < len,
                    i + 1 <= j <= len,
                    len == a@.len(),
                    forall|y: int|
                        #![trigger a@[y]]
                        i < y < j ==> a@[i as int].request_id != a@[y].request_id,
                decreases len - j,
            {
                if a[i].request_id == a[j].request_id {
                    assert(a@[i as int].request_id == a@[j as int].request_id);
                    return false;
                }
                j = j + 1;
            }
            assert forall|x: int, y: int|
                #![trigger a@[x], a@[y]]
                0 <= x < i + 1 && x < y < len implies a@[x].request_id != a@[y].request_id by {
                if x == i {
                    assert(i < y < j);
                }
            }
            i = i + 1;
        }
        let mut total: u128 = 0;
        let mut k: usize = 0;
        while k < len
            invariant
                k <= len,
                len == a@.len(),
                total == saturating_total(a@.take(k as int)),
            decreases len - k,
        {
            proof {
                assert(a@.take(k as int + 1).drop_last() =~= a@.take(k as int));
            }
            total = total.saturating_add(a[k].pair_score);
            k = k + 1;
        }
        assert(a@.take(len as int) =~= a@);
        total == winner_total_score
    }
}

} // verus!
