//! Scheduled occurrences and the order in which they are processed.

use crate::customer::Customer;
use vstd::prelude::*;

verus! {

/// The five stages of a customer's visit, in the order they happen.
#[derive(Clone, Copy, Debug, PartialEq, Eq, Structural)]
pub enum EventKind {
    Arrive,
    Queue,
    Refuel,
    Payment,
    Departure,
}

/// The fixed rank of a kind, used to order events scheduled for one instant.
pub open spec fn kind_rank(k: EventKind) -> nat {
    match k {
        EventKind::Arrive => 0,
        EventKind::Queue => 1,
        EventKind::Refuel => 2,
        EventKind::Payment => 3,
        EventKind::Departure => 4,
    }
}

/// Whether a customer at this stage occupies a pump.
pub open spec fn holds_pump(k: EventKind) -> bool {
    kind_rank(k) >= 2
}

impl EventKind {
    pub fn rank(&self) -> (r: u64)
        ensures
            r == kind_rank(*self),
    {
        match self {
            EventKind::Arrive => 0,
            EventKind::Queue => 1,
            EventKind::Refuel => 2,
            EventKind::Payment => 3,
            EventKind::Departure => 4,
        }
    }

    /// The upper-case name printed for the kind.
    pub fn label(&self) -> (r: &'static str)
        ensures
            *self == EventKind::Arrive ==> r@ == "ARRIVE"@,
            *self == EventKind::Queue ==> r@ == "QUEUE"@,
            *self == EventKind::Refuel ==> r@ == "REFUEL"@,
            *self == EventKind::Payment ==> r@ == "PAYMENT"@,
            *self == EventKind::Departure ==> r@ == "DEPARTURE"@,
    {
        match self {
            EventKind::Arrive => "ARRIVE",
            EventKind::Queue => "QUEUE",
            EventKind::Refuel => "REFUEL",
            EventKind::Payment => "PAYMENT",
            EventKind::Departure => "DEPARTURE",
        }
    }
}

/// Something that happens to `customer` at `scheduled_time`; from REFUEL on,
/// `chosen_queue` is the pump the customer holds.
#[derive(Clone, Copy, Debug, PartialEq, Eq, Structural)]
pub struct Event {
    pub kind: EventKind,
    pub customer: Customer,
    pub scheduled_time: u64,
    pub chosen_queue: Option<u64>,
}

/// The order of processing: earlier time first, then lower kind rank, then
/// lower customer id. `event_le(a, b)` holds when `a` may go before `b`.
pub open spec fn event_le(a: Event, b: Event) -> bool {
    if a.scheduled_time != b.scheduled_time {
        a.scheduled_time < b.scheduled_time
    } else if kind_rank(a.kind) != kind_rank(b.kind) {
        kind_rank(a.kind) < kind_rank(b.kind)
    } else {
        a.customer.id <= b.customer.id
    }
}

pub proof fn lemma_event_le_total(a: Event, b: Event)
    ensures
        event_le(a, b) || event_le(b, a),
{
}

pub proof fn lemma_event_le_transitive(a: Event, b: Event, c: Event)
    requires
        event_le(a, b),
        event_le(b, c),
    ensures
        event_le(a, c),
{
}

impl Event {
    pub fn new(
        kind: EventKind,
        customer: Customer,
        scheduled_time: u64,
        chosen_queue: Option<u64>,
    ) -> (e: Event)
        ensures
            e == (Event { kind, customer, scheduled_time, chosen_queue }),
    {
        Event { kind, customer, scheduled_time, chosen_queue }
    }

    /// Whether `self` is processed no later than `other`.
    pub fn goes_before(&self, other: &Event) -> (r: bool)
        ensures
            r == event_le(*self, *other),
    {
        if self.scheduled_time != other.scheduled_time {
            self.scheduled_time < other.scheduled_time
        } else {
            let a = self.kind.rank();
            let b = other.kind.rank();
            if a != b {
                a < b
            } else {
                self.customer.id <= other.customer.id
            }
        }
    }
}

} // verus!
