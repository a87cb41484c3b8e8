//! Properties of every run, stated over the abstract state that
//! `Simulation::step_with` and `Simulation::step` are specified with.

use crate::event::{holds_pump, kind_rank, Event};
use crate::run_inv::{
    clash, customer_ok, event_ok, exclusive, in_line, lines_ok, pumps_ok, queue_events, sim_inv,
    waiting_ok,
};
use crate::simulation::{advance, Draws, SimState};
use vstd::prelude::*;

verus! {

/// Every arrival asks for a pump at once: the ARRIVE events processed are
/// the QUEUE events processed plus the QUEUE events still pending, and each
/// of them counted one customer.
pub proof fn lemma_arrivals_match_queues(s: SimState)
    requires
        sim_inv(s),
    ensures
        s.arrived == s.queued + queue_events(s.queue),
        s.arrived == s.count,
{
}

/// A customer's stages come in order: the times at which their ARRIVE,
/// QUEUE, REFUEL, PAYMENT and DEPARTURE were processed never decrease, the
/// first is the recorded arrival, once the customer has left the record
/// holds departure minus arrival, and a pending event of theirs is their next
/// stage and comes no earlier than the last one.
pub proof fn lemma_stage_times_ordered(s: SimState, id: u64)
    requires
        sim_inv(s),
        id < s.count,
    ensures
        1 <= s.stages[id].len() <= 5,
        forall|a: int, b: int|
            0 <= a < b < s.stages[id].len() ==> s.stages[id][a] <= s.stages[id][b],
        s.stages[id][0] == s.records[id].arrival_time,
        s.records[id].completed <==> s.stages[id].len() == 5,
        s.stages[id].len() == 5 ==> {
            &&& s.stages[id][0] <= s.stages[id][1] <= s.stages[id][2] <= s.stages[id][3]
                <= s.stages[id][4]
            &&& s.records[id].total_time == s.stages[id][4] - s.stages[id][0]
        },
        forall|x: Event|
            #[trigger] s.queue.contains(x) && x.customer.id == id ==> s.stages[id].len()
                == kind_rank(x.kind) && s.stages[id].last() <= x.scheduled_time,
{
    assert(customer_ok(s, id));
    assert forall|x: Event| #[trigger] s.queue.contains(x) && x.customer.id == id implies s.stages[id].len()
        == kind_rank(x.kind) && s.stages[id].last() <= x.scheduled_time by {
        assert(event_ok(s, x));
    }
}

/// The number of busy pumps.
pub open spec fn busy_count(stations: Seq<i64>) -> nat
    decreases stations.len(),
{
    if stations.len() == 0 {
        0
    } else {
        (if stations.last() == 1 {
            1nat
        } else {
            0nat
        }) + busy_count(stations.drop_last())
    }
}

proof fn lemma_busy_count_bounded(stations: Seq<i64>)
    ensures
        busy_count(stations) <= stations.len(),
    decreases stations.len(),
{
    if stations.len() > 0 {
        lemma_busy_count_bounded(stations.drop_last());
    }
}

/// Pumps are exclusive: no more pumps are busy than there are, each pump is
/// free or busy, a busy pump is held by a pending event, every held pump is
/// busy, and no two pending events hold the same pump.
pub proof fn lemma_pump_occupancy(s: SimState)
    requires
        sim_inv(s),
    ensures
        busy_count(s.stations) <= s.stations.len(),
        forall|p: int| 0 <= p < s.stations.len() ==> s.stations[p] == 0 || s.stations[p] == 1,
        forall|p: int|
            0 <= p < s.stations.len() && s.stations[p] == 1 ==> exists|x: Event|
                #[trigger] s.queue.contains(x) && holds_pump(x.kind) && x.chosen_queue is Some
                    && x.chosen_queue->0 as int == p,
        forall|x: Event|
            #[trigger] s.queue.contains(x) && holds_pump(x.kind) ==> x.chosen_queue is Some
                && x.chosen_queue->0 < s.stations.len() && s.stations[x.chosen_queue->0 as int]
                == 1,
        forall|i: int, j: int|
            0 <= i < s.queue.len() && 0 <= j < s.queue.len() && i != j && holds_pump(
                s.queue[i].kind,
            ) && holds_pump(s.queue[j].kind) ==> s.queue[i].chosen_queue
                != s.queue[j].chosen_queue,
{
    lemma_busy_count_bounded(s.stations);
    assert forall|p: int| 0 <= p < s.stations.len() implies s.stations[p] == 0 || s.stations[p]
        == 1 by {
        assert(pumps_ok(s));
    }
    assert forall|i: int, j: int|
        0 <= i < s.queue.len() && 0 <= j < s.queue.len() && i != j && holds_pump(
            s.queue[i].kind,
        ) && holds_pump(s.queue[j].kind) implies s.queue[i].chosen_queue
        != s.queue[j].chosen_queue by {
        assert(!clash(s.queue[i], s.queue[j]));
    }
    assert forall|x: Event| #[trigger] s.queue.contains(x) && holds_pump(x.kind) implies x.chosen_queue is Some
        && x.chosen_queue->0 < s.stations.len() && s.stations[x.chosen_queue->0 as int] == 1 by {
        assert(event_ok(s, x));
    }
}

/// Customer `id` waits for a pump to be assigned: an ARRIVE or QUEUE of
/// theirs is pending.
pub open spec fn awaiting_pump(s: SimState, id: u64) -> bool {
    exists|x: Event| #[trigger] s.queue.contains(x) && x.customer.id == id && !holds_pump(x.kind)
}

/// Customer `id` holds a pump: a REFUEL, PAYMENT or DEPARTURE of theirs is
/// pending.
pub open spec fn at_pump(s: SimState, id: u64) -> bool {
    exists|x: Event| #[trigger] s.queue.contains(x) && x.customer.id == id && holds_pump(x.kind)
}

/// Customer `id` has left and their record is final.
pub open spec fn finalized(s: SimState, id: u64) -> bool {
    s.records.contains_key(id) && s.records[id].completed
}

pub open spec fn count_true(a: bool, b: bool, c: bool, d: bool) -> nat {
    (if a {
        1nat
    } else {
        0nat
    }) + (if b {
        1nat
    } else {
        0nat
    }) + (if c {
        1nat
    } else {
        0nat
    }) + (if d {
        1nat
    } else {
        0nat
    })
}

/// Every customer who has been created is in exactly one place: waiting for
/// a pump to be assigned, in a waiting line, at a pump, or gone with a final
/// record; and a customer in a line stands at one position only.
pub proof fn lemma_one_place(s: SimState, id: u64)
    requires
        sim_inv(s),
        id <= s.count,
    ensures
        count_true(awaiting_pump(s, id), in_line(s.lines, id), at_pump(s, id), finalized(s, id))
            == 1,
        forall|p1: int, k1: int, p2: int, k2: int|
            0 <= p1 < s.lines.len() && 0 <= k1 < s.lines[p1].len() && 0 <= p2 < s.lines.len() && 0
                <= k2 < s.lines[p2].len() && s.lines[p1][k1].id == id && s.lines[p2][k2].id == id
                ==> p1 == p2 && k1 == k2,
{
    assert(lines_ok(s));
    if awaiting_pump(s, id) && at_pump(s, id) {
        let x = choose|x: Event|
            #[trigger] s.queue.contains(x) && x.customer.id == id && !holds_pump(x.kind);
        let y = choose|y: Event|
            #[trigger] s.queue.contains(y) && y.customer.id == id && holds_pump(y.kind);
        let i = choose|i: int| 0 <= i < s.queue.len() && s.queue[i] == x;
        let j = choose|j: int| 0 <= j < s.queue.len() && s.queue[j] == y;
        assert(!clash(s.queue[i], s.queue[j]));
    }
    if in_line(s.lines, id) {
        let (p, k) = choose|p: int, k: int|
            0 <= p < s.lines.len() && 0 <= k < s.lines[p].len() && (#[trigger] s.lines[p][k]).id
                == id;
        assert(waiting_ok(s, s.lines[p][k]));
        assert(customer_ok(s, id));
    }
    if awaiting_pump(s, id) {
        let x = choose|x: Event|
            #[trigger] s.queue.contains(x) && x.customer.id == id && !holds_pump(x.kind);
        assert(event_ok(s, x));
        if id < s.count {
            assert(customer_ok(s, id));
        }
    }
    if at_pump(s, id) {
        let y = choose|y: Event|
            #[trigger] s.queue.contains(y) && y.customer.id == id && holds_pump(y.kind);
        assert(event_ok(s, y));
        assert(customer_ok(s, id));
    }
    if id < s.count {
        assert(customer_ok(s, id));
    } else {
        let x = choose|x: Event| #[trigger] s.queue.contains(x) && x.customer.id == s.count;
        assert(event_ok(s, x));
    }
}

/// The simulated clock never goes back: a step moves it to the time of the
/// event it processes, which is not before the current time.
pub proof fn lemma_clock_never_goes_back(s: SimState, d: Draws)
    requires
        sim_inv(s),
    ensures
        advance(s, d).0.time >= s.time,
{
    if s.queue.len() > 0 {
        assert(s.queue.contains(s.queue[0]));
        assert(event_ok(s, s.queue[0]));
    }
}

/// The events logged by running from `s` with the random outcomes `ds`, one
/// step per outcome.
pub open spec fn run_log(s: SimState, ds: Seq<Draws>) -> Seq<Option<Event>>
    decreases ds.len(),
{
    if ds.len() == 0 {
        Seq::empty()
    } else {
        let (next, logged) = advance(s, ds[0]);
        seq![logged] + run_log(next, ds.drop_first())
    }
}

/// Runs are reproducible: from equal states, the same stream of random
/// outcomes logs the same events.
pub proof fn lemma_same_draws_same_log(a: SimState, b: SimState, ds: Seq<Draws>)
    requires
        a == b,
    ensures
        run_log(a, ds) == run_log(b, ds),
    decreases ds.len(),
{
    if ds.len() > 0 {
        lemma_same_draws_same_log(advance(a, ds[0]).0, advance(b, ds[0]).0, ds.drop_first());
    }
}

} // verus!
