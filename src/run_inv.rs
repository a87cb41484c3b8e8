//! What holds of every state a run goes through, and why each step keeps it.

use crate::customer::{Customer, CustomerRecord};
use crate::event::{event_le, holds_pump, kind_rank, Event, EventKind};
use crate::eventqueue::{
    events_sorted, insert_pos, lemma_insert_pos, lemma_sorted_insert, sorted_insert,
};
use crate::routines::{
    arrival_event, pump_free, queue_event, refuel_event, with_departure, with_wait_start,
    with_wait_time,
};
use crate::simulation::{advance, departure_ready, draws_fit, fits_in_u64, Draws, SimState};
use vstd::prelude::*;

verus! {

/// Customer `id` has a pending event.
pub open spec fn has_event(q: Seq<Event>, id: u64) -> bool {
    exists|x: Event| #[trigger] q.contains(x) && x.customer.id == id
}

/// Customer `id` stands in some waiting line.
pub open spec fn in_line(lines: Seq<Seq<Customer>>, id: u64) -> bool {
    exists|p: int, k: int|
        0 <= p < lines.len() && 0 <= k < lines[p].len() && (#[trigger] lines[p][k]).id == id
}

/// Two events that cannot both be pending: they concern one customer, or
/// they hold one pump.
pub open spec fn clash(a: Event, b: Event) -> bool {
    ||| a.customer.id == b.customer.id
    ||| holds_pump(a.kind) && holds_pump(b.kind) && a.chosen_queue == b.chosen_queue
}

/// No two pending events clash.
pub open spec fn exclusive(q: Seq<Event>) -> bool {
    forall|i: int, j: int|
        0 <= i < q.len() && 0 <= j < q.len() && i != j ==> !clash(#[trigger] q[i], #[trigger] q[j])
}

/// The record of `c` agrees with the copy of `c` being carried around.
pub open spec fn record_matches(s: SimState, c: Customer) -> bool {
    &&& s.records.contains_key(c.id)
    &&& s.records[c.id].arrival_time == c.arrive_time
    &&& s.records[c.id].payment_method == c.payment_method
}

/// A pending event is well placed: not before the clock nor its customer's
/// arrival; it holds a busy pump exactly from REFUEL on; an ARRIVE concerns
/// the next customer, any other event a customer who has reached the stage
/// just before it.
pub open spec fn event_ok(s: SimState, e: Event) -> bool {
    let c = e.customer;
    &&& c.arrive_time <= e.scheduled_time
    &&& s.time <= e.scheduled_time
    &&& c.total_time == 0
    &&& (e.chosen_queue is Some <==> holds_pump(e.kind))
    &&& (e.chosen_queue matches Some(p) ==> p < s.stations.len() && s.stations[p as int] == 1)
    &&& if e.kind == EventKind::Arrive {
        c.id == s.count && c.arrive_time == e.scheduled_time
    } else {
        &&& c.id < s.count
        &&& record_matches(s, c)
        &&& s.stages[c.id].len() == kind_rank(e.kind)
        &&& s.stages[c.id].last() <= e.scheduled_time
    }
}

/// A customer in a waiting line has asked for a pump, has no pending
/// event, and arrived no later than the clock.
pub open spec fn waiting_ok(s: SimState, c: Customer) -> bool {
    &&& c.id < s.count
    &&& record_matches(s, c)
    &&& s.stages[c.id].len() == 2
    &&& c.arrive_time <= s.time
    &&& c.total_time == 0
    &&& !has_event(s.queue, c.id)
}

pub open spec fn lines_ok(s: SimState) -> bool {
    &&& forall|p: int, k: int|
        0 <= p < s.lines.len() && 0 <= k < s.lines[p].len() ==> waiting_ok(
            s,
            #[trigger] s.lines[p][k],
        )
    &&& forall|p: int| 0 <= p < s.lines.len() && (#[trigger] s.lines[p]).len() > 0 ==> s.stations[p] == 1
    &&& forall|p1: int, k1: int, p2: int, k2: int|
        0 <= p1 < s.lines.len() && 0 <= k1 < s.lines[p1].len() && 0 <= p2 < s.lines.len() && 0
            <= k2 < s.lines[p2].len() && (p1 != p2 || k1 != k2) ==> (#[trigger] s.lines[p1][k1]).id
            != (#[trigger] s.lines[p2][k2]).id
}

/// What is known of a customer who has arrived: the stage times are in
/// order and not after the clock, they start at the recorded arrival, the
/// record is completed exactly after the fifth stage and then holds the time
/// spent, and until then the customer is pending or waiting somewhere.
pub open spec fn customer_ok(s: SimState, id: u64) -> bool {
    let st = s.stages[id];
    let r = s.records[id];
    &&& 1 <= st.len() <= 5
    &&& forall|a: int, b: int| 0 <= a < b < st.len() ==> st[a] <= st[b]
    &&& forall|a: int| 0 <= a < st.len() ==> st[a] <= s.time
    &&& st[0] == r.arrival_time
    &&& r.completed <==> st.len() == 5
    &&& st.len() == 5 ==> r.total_time == st[4] - st[0]
    &&& st.len() == 5 || has_event(s.queue, id) || in_line(s.lines, id)
}

/// Editing a record keeps every customer's arrival time and payment method,
/// and which customers have records.
pub proof fn lemma_record_edits(m: Map<u64, CustomerRecord>, id: u64, v: u64)
    ensures
        forall|k: u64|
            #![trigger with_wait_start(m, id, v).contains_key(k)]
            #![trigger with_wait_start(m, id, v)[k]]
            with_wait_start(m, id, v).contains_key(k) == m.contains_key(k) && (m.contains_key(k)
                ==> with_wait_start(m, id, v)[k].arrival_time == m[k].arrival_time
                && with_wait_start(m, id, v)[k].payment_method == m[k].payment_method
                && with_wait_start(m, id, v)[k].completed == m[k].completed
                && with_wait_start(m, id, v)[k].total_time == m[k].total_time),
        forall|k: u64|
            #![trigger with_wait_time(m, id, v).contains_key(k)]
            #![trigger with_wait_time(m, id, v)[k]]
            with_wait_time(m, id, v).contains_key(k) == m.contains_key(k) && (m.contains_key(k)
                ==> with_wait_time(m, id, v)[k].arrival_time == m[k].arrival_time
                && with_wait_time(m, id, v)[k].payment_method == m[k].payment_method
                && with_wait_time(m, id, v)[k].completed == m[k].completed
                && with_wait_time(m, id, v)[k].total_time == m[k].total_time),
        forall|k: u64|
            #![trigger with_departure(m, id, v).contains_key(k)]
            #![trigger with_departure(m, id, v)[k]]
            with_departure(m, id, v).contains_key(k) == m.contains_key(k) && (m.contains_key(k)
                ==> with_departure(m, id, v)[k].arrival_time == m[k].arrival_time
                && with_departure(m, id, v)[k].payment_method == m[k].payment_method && (k != id
                ==> with_departure(m, id, v)[k].completed == m[k].completed
                && with_departure(m, id, v)[k].total_time == m[k].total_time) && (k == id
                ==> with_departure(m, id, v)[k].completed && with_departure(m, id, v)[k].total_time
                == v)),
{
}

/// The number of pending QUEUE events.
pub open spec fn queue_events(q: Seq<Event>) -> nat
    decreases q.len(),
{
    if q.len() == 0 {
        0
    } else {
        (if q[0].kind == EventKind::Queue {
            1nat
        } else {
            0nat
        }) + queue_events(q.drop_first())
    }
}

/// A pump is busy exactly when a pending event holds it.
pub open spec fn pumps_ok(s: SimState) -> bool {
    &&& s.stations.len() > 0
    &&& s.lines.len() == s.stations.len()
    &&& forall|p: int| 0 <= p < s.stations.len() ==> #[trigger] s.stations[p] == 0 || s.stations[p] == 1
    &&& forall|p: int|
        0 <= p < s.stations.len() && #[trigger] s.stations[p] == 1 ==> exists|x: Event|
            #[trigger] s.queue.contains(x) && holds_pump(x.kind) && x.chosen_queue is Some && x.chosen_queue->0 as int == p
}

/// The invariant of a run.
pub open spec fn sim_inv(s: SimState) -> bool {
    &&& pumps_ok(s)
    &&& events_sorted(s.queue)
    &&& exclusive(s.queue)
    &&& forall|x: Event| #[trigger] s.queue.contains(x) ==> event_ok(s, x)
    &&& has_event(s.queue, s.count)
    &&& lines_ok(s)
    &&& forall|id: u64| #[trigger] s.records.contains_key(id) <==> id < s.count
    &&& forall|id: u64| #[trigger] s.stages.contains_key(id) <==> id < s.count
    &&& forall|id: u64| id < s.count ==> #[trigger] customer_ok(s, id)
    &&& s.arrived == s.count
    &&& s.count == s.queued + queue_events(s.queue)
}

/// Inserting in place adds `e` and loses nothing.
pub proof fn lemma_insert_contains(s: Seq<Event>, e: Event)
    requires
        events_sorted(s),
    ensures
        forall|x: Event| #[trigger] sorted_insert(s, e).contains(x) <==> s.contains(x) || x == e,
{
    lemma_insert_pos(s, e);
    let k = insert_pos(s, e);
    let r = sorted_insert(s, e);
    assert forall|x: Event| #[trigger] r.contains(x) <==> s.contains(x) || x == e by {
        if r.contains(x) {
            let i = choose|i: int| 0 <= i < r.len() && r[i] == x;
            if i < k {
                assert(s[i] == x);
            } else if i > k {
                assert(s[i - 1] == x);
            }
        }
        if s.contains(x) {
            let i = choose|i: int| 0 <= i < s.len() && s[i] == x;
            if i < k {
                assert(r[i] == x);
            } else {
                assert(r[i + 1] == x);
            }
        }
        if x == e {
            assert(r[k] == e);
        }
    }
}

/// An event that clashes with no pending one keeps the queue exclusive.
pub proof fn lemma_insert_exclusive(s: Seq<Event>, e: Event)
    requires
        events_sorted(s),
        exclusive(s),
        forall|x: Event| #[trigger] s.contains(x) ==> !clash(x, e),
    ensures
        exclusive(sorted_insert(s, e)),
{
    lemma_insert_pos(s, e);
    let k = insert_pos(s, e);
    let r = sorted_insert(s, e);
    assert forall|i: int, j: int|
        0 <= i < r.len() && 0 <= j < r.len() && i != j implies !clash(
        #[trigger] r[i],
        #[trigger] r[j],
    ) by {
        let si = if i < k { i } else { i - 1 };
        let sj = if j < k { j } else { j - 1 };
        if i == k {
            assert(s.contains(s[sj]));
        } else if j == k {
            assert(s.contains(s[si]));
        } else {
            assert(r[i] == s[si] && r[j] == s[sj]);
        }
    }
}

/// QUEUE events in a sequence with one more event.
pub proof fn lemma_queue_events_insert(s: Seq<Event>, i: int, e: Event)
    requires
        0 <= i <= s.len(),
    ensures
        queue_events(s.insert(i, e)) == queue_events(s) + if e.kind == EventKind::Queue {
            1nat
        } else {
            0nat
        },
    decreases s.len(),
{
    let r = s.insert(i, e);
    if i == 0 {
        assert(r.drop_first() =~= s);
    } else {
        assert(r.drop_first() =~= s.drop_first().insert(i - 1, e));
        lemma_queue_events_insert(s.drop_first(), i - 1, e);
    }
}

pub proof fn lemma_queue_events_sorted_insert(s: Seq<Event>, e: Event)
    requires
        events_sorted(s),
    ensures
        queue_events(sorted_insert(s, e)) == queue_events(s) + if e.kind == EventKind::Queue {
            1nat
        } else {
            0nat
        },
{
    lemma_insert_pos(s, e);
    lemma_queue_events_insert(s, insert_pos(s, e), e);
}

/// What is left once the front event is taken: still sorted and exclusive,
/// nothing in it clashes with the front event or goes before it.
pub proof fn lemma_pop(s: Seq<Event>)
    requires
        s.len() > 0,
        events_sorted(s),
        exclusive(s),
    ensures
        events_sorted(s.drop_first()),
        exclusive(s.drop_first()),
        forall|x: Event| #[trigger] s.drop_first().contains(x) ==> s.contains(x) && !clash(s[0], x)
            && event_le(s[0], x),
        forall|x: Event| #[trigger] s.contains(x) ==> x == s[0] || s.drop_first().contains(x),
        queue_events(s.drop_first()) + (if s[0].kind == EventKind::Queue {
            1nat
        } else {
            0nat
        }) == queue_events(s),
{
    let r = s.drop_first();
    assert forall|x: Event| #[trigger] r.contains(x) implies s.contains(x) && !clash(s[0], x)
        && event_le(s[0], x) by {
        let i = choose|i: int| 0 <= i < r.len() && r[i] == x;
        assert(s[i + 1] == x);
    }
    assert forall|x: Event| #[trigger] s.contains(x) implies x == s[0] || r.contains(x) by {
        let i = choose|i: int| 0 <= i < s.len() && s[i] == x;
        if i > 0 {
            assert(r[i - 1] == x);
        }
    }
    assert forall|i: int, j: int|
        0 <= i < r.len() && 0 <= j < r.len() && i != j implies !clash(
        #[trigger] r[i],
        #[trigger] r[j],
    ) by {
        assert(r[i] == s[i + 1] && r[j] == s[j + 1]);
    }
}

/// REFUEL and PAYMENT keep the invariant: the customer moves on to the
/// next stage at the same pump.
pub proof fn lemma_forward_keeps_inv(s: SimState, d: Draws)
    requires
        sim_inv(s),
        s.queue.len() > 0,
        s.queue[0].kind == EventKind::Refuel || s.queue[0].kind == EventKind::Payment,
        fits_in_u64(s, d.delay),
    ensures
        sim_inv(advance(s, d).0),
{
    let q = s.queue;
    let e = q[0];
    let c = e.customer;
    let t = e.scheduled_time;
    let rest = q.drop_first();
    let s2 = advance(s, d).0;
    let ne = Event {
        kind: if e.kind == EventKind::Refuel {
            EventKind::Payment
        } else {
            EventKind::Departure
        },
        customer: c,
        scheduled_time: (t + d.delay) as u64,
        chosen_queue: e.chosen_queue,
    };
    assert(s2.queue == sorted_insert(rest, ne));
    assert(q.contains(e));
    assert(event_ok(s, e));
    lemma_pop(q);
    lemma_sorted_insert(rest, ne);
    lemma_insert_contains(rest, ne);
    lemma_insert_exclusive(rest, ne);
    lemma_queue_events_sorted_insert(rest, ne);
    assert(s2.queue.contains(ne));
    assert forall|x: Event| #[trigger] s2.queue.contains(x) implies event_ok(s2, x) by {
        if x != ne {
            assert(rest.contains(x));
            assert(event_ok(s, x));
        }
    }
    assert forall|p: int|
        0 <= p < s2.stations.len() && #[trigger] s2.stations[p] == 1 implies exists|x: Event|
        #[trigger] s2.queue.contains(x) && holds_pump(x.kind) && x.chosen_queue is Some && x.chosen_queue->0 as int == p by {
        let x = choose|x: Event|
            #[trigger] q.contains(x) && holds_pump(x.kind) && x.chosen_queue is Some && x.chosen_queue->0 as int == p;
        if x != e {
            assert(s2.queue.contains(x));
        } else {
            assert(s2.queue.contains(ne));
        }
    }
    let xa = choose|x: Event| #[trigger] q.contains(x) && x.customer.id == s.count;
    assert(s2.queue.contains(xa));
    assert forall|pp: int, k: int|
        0 <= pp < s2.lines.len() && 0 <= k < s2.lines[pp].len() implies waiting_ok(
        s2,
        #[trigger] s2.lines[pp][k],
    ) by {
        let w = s2.lines[pp][k];
        assert(waiting_ok(s, w));
        assert(w.id != c.id);
        if has_event(s2.queue, w.id) {
            let x = choose|x: Event| #[trigger] s2.queue.contains(x) && x.customer.id == w.id;
            if x != ne {
                assert(q.contains(x));
            }
        }
    }
    assert forall|id: u64| id < s2.count implies #[trigger] customer_ok(s2, id) by {
        assert(customer_ok(s, id));
        if id != c.id && !in_line(s.lines, id) && s.stages[id].len() != 5 {
            let x = choose|x: Event| #[trigger] q.contains(x) && x.customer.id == id;
            assert(s2.queue.contains(x));
        }
    }
}

/// ARRIVE keeps the invariant: the customer is recorded and asks for a pump
/// at once, and the next customer's arrival is pending.
pub proof fn lemma_arrive_keeps_inv(s: SimState, d: Draws)
    requires
        sim_inv(s),
        s.queue.len() > 0,
        s.queue[0].kind == EventKind::Arrive,
        fits_in_u64(s, d.delay),
    ensures
        sim_inv(advance(s, d).0),
{
    let q = s.queue;
    let e = q[0];
    let c = e.customer;
    let t = e.scheduled_time;
    let rest = q.drop_first();
    let s2 = advance(s, d).0;
    let qe = queue_event(c, t);
    let ae = arrival_event((s.count + 1) as u64, (t + d.delay) as u64, d.method);
    let q1 = sorted_insert(rest, qe);
    assert(s2.queue == sorted_insert(q1, ae));
    assert(q.contains(e));
    assert(event_ok(s, e));
    lemma_pop(q);
    assert forall|x: Event| #[trigger] rest.contains(x) implies x.kind != EventKind::Arrive
        && x.customer.id < s.count && event_ok(s, x) by {
        assert(q.contains(x));
    }
    lemma_sorted_insert(rest, qe);
    lemma_insert_contains(rest, qe);
    lemma_insert_exclusive(rest, qe);
    lemma_queue_events_sorted_insert(rest, qe);
    assert forall|x: Event| #[trigger] q1.contains(x) implies x.customer.id <= s.count by {
        if x != qe {
            assert(rest.contains(x));
        }
    }
    lemma_sorted_insert(q1, ae);
    lemma_insert_contains(q1, ae);
    lemma_insert_exclusive(q1, ae);
    lemma_queue_events_sorted_insert(q1, ae);
    assert(s2.queue.contains(qe));
    assert(s2.queue.contains(ae));
    assert forall|x: Event| #[trigger] s2.queue.contains(x) implies event_ok(s2, x) by {
        if x != qe && x != ae {
            assert(rest.contains(x));
        }
    }
    assert forall|p: int|
        0 <= p < s2.stations.len() && #[trigger] s2.stations[p] == 1 implies exists|x: Event|
        #[trigger] s2.queue.contains(x) && holds_pump(x.kind) && x.chosen_queue is Some && x.chosen_queue->0 as int == p by {
        let x = choose|x: Event|
            #[trigger] q.contains(x) && holds_pump(x.kind) && x.chosen_queue is Some && x.chosen_queue->0 as int == p;
        assert(rest.contains(x));
        assert(q1.contains(x));
        assert(s2.queue.contains(x));
    }
    assert forall|pp: int, k: int|
        0 <= pp < s2.lines.len() && 0 <= k < s2.lines[pp].len() implies waiting_ok(
        s2,
        #[trigger] s2.lines[pp][k],
    ) by {
        let w = s2.lines[pp][k];
        assert(waiting_ok(s, w));
        if has_event(s2.queue, w.id) {
            let x = choose|x: Event| #[trigger] s2.queue.contains(x) && x.customer.id == w.id;
            if x != qe && x != ae {
                assert(rest.contains(x));
                assert(q.contains(x));
            }
        }
    }
    assert forall|id: u64| id < s2.count implies #[trigger] customer_ok(s2, id) by {
        if id != c.id {
            assert(customer_ok(s, id));
            if !in_line(s.lines, id) && s.stages[id].len() != 5 {
                let x = choose|x: Event| #[trigger] q.contains(x) && x.customer.id == id;
                assert(rest.contains(x));
                assert(q1.contains(x));
                assert(s2.queue.contains(x));
            }
        }
    }
    assert forall|id: u64| #[trigger] s2.records.contains_key(id) <==> id < s2.count by {
    }
}

/// QUEUE keeps the invariant: the customer takes a free pump, or joins a
/// line when every pump is busy.
pub proof fn lemma_queue_keeps_inv(s: SimState, d: Draws)
    requires
        sim_inv(s),
        s.queue.len() > 0,
        s.queue[0].kind == EventKind::Queue,
        draws_fit(s, d),
    ensures
        sim_inv(advance(s, d).0),
{
    let q = s.queue;
    let e = q[0];
    let c = e.customer;
    let t = e.scheduled_time;
    let rest = q.drop_first();
    let s2 = advance(s, d).0;
    assert(q.contains(e));
    assert(event_ok(s, e));
    lemma_pop(q);
    assert forall|x: Event| #[trigger] rest.contains(x) implies x.customer.id != c.id && event_ok(
        s,
        x,
    ) by {
        assert(q.contains(x));
    }
    assert(customer_ok(s, c.id));
    match d.free_pump {
        Some(p) => {
            let re = refuel_event(c, t, p);
            assert(s2.queue == sorted_insert(rest, re));
            lemma_sorted_insert(rest, re);
            lemma_insert_contains(rest, re);
            lemma_insert_exclusive(rest, re);
            lemma_queue_events_sorted_insert(rest, re);
            assert(s2.queue.contains(re));
            assert forall|x: Event| #[trigger] s2.queue.contains(x) implies event_ok(s2, x) by {
                if x != re {
                    assert(rest.contains(x));
                }
            }
            assert forall|pp: int|
                0 <= pp < s2.stations.len() && #[trigger] s2.stations[pp] == 1 implies exists|
                x: Event,
            | #[trigger] s2.queue.contains(x) && holds_pump(x.kind) && x.chosen_queue is Some && x.chosen_queue->0 as int == pp by {
                if pp != p as int {
                    let x = choose|x: Event|
                        #[trigger] q.contains(x) && holds_pump(x.kind) && x.chosen_queue is Some && x.chosen_queue->0 as int == pp;
                    assert(rest.contains(x));
                    assert(s2.queue.contains(x));
                }
            }
            let xa = choose|x: Event| #[trigger] q.contains(x) && x.customer.id == s.count;
            assert(rest.contains(xa));
            assert(s2.queue.contains(xa));
            assert forall|pp: int, k: int|
                0 <= pp < s2.lines.len() && 0 <= k < s2.lines[pp].len() implies waiting_ok(
                s2,
                #[trigger] s2.lines[pp][k],
            ) by {
                let w = s2.lines[pp][k];
                assert(waiting_ok(s, w));
                assert(w.id != c.id);
                if has_event(s2.queue, w.id) {
                    let x = choose|x: Event|
                        #[trigger] s2.queue.contains(x) && x.customer.id == w.id;
                    if x != re {
                        assert(q.contains(x));
                    }
                }
            }
            assert forall|id: u64| id < s2.count implies #[trigger] customer_ok(s2, id) by {
                assert(customer_ok(s, id));
                if id != c.id && !in_line(s.lines, id) && s.stages[id].len() != 5 {
                    let x = choose|x: Event| #[trigger] q.contains(x) && x.customer.id == id;
                    assert(s2.queue.contains(x));
                }
            }
        },
        None => {
            let l = d.line as int;
            let old_len = s.lines[l].len() as int;
            assert(s2.queue == rest);
            assert forall|x: Event| #[trigger] s2.queue.contains(x) implies event_ok(s2, x) by {
                assert(rest.contains(x));
            }
            assert forall|pp: int|
                0 <= pp < s2.stations.len() && #[trigger] s2.stations[pp] == 1 implies exists|
                x: Event,
            | #[trigger] s2.queue.contains(x) && holds_pump(x.kind) && x.chosen_queue is Some && x.chosen_queue->0 as int == pp by {
                let x = choose|x: Event|
                    #[trigger] q.contains(x) && holds_pump(x.kind) && x.chosen_queue is Some && x.chosen_queue->0 as int == pp;
                assert(rest.contains(x));
            }
            let xa = choose|x: Event| #[trigger] q.contains(x) && x.customer.id == s.count;
            assert(rest.contains(xa));
            assert(s2.lines[l][old_len] == c);
            assert(!has_event(rest, c.id));
            assert forall|pp: int, k: int|
                0 <= pp < s2.lines.len() && 0 <= k < s2.lines[pp].len() implies waiting_ok(
                s2,
                #[trigger] s2.lines[pp][k],
            ) by {
                let w = s2.lines[pp][k];
                if pp != l || k != old_len {
                    assert(w == s.lines[pp][k]);
                    assert(waiting_ok(s, w));
                    assert(w.id != c.id);
                    if has_event(s2.queue, w.id) {
                        let x = choose|x: Event|
                            #[trigger] s2.queue.contains(x) && x.customer.id == w.id;
                        assert(q.contains(x));
                    }
                }
            }
            assert forall|pp: int|
                0 <= pp < s2.lines.len() && (#[trigger] s2.lines[pp]).len() > 0 implies s2.stations[pp]
                == 1 by {
                if s.stations[pp] == 0 {
                    assert(pump_free(s.stations, pp));
                }
            }
            assert forall|p1: int, k1: int, p2: int, k2: int|
                0 <= p1 < s2.lines.len() && 0 <= k1 < s2.lines[p1].len() && 0 <= p2
                    < s2.lines.len() && 0 <= k2 < s2.lines[p2].len() && (p1 != p2 || k1
                    != k2) implies (#[trigger] s2.lines[p1][k1]).id != (
            #[trigger] s2.lines[p2][k2]).id by {
                let a_new = p1 == l && k1 == old_len;
                let b_new = p2 == l && k2 == old_len;
                if !a_new {
                    assert(s2.lines[p1][k1] == s.lines[p1][k1]);
                    assert(waiting_ok(s, s.lines[p1][k1]));
                }
                if !b_new {
                    assert(s2.lines[p2][k2] == s.lines[p2][k2]);
                    assert(waiting_ok(s, s.lines[p2][k2]));
                }
            }
            assert forall|id: u64| id < s2.count implies #[trigger] customer_ok(s2, id) by {
                assert(customer_ok(s, id));
                if id == c.id {
                    assert(in_line(s2.lines, id));
                } else if s.stages[id].len() != 5 {
                    if in_line(s.lines, id) {
                        let (pp, k) = choose|pp: int, k: int|
                            0 <= pp < s.lines.len() && 0 <= k < s.lines[pp].len() && (
                            #[trigger] s.lines[pp][k]).id == id;
                        assert(s2.lines[pp][k] == s.lines[pp][k]);
                    } else {
                        let x = choose|x: Event| #[trigger] q.contains(x) && x.customer.id == id;
                        assert(rest.contains(x));
                    }
                }
            }
        },
    }
}

/// DEPARTURE keeps the invariant: the customer's record is completed, and
/// the pump passes to the front of its line or becomes free.
pub proof fn lemma_departure_keeps_inv(s: SimState, d: Draws)
    requires
        sim_inv(s),
        s.queue.len() > 0,
        s.queue[0].kind == EventKind::Departure,
    ensures
        sim_inv(advance(s, d).0),
{
    let q = s.queue;
    let e = q[0];
    let c = e.customer;
    let t = e.scheduled_time;
    let rest = q.drop_first();
    let s2 = advance(s, d).0;
    assert(q.contains(e));
    assert(event_ok(s, e));
    let p = e.chosen_queue->0 as int;
    lemma_pop(q);
    assert forall|x: Event| #[trigger] rest.contains(x) implies x.customer.id != c.id && event_ok(
        s,
        x,
    ) && x.chosen_queue != Some(p as u64) by {
        assert(q.contains(x));
    }
    assert(customer_ok(s, c.id));
    let xa = choose|x: Event| #[trigger] q.contains(x) && x.customer.id == s.count;
    assert(rest.contains(xa));
    if s.lines[p].len() == 0 {
        assert(s2.queue == rest);
        assert forall|x: Event| #[trigger] s2.queue.contains(x) implies event_ok(s2, x) by {
            assert(rest.contains(x));
        }
        assert forall|pp: int|
            0 <= pp < s2.stations.len() && #[trigger] s2.stations[pp] == 1 implies exists|x: Event|
            #[trigger] s2.queue.contains(x) && holds_pump(x.kind) && x.chosen_queue is Some && x.chosen_queue->0 as int == pp by {
            assert(pp != p);
            let x = choose|x: Event|
                #[trigger] q.contains(x) && holds_pump(x.kind) && x.chosen_queue is Some && x.chosen_queue->0 as int == pp;
            assert(rest.contains(x));
        }
        assert forall|pp: int, k: int|
            0 <= pp < s2.lines.len() && 0 <= k < s2.lines[pp].len() implies waiting_ok(
            s2,
            #[trigger] s2.lines[pp][k],
        ) by {
            let w = s2.lines[pp][k];
            assert(waiting_ok(s, w));
            assert(w.id != c.id);
            if has_event(s2.queue, w.id) {
                let x = choose|x: Event| #[trigger] s2.queue.contains(x) && x.customer.id == w.id;
                assert(q.contains(x));
            }
        }
        assert forall|id: u64| id < s2.count implies #[trigger] customer_ok(s2, id) by {
            assert(customer_ok(s, id));
            if id != c.id && !in_line(s.lines, id) && s.stages[id].len() != 5 {
                let x = choose|x: Event| #[trigger] q.contains(x) && x.customer.id == id;
                assert(s2.queue.contains(x));
            }
        }
    } else {
        let c2 = s.lines[p][0];
        assert(waiting_ok(s, c2));
        lemma_record_edits(s.records, c.id, (t - c.arrive_time) as u64);
        lemma_record_edits(
            with_departure(s.records, c.id, (t - c.arrive_time) as u64),
            c2.id,
            (t - c2.arrive_time) as u64,
        );
        lemma_record_edits(s.records, c.id, (t - c.arrive_time) as u64);
        lemma_record_edits(
            with_departure(s.records, c.id, (t - c.arrive_time) as u64),
            c2.id,
            (t - c2.arrive_time) as u64,
        );
        let re = refuel_event(c2, t, p as u64);
        assert(s2.queue == sorted_insert(rest, re));
        assert forall|x: Event| #[trigger] rest.contains(x) implies x.customer.id != c2.id by {
            assert(q.contains(x));
        }
        lemma_sorted_insert(rest, re);
        lemma_insert_contains(rest, re);
        lemma_insert_exclusive(rest, re);
        lemma_queue_events_sorted_insert(rest, re);
        assert(s2.queue.contains(re));
        assert(c2.id != c.id);
        assert forall|x: Event| #[trigger] s2.queue.contains(x) implies event_ok(s2, x) by {
            if x != re {
                assert(rest.contains(x));
                assert(event_ok(s, x));
                assert(x.customer.id != c.id);
                assert(s2.stages[x.customer.id] == s.stages[x.customer.id]);
                if x.kind != EventKind::Arrive {
                    let done = with_departure(s.records, c.id, (t - c.arrive_time) as u64);
                    assert(done.contains_key(x.customer.id));
                    assert(done[x.customer.id].arrival_time == x.customer.arrive_time);
                    assert(record_matches(s2, x.customer));
                }
            } else {
                assert(record_matches(s2, c2));
                assert(s2.stages[c2.id] == s.stages[c2.id]);
                assert(customer_ok(s, c2.id));
                assert(s.stages[c2.id].last() <= s.time);
            }
        }
        assert forall|pp: int|
            0 <= pp < s2.stations.len() && #[trigger] s2.stations[pp] == 1 implies exists|x: Event|
            #[trigger] s2.queue.contains(x) && holds_pump(x.kind) && x.chosen_queue is Some && x.chosen_queue->0 as int == pp by {
            if pp != p {
                let x = choose|x: Event|
                    #[trigger] q.contains(x) && holds_pump(x.kind) && x.chosen_queue is Some && x.chosen_queue->0 as int == pp;
                assert(rest.contains(x));
                assert(s2.queue.contains(x));
            }
        }
        assert(s2.queue.contains(xa));
        assert forall|pp: int, k: int|
            0 <= pp < s2.lines.len() && 0 <= k < s2.lines[pp].len() implies waiting_ok(
            s2,
            #[trigger] s2.lines[pp][k],
        ) by {
            let k0 = if pp == p {
                k + 1
            } else {
                k
            };
            let w = s2.lines[pp][k];
            assert(w == s.lines[pp][k0]);
            assert(waiting_ok(s, w));
            assert(w.id != c.id);
            assert(w.id != c2.id);
            if has_event(s2.queue, w.id) {
                let x = choose|x: Event| #[trigger] s2.queue.contains(x) && x.customer.id == w.id;
                if x != re {
                    assert(q.contains(x));
                }
            }
        }
        assert forall|p1: int, k1: int, p2: int, k2: int|
            0 <= p1 < s2.lines.len() && 0 <= k1 < s2.lines[p1].len() && 0 <= p2 < s2.lines.len()
                && 0 <= k2 < s2.lines[p2].len() && (p1 != p2 || k1 != k2) implies (
        #[trigger] s2.lines[p1][k1]).id != (#[trigger] s2.lines[p2][k2]).id by {
            let j1 = if p1 == p {
                k1 + 1
            } else {
                k1
            };
            let j2 = if p2 == p {
                k2 + 1
            } else {
                k2
            };
            assert(s2.lines[p1][k1] == s.lines[p1][j1]);
            assert(s2.lines[p2][k2] == s.lines[p2][j2]);
        }
        assert forall|id: u64| id < s2.count implies #[trigger] customer_ok(s2, id) by {
            assert(customer_ok(s, id));
            if id != c.id && id != c2.id && s.stages[id].len() != 5 {
                if in_line(s.lines, id) {
                    let (pp, k) = choose|pp: int, k: int|
                        0 <= pp < s.lines.len() && 0 <= k < s.lines[pp].len() && (
                        #[trigger] s.lines[pp][k]).id == id;
                    if pp == p {
                        assert(k != 0);
                        assert(s2.lines[pp][k - 1] == s.lines[pp][k]);
                    } else {
                        assert(s2.lines[pp][k] == s.lines[pp][k]);
                    }
                } else {
                    let x = choose|x: Event| #[trigger] q.contains(x) && x.customer.id == id;
                    assert(rest.contains(x));
                    assert(s2.queue.contains(x));
                }
            }
        }
    }
}

/// Every step keeps the invariant.
pub proof fn lemma_advance_keeps_inv(s: SimState, d: Draws)
    requires
        sim_inv(s),
        draws_fit(s, d),
        fits_in_u64(s, d.delay),
    ensures
        sim_inv(advance(s, d).0),
{
    if s.queue.len() > 0 {
        match s.queue[0].kind {
            EventKind::Arrive => lemma_arrive_keeps_inv(s, d),
            EventKind::Queue => lemma_queue_keeps_inv(s, d),
            EventKind::Refuel => lemma_forward_keeps_inv(s, d),
            EventKind::Payment => lemma_forward_keeps_inv(s, d),
            EventKind::Departure => lemma_departure_keeps_inv(s, d),
        }
    }
}

/// The invariant gives what DEPARTURE needs: a pump, and customers who
/// arrived no later than it.
pub proof fn lemma_departure_ready(s: SimState)
    requires
        sim_inv(s),
    ensures
        departure_ready(s),
{
    if s.queue.len() > 0 && s.queue[0].kind == EventKind::Departure {
        let e = s.queue[0];
        assert(s.queue.contains(e));
        let p = e.chosen_queue->0 as int;
        assert forall|k: int| 0 <= k < s.lines[p].len() implies (#[trigger] s.lines[p][k]).arrive_time
            <= e.scheduled_time by {
            assert(waiting_ok(s, s.lines[p][k]));
        }
    }
}

} // verus!
