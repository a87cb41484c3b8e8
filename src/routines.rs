//! The station's policies and the five routines that handle events.

use crate::customer::{fresh_record, Customer, CustomerRecord, PaymentMethod};
use crate::event::{Event, EventKind};
use crate::eventqueue::{sorted_insert, EventQueue};
use crate::random::{choose_one, draw_below};
use rand::rngs::StdRng;
use std::collections::HashMap;
use vstd::prelude::*;

verus! {

broadcast use vstd::std_specs::hash::group_hash_axioms;

/// Pump `p` exists and is free (a busy pump holds 1, a free one 0).
pub open spec fn pump_free(stations: Seq<i64>, p: int) -> bool {
    0 <= p < stations.len() && stations[p] == 0
}

pub open spec fn any_free(stations: Seq<i64>) -> bool {
    exists|p: int| pump_free(stations, p)
}

/// The waiting lines as sequences of customers, front first.
pub open spec fn lines_view(lines: Seq<Vec<Customer>>) -> Seq<Seq<Customer>> {
    lines.map_values(|l: Vec<Customer>| l@)
}

/// Line `l` exists and no line is shorter.
pub open spec fn shortest_line(lines: Seq<Seq<Customer>>, l: int) -> bool {
    0 <= l < lines.len() && forall|m: int|
        0 <= m < lines.len() ==> lines[l].len() <= (#[trigger] lines[m]).len()
}

pub open spec fn increasing_u64(s: Seq<u64>) -> bool {
    forall|i: int, j: int| 0 <= i < j < s.len() ==> s[i] < s[j]
}

pub open spec fn increasing_usize(s: Seq<usize>) -> bool {
    forall|i: int, j: int| 0 <= i < j < s.len() ==> s[i] < s[j]
}

/// The event in which `c` asks for a pump at `t`.
pub open spec fn queue_event(c: Customer, t: u64) -> Event {
    Event { kind: EventKind::Queue, customer: c, scheduled_time: t, chosen_queue: None }
}

/// The arrival of a new customer `id` at `t`, paying with `m`.
pub open spec fn arrival_event(id: u64, t: u64, m: PaymentMethod) -> Event {
    Event {
        kind: EventKind::Arrive,
        customer: Customer { id, arrive_time: t, total_time: 0, payment_method: m },
        scheduled_time: t,
        chosen_queue: None,
    }
}

/// The event in which `c` starts refuelling at pump `p` at `t`.
pub open spec fn refuel_event(c: Customer, t: u64, p: u64) -> Event {
    Event { kind: EventKind::Refuel, customer: c, scheduled_time: t, chosen_queue: Some(p) }
}

/// The records with the wait of customer `id` starting at `t` (unchanged
/// when `id` has no record).
pub open spec fn with_wait_start(m: Map<u64, CustomerRecord>, id: u64, t: u64) -> Map<
    u64,
    CustomerRecord,
> {
    if m.contains_key(id) {
        let r = m[id];
        m.insert(
            id,
            CustomerRecord {
                payment_method: r.payment_method,
                arrival_time: r.arrival_time,
                wait_start_time: t,
                wait_time: r.wait_time,
                total_time: r.total_time,
                completed: r.completed,
            },
        )
    } else {
        m
    }
}

/// The records with customer `id` having waited `w` for a pump.
pub open spec fn with_wait_time(m: Map<u64, CustomerRecord>, id: u64, w: u64) -> Map<
    u64,
    CustomerRecord,
> {
    if m.contains_key(id) {
        let r = m[id];
        m.insert(
            id,
            CustomerRecord {
                payment_method: r.payment_method,
                arrival_time: r.arrival_time,
                wait_start_time: r.wait_start_time,
                wait_time: w,
                total_time: r.total_time,
                completed: r.completed,
            },
        )
    } else {
        m
    }
}

/// The records with customer `id` gone after `total` in the station.
pub open spec fn with_departure(m: Map<u64, CustomerRecord>, id: u64, total: u64) -> Map<
    u64,
    CustomerRecord,
> {
    if m.contains_key(id) {
        let r = m[id];
        m.insert(
            id,
            CustomerRecord {
                payment_method: r.payment_method,
                arrival_time: r.arrival_time,
                wait_start_time: r.wait_start_time,
                wait_time: r.wait_time,
                total_time: total,
                completed: true,
            },
        )
    } else {
        m
    }
}

fn record_wait_start(customer_data: &mut HashMap<u64, CustomerRecord>, id: u64, t: u64)
    ensures
        final(customer_data)@ == with_wait_start(old(customer_data)@, id, t),
{
    let found = match customer_data.get(&id) {
        Some(r) => Some(*r),
        None => None,
    };
    if let Some(r) = found {
        let mut r = r;
        r.wait_start_time = t;
        customer_data.insert(id, r);
    }
}

fn record_wait_time(customer_data: &mut HashMap<u64, CustomerRecord>, id: u64, w: u64)
    ensures
        final(customer_data)@ == with_wait_time(old(customer_data)@, id, w),
{
    let found = match customer_data.get(&id) {
        Some(r) => Some(*r),
        None => None,
    };
    if let Some(r) = found {
        let mut r = r;
        r.wait_time = w;
        customer_data.insert(id, r);
    }
}

fn record_departure(customer_data: &mut HashMap<u64, CustomerRecord>, id: u64, total: u64)
    ensures
        final(customer_data)@ == with_departure(old(customer_data)@, id, total),
{
    let found = match customer_data.get(&id) {
        Some(r) => Some(*r),
        None => None,
    };
    if let Some(r) = found {
        let mut r = r;
        r.total_time = total;
        r.completed = true;
        customer_data.insert(id, r);
    }
}

/// The indices of the free pumps, in increasing order.
pub fn free_pumps(arr: &[i64]) -> (r: Vec<u64>)
    ensures
        increasing_u64(r@),
        forall|k: int| 0 <= k < r@.len() ==> pump_free(arr@, r@[k] as int),
        forall|p: int| pump_free(arr@, p) ==> r@.contains(p as u64),
{
    let mut r: Vec<u64> = Vec::new();
    let mut i: usize = 0;
    while i < arr.len()
        invariant
            i <= arr@.len(),
            increasing_u64(r@),
            forall|k: int| 0 <= k < r@.len() ==> r@[k] < i && pump_free(arr@, r@[k] as int),
            forall|p: int| 0 <= p < i && pump_free(arr@, p) ==> r@.contains(p as u64),
        decreases arr@.len() - i,
    {
        if arr[i] == 0 {
            let ghost before = r@;
            r.push(i as u64);
            assert(r@[r@.len() - 1] == i as u64);
            assert forall|p: int| 0 <= p < i && pump_free(arr@, p) implies r@.contains(
                p as u64,
            ) by {
                let k = choose|k: int| 0 <= k < before.len() && before[k] == p as u64;
                assert(r@[k] == before[k]);
            }
        }
        i = i + 1;
    }
    r
}

/// Whether some pump is free, and if so one free pump drawn uniformly
/// from `rng`.
pub fn any_available(arr: &[i64], rng: &mut StdRng) -> (r: (bool, Option<u64>))
    ensures
        r.0 == any_free(arr@),
        r.1 is Some == r.0,
        r.1 matches Some(p) ==> pump_free(arr@, p as int),
{
    let free = free_pumps(arr);
    let chosen = choose_one(rng, &free);
    let has_free = free.len() > 0;
    if !has_free {
        assert forall|p: int| !pump_free(arr@, p) by {
            if pump_free(arr@, p) {
                assert(free@.contains(p as u64));
            }
        }
    } else {
        assert(pump_free(arr@, free@[0] as int));
    }
    if let Some(p) = chosen {
        let ghost k = choose|k: int| 0 <= k < free@.len() && free@[k] == p;
        assert(pump_free(arr@, free@[k] as int));
    }
    (has_free, chosen)
}

/// The indices of the shortest waiting lines, in increasing order.
pub fn shortest_lines(customer_queues: &[Vec<Customer>]) -> (r: Vec<usize>)
    ensures
        increasing_usize(r@),
        forall|k: int|
            0 <= k < r@.len() ==> shortest_line(lines_view(customer_queues@), r@[k] as int),
        forall|l: int|
            shortest_line(lines_view(customer_queues@), l) ==> r@.contains(l as usize),
{
    let ghost lv = lines_view(customer_queues@);
    let mut shortest_indexes: Vec<usize> = Vec::new();
    let mut shortest_length: usize = usize::MAX;
    let ghost mut witness: int = 0;
    let mut index: usize = 0;
    while index < customer_queues.len()
        invariant
            lv == lines_view(customer_queues@),
            index <= customer_queues@.len(),
            increasing_usize(shortest_indexes@),
            index > 0 ==> 0 <= witness < index && lv[witness].len() == shortest_length,
            index > 0 ==> shortest_indexes@.len() > 0,
            index == 0 ==> shortest_length == usize::MAX,
            forall|m: int| 0 <= m < index ==> shortest_length <= (#[trigger] lv[m]).len(),
            forall|k: int|
                0 <= k < shortest_indexes@.len() ==> shortest_indexes@[k] < index
                    && lv[shortest_indexes@[k] as int].len() == shortest_length,
            forall|m: int|
                0 <= m < index && lv[m].len() == shortest_length ==> shortest_indexes@.contains(
                    m as usize,
                ),
        decreases customer_queues@.len() - index,
    {
        let queue_length = customer_queues[index].len();
        assert(lv[index as int].len() == queue_length);
        if queue_length < shortest_length {
            shortest_length = queue_length;
            shortest_indexes = Vec::new();
            shortest_indexes.push(index);
            proof {
                witness = index as int;
            }
            assert(shortest_indexes@[0] == index);
        } else if queue_length == shortest_length {
            let ghost before = shortest_indexes@;
            shortest_indexes.push(index);
            assert forall|m: int|
                0 <= m < index && lv[m].len() == shortest_length implies shortest_indexes@.contains(
                m as usize,
            ) by {
                let k = choose|k: int| 0 <= k < before.len() && before[k] == m as usize;
                assert(shortest_indexes@[k] == before[k]);
            }
            proof {
                if index == 0 {
                    witness = 0;
                }
            }
            assert(shortest_indexes@[shortest_indexes@.len() - 1] == index);
        }
        index = index + 1;
    }
    proof {
        assert forall|l: int| shortest_line(lv, l) implies shortest_indexes@.contains(
            l as usize,
        ) by {
            assert(lv[l].len() <= lv[witness].len());
        }
    }
    shortest_indexes
}

/// Some line is shortest when there is at least one.
pub proof fn lemma_shortest_line_exists(lines: Seq<Seq<Customer>>) -> (l: int)
    requires
        lines.len() > 0,
    ensures
        shortest_line(lines, l),
    decreases lines.len(),
{
    if lines.len() == 1 {
        0
    } else {
        let k = lemma_shortest_line_exists(lines.drop_last());
        assert(forall|m: int| 0 <= m < lines.len() - 1 ==> lines.drop_last()[m] == lines[m]);
        if lines[k].len() <= lines.last().len() {
            k
        } else {
            lines.len() - 1
        }
    }
}

/// The shortest waiting line; among lines of equal length one is drawn
/// uniformly from `rng`.
pub fn get_shortest_or_random_index(customer_queues: &[Vec<Customer>], rng: &mut StdRng) -> (r:
    usize)
    requires
        customer_queues@.len() > 0,
    ensures
        shortest_line(lines_view(customer_queues@), r as int),
{
    let shortest_indexes = shortest_lines(customer_queues);
    let ghost lv = lines_view(customer_queues@);
    proof {
        let l = lemma_shortest_line_exists(lv);
        assert(shortest_indexes@.contains(l as usize));
    }
    let k = draw_below(rng, shortest_indexes.len());
    shortest_indexes[k]
}

/// Milliseconds in a minute of simulated time.
pub const MS_PER_MINUTE: u64 = 60_000;

/// Mean and standard deviation, in milliseconds, of the normal distribution
/// of refuel times.
pub fn refuel_time_params() -> (r: (u64, u64))
    ensures
        r == (120_000u64, 9_000u64),
{
    (120_000, 9_000)
}

/// Takes the front customer off line `index`; `None` when there are no
/// lines or that line is empty.
pub fn process_customer_queues(customer_queues: &mut Vec<Vec<Customer>>, index: usize) -> (r:
    Option<Customer>)
    requires
        old(customer_queues)@.len() == 0 || index < old(customer_queues)@.len(),
    ensures
        old(customer_queues)@.len() == 0 || lines_view(old(customer_queues)@)[index as int].len()
            == 0 ==> r is None && final(customer_queues)@ == old(customer_queues)@,
        old(customer_queues)@.len() > 0 && lines_view(old(customer_queues)@)[index as int].len()
            > 0 ==> r == Some(lines_view(old(customer_queues)@)[index as int][0]) && lines_view(
            final(customer_queues)@,
        ) == lines_view(old(customer_queues)@).update(
            index as int,
            lines_view(old(customer_queues)@)[index as int].drop_first(),
        ),
{
    if customer_queues.len() == 0 {
        return None;
    }
    if customer_queues[index].len() == 0 {
        return None;
    }
    let customer = customer_queues[index].remove(0);
    assert(lines_view(customer_queues@) =~= lines_view(old(customer_queues)@).update(
        index as int,
        lines_view(old(customer_queues)@)[index as int].drop_first(),
    ));
    Some(customer)
}

/// Takes the earliest event off the queue and moves the clock to its time.
pub fn time_routine(event_queue: &mut EventQueue, clock: &mut u64) -> (r: Option<Event>)
    requires
        old(event_queue).wf(),
    ensures
        final(event_queue).wf(),
        old(event_queue)@.len() == 0 ==> r is None && final(event_queue)@ == old(event_queue)@
            && *final(clock) == *old(clock),
        old(event_queue)@.len() > 0 ==> r == Some(old(event_queue)@[0]) && final(event_queue)@
            == old(event_queue)@.drop_first() && *final(clock) == old(event_queue)@[0].scheduled_time,
{
    match event_queue.pop_earliest() {
        Some(event) => {
            *clock = event.scheduled_time;
            Some(event)
        },
        None => None,
    }
}

/// ARRIVE: counts the customer, records their arrival, lets them ask for a
/// pump at once and schedules the next customer `gap` later.
pub fn arrive_routine(
    event_queue: &mut EventQueue,
    sim_time: u64,
    e: &Event,
    customer_count: &mut u64,
    customer_data: &mut HashMap<u64, CustomerRecord>,
    next_method: PaymentMethod,
    gap: u64,
)
    requires
        old(event_queue).wf(),
        *old(customer_count) < u64::MAX,
        sim_time + gap <= u64::MAX,
    ensures
        final(event_queue).wf(),
        *final(customer_count) == *old(customer_count) + 1,
        final(customer_data)@ == old(customer_data)@.insert(
            e.customer.id,
            fresh_record(e.customer.payment_method, sim_time),
        ),
        final(event_queue)@ == sorted_insert(
            sorted_insert(old(event_queue)@, queue_event(e.customer, sim_time)),
            arrival_event(
                (*old(customer_count) + 1) as u64,
                (sim_time + gap) as u64,
                next_method,
            ),
        ),
{
    *customer_count = *customer_count + 1;
    let next_arrival_time = sim_time + gap;
    customer_data.insert(e.customer.id, CustomerRecord::new(e.customer.payment_method, sim_time));
    let queue_event = Event::new(EventKind::Queue, e.customer, sim_time, None);
    event_queue.add(queue_event);
    let new_customer = Customer::with_method(*customer_count, next_arrival_time, next_method);
    let new_event = Event::new(EventKind::Arrive, new_customer, next_arrival_time, None);
    event_queue.add(new_event);
}

/// QUEUE: the customer takes the free pump `free_pump` and starts
/// refuelling at once; when every pump is busy (`free_pump` is `None`) they
/// join the end of line `line`, one of the shortest, and their wait starts.
pub fn queue_routine(
    event_queue: &mut EventQueue,
    sim_time: u64,
    e: &Event,
    fuel_stations: &mut Vec<i64>,
    customer_queues: &mut Vec<Vec<Customer>>,
    customer_data: &mut HashMap<u64, CustomerRecord>,
    free_pump: Option<u64>,
    line: usize,
)
    requires
        old(event_queue).wf(),
        old(fuel_stations)@.len() == old(customer_queues)@.len(),
        free_pump matches Some(p) ==> pump_free(old(fuel_stations)@, p as int),
        free_pump is None ==> !any_free(old(fuel_stations)@) && shortest_line(
            lines_view(old(customer_queues)@),
            line as int,
        ),
    ensures
        final(event_queue).wf(),
        free_pump matches Some(p) ==> final(fuel_stations)@ == old(fuel_stations)@.update(
            p as int,
            1,
        ) && final(event_queue)@ == sorted_insert(
            old(event_queue)@,
            refuel_event(e.customer, sim_time, p),
        ) && final(customer_queues)@ == old(customer_queues)@ && final(customer_data)@ == old(
            customer_data,
        )@,
        free_pump is None ==> final(fuel_stations)@ == old(fuel_stations)@ && final(event_queue)@
            == old(event_queue)@ && lines_view(final(customer_queues)@) == lines_view(
            old(customer_queues)@,
        ).update(line as int, lines_view(old(customer_queues)@)[line as int].push(e.customer))
            && final(customer_data)@ == with_wait_start(
            old(customer_data)@,
            e.customer.id,
            sim_time,
        ),
{
    match free_pump {
        Some(p) => {
            let refuel = Event::new(EventKind::Refuel, e.customer, sim_time, Some(p));
            event_queue.add(refuel);
            let n = fuel_stations.len();
            assert(p < n);
            fuel_stations.set(p as usize, 1);
        },
        None => {
            customer_queues[line].push(e.customer);
            assert(lines_view(customer_queues@) =~= lines_view(old(customer_queues)@).update(
                line as int,
                lines_view(old(customer_queues)@)[line as int].push(e.customer),
            ));
            record_wait_start(customer_data, e.customer.id, sim_time);
        },
    }
}

/// REFUEL: the customer pays `refuel_time` after starting to refuel, at
/// the same pump.
pub fn refuel_routine(event_queue: &mut EventQueue, sim_time: u64, e: &Event, refuel_time: u64)
    requires
        old(event_queue).wf(),
        sim_time + refuel_time <= u64::MAX,
    ensures
        final(event_queue).wf(),
        final(event_queue)@ == sorted_insert(
            old(event_queue)@,
            Event {
                kind: EventKind::Payment,
                customer: e.customer,
                scheduled_time: (sim_time + refuel_time) as u64,
                chosen_queue: e.chosen_queue,
            },
        ),
{
    let payment = Event::new(EventKind::Payment, e.customer, sim_time + refuel_time, e.chosen_queue);
    event_queue.add(payment);
}

/// PAYMENT: the customer leaves `payment_time` after starting to pay, from
/// the same pump.
pub fn payment_routine(event_queue: &mut EventQueue, sim_time: u64, e: &Event, payment_time: u64)
    requires
        old(event_queue).wf(),
        sim_time + payment_time <= u64::MAX,
    ensures
        final(event_queue).wf(),
        final(event_queue)@ == sorted_insert(
            old(event_queue)@,
            Event {
                kind: EventKind::Departure,
                customer: e.customer,
                scheduled_time: (sim_time + payment_time) as u64,
                chosen_queue: e.chosen_queue,
            },
        ),
{
    let departure = Event::new(
        EventKind::Departure,
        e.customer,
        sim_time + payment_time,
        e.chosen_queue,
    );
    event_queue.add(departure);
}

/// DEPARTURE: the customer's time in the station is recorded and their pump
/// is released; when the pump's line is not empty its front customer takes
/// the pump at once (it stays busy), otherwise the pump becomes free.
pub fn departure_routine(
    event_queue: &mut EventQueue,
    sim_time: u64,
    e: &mut Event,
    fuel_stations: &mut Vec<i64>,
    customer_queues: &mut Vec<Vec<Customer>>,
    customer_data: &mut HashMap<u64, CustomerRecord>,
)
    requires
        old(event_queue).wf(),
        old(fuel_stations)@.len() == old(customer_queues)@.len(),
        old(e).chosen_queue matches Some(p) && p < old(fuel_stations)@.len(),
        old(e).customer.arrive_time <= sim_time,
        forall|k: int|
            0 <= k < lines_view(old(customer_queues)@)[old(e).chosen_queue->0 as int].len()
                ==> (#[trigger] lines_view(old(customer_queues)@)[old(
                e,
            ).chosen_queue->0 as int][k]).arrive_time <= sim_time,
    ensures
        ({
            let p = old(e).chosen_queue->0 as int;
            let c = old(e).customer;
            let lv = lines_view(old(customer_queues)@);
            let done = with_departure(
                old(customer_data)@,
                c.id,
                (sim_time - c.arrive_time) as u64,
            );
            &&& final(event_queue).wf()
            &&& *final(e) == (Event {
                customer: Customer { total_time: (sim_time - c.arrive_time) as u64, ..c },
                ..*old(e)
            })
            &&& lv[p].len() == 0 ==> {
                &&& final(fuel_stations)@ == old(fuel_stations)@.update(p, 0)
                &&& final(customer_queues)@ == old(customer_queues)@
                &&& final(event_queue)@ == old(event_queue)@
                &&& final(customer_data)@ == done
            }
            &&& lv[p].len() > 0 ==> {
                &&& final(fuel_stations)@ == old(fuel_stations)@.update(p, 1)
                &&& lines_view(final(customer_queues)@) == lv.update(p, lv[p].drop_first())
                &&& final(event_queue)@ == sorted_insert(
                    old(event_queue)@,
                    refuel_event(lv[p][0], sim_time, p as u64),
                )
                &&& final(customer_data)@ == with_wait_time(
                    done,
                    lv[p][0].id,
                    (sim_time - lv[p][0].arrive_time) as u64,
                )
            }
        }),
{
    let total = sim_time - e.customer.arrive_time;
    e.customer.total_time = total;
    record_departure(customer_data, e.customer.id, total);
    let pump = match e.chosen_queue {
        Some(p) => p,
        None => 0,
    };
    let n = fuel_stations.len();
    assert(pump < n);
    fuel_stations.set(pump as usize, 0);
    let ghost lv = lines_view(old(customer_queues)@);
    if let Some(next) = process_customer_queues(customer_queues, pump as usize) {
        assert(next == lv[pump as int][0]);
        fuel_stations.set(pump as usize, 1);
        let refuel = Event::new(EventKind::Refuel, next, sim_time, Some(pump));
        event_queue.add(refuel);
        record_wait_time(customer_data, next.id, sim_time - next.arrive_time);
    }
}

} // verus!
