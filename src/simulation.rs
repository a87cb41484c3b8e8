//! A run of the station: its state, one step of the event loop, and the
//! properties that every step keeps.

use crate::customer::{fresh_record, Customer, CustomerRecord, PaymentMethod};
use crate::event::{Event, EventKind};
use crate::eventqueue::{sorted_insert, EventQueue};
use crate::run_inv::{lemma_advance_keeps_inv, lemma_departure_ready, queue_events, sim_inv};
use crate::routines::{
    any_available, any_free, arrival_event, arrive_routine, departure_routine,
    get_shortest_or_random_index, lines_view, pump_free, queue_event, queue_routine,
    refuel_event, refuel_routine, payment_routine, shortest_line, time_routine, with_departure,
    with_wait_start, with_wait_time,
};
use rand::rngs::StdRng;
use std::collections::HashMap;
use vstd::prelude::*;

verus! {

broadcast use vstd::std_specs::hash::group_hash_axioms;

/// The random outcomes one step may use: the duration the event's routine
/// draws (time to the next arrival, refuel time or payment time), the
/// payment method of the next customer, and for a QUEUE event the free pump
/// picked (`None` when all are busy) and the shortest line picked.
#[derive(Clone, Copy, Debug, PartialEq, Eq, Structural)]
pub struct Draws {
    pub delay: u64,
    pub method: PaymentMethod,
    pub free_pump: Option<u64>,
    pub line: usize,
}

/// The abstract state of a run. `stages[c]` lists the times at which the
/// events of customer `c` were processed, in stage order; `arrived` and
/// `queued` count the ARRIVE and QUEUE events processed.
pub struct SimState {
    pub queue: Seq<Event>,
    pub time: u64,
    pub count: u64,
    pub stations: Seq<i64>,
    pub lines: Seq<Seq<Customer>>,
    pub records: Map<u64, CustomerRecord>,
    pub stages: Map<u64, Seq<u64>>,
    pub arrived: nat,
    pub queued: nat,
}

/// `stages` with customer `id` having reached a new stage at `t`.
pub open spec fn stamp(stages: Map<u64, Seq<u64>>, id: u64, t: u64) -> Map<u64, Seq<u64>> {
    stages.insert(id, stages[id].push(t))
}

/// What processing the next event does to a run, and the event it logs.
pub open spec fn advance(s: SimState, d: Draws) -> (SimState, Option<Event>) {
    if s.queue.len() == 0 {
        (s, None)
    } else {
        let e = s.queue[0];
        let t = e.scheduled_time;
        let c = e.customer;
        let rest = s.queue.drop_first();
        match e.kind {
            EventKind::Arrive => (
                SimState {
                    queue: sorted_insert(
                        sorted_insert(rest, queue_event(c, t)),
                        arrival_event((s.count + 1) as u64, (t + d.delay) as u64, d.method),
                    ),
                    time: t,
                    count: (s.count + 1) as u64,
                    records: s.records.insert(c.id, fresh_record(c.payment_method, t)),
                    stages: s.stages.insert(c.id, seq![t]),
                    arrived: s.arrived + 1,
                    ..s
                },
                Some(e),
            ),
            EventKind::Queue => match d.free_pump {
                Some(p) => (
                    SimState {
                        queue: sorted_insert(rest, refuel_event(c, t, p)),
                        time: t,
                        stations: s.stations.update(p as int, 1),
                        stages: stamp(s.stages, c.id, t),
                        queued: s.queued + 1,
                        ..s
                    },
                    Some(e),
                ),
                None => (
                    SimState {
                        queue: rest,
                        time: t,
                        lines: s.lines.update(d.line as int, s.lines[d.line as int].push(c)),
                        records: with_wait_start(s.records, c.id, t),
                        stages: stamp(s.stages, c.id, t),
                        queued: s.queued + 1,
                        ..s
                    },
                    Some(e),
                ),
            },
            EventKind::Refuel => (
                SimState {
                    queue: sorted_insert(
                        rest,
                        Event {
                            kind: EventKind::Payment,
                            customer: c,
                            scheduled_time: (t + d.delay) as u64,
                            chosen_queue: e.chosen_queue,
                        },
                    ),
                    time: t,
                    stages: stamp(s.stages, c.id, t),
                    ..s
                },
                Some(e),
            ),
            EventKind::Payment => (
                SimState {
                    queue: sorted_insert(
                        rest,
                        Event {
                            kind: EventKind::Departure,
                            customer: c,
                            scheduled_time: (t + d.delay) as u64,
                            chosen_queue: e.chosen_queue,
                        },
                    ),
                    time: t,
                    stages: stamp(s.stages, c.id, t),
                    ..s
                },
                Some(e),
            ),
            EventKind::Departure => {
                let p = e.chosen_queue->0 as int;
                let total = (t - c.arrive_time) as u64;
                let done = with_departure(s.records, c.id, total);
                let logged = Event { customer: Customer { total_time: total, ..c }, ..e };
                if s.lines[p].len() == 0 {
                    (
                        SimState {
                            queue: rest,
                            time: t,
                            stations: s.stations.update(p, 0),
                            records: done,
                            stages: stamp(s.stages, c.id, t),
                            ..s
                        },
                        Some(logged),
                    )
                } else {
                    let c2 = s.lines[p][0];
                    (
                        SimState {
                            queue: sorted_insert(rest, refuel_event(c2, t, p as u64)),
                            time: t,
                            stations: s.stations.update(p, 1),
                            lines: s.lines.update(p, s.lines[p].drop_first()),
                            records: with_wait_time(done, c2.id, (t - c2.arrive_time) as u64),
                            stages: stamp(s.stages, c.id, t),
                            ..s
                        },
                        Some(logged),
                    )
                }
            },
        }
    }
}

/// The draws fit the state: the pump picked for a QUEUE event is free, and
/// when none is free the line picked is a shortest one.
pub open spec fn draws_fit(s: SimState, d: Draws) -> bool {
    s.queue.len() > 0 && s.queue[0].kind == EventKind::Queue ==> match d.free_pump {
        Some(p) => pump_free(s.stations, p as int),
        None => !any_free(s.stations) && shortest_line(s.lines, d.line as int),
    }
}

/// No clock or counter of the next step leaves `u64`: the time the next
/// event's routine schedules, and the customer count an ARRIVE raises.
pub open spec fn fits_in_u64(s: SimState, delay: u64) -> bool {
    s.queue.len() > 0 ==> match s.queue[0].kind {
        EventKind::Arrive => s.queue[0].scheduled_time + delay <= u64::MAX && s.count < u64::MAX,
        EventKind::Refuel | EventKind::Payment => s.queue[0].scheduled_time + delay <= u64::MAX,
        _ => true,
    }
}

/// A DEPARTURE at the front holds a pump, and its customer and the front
/// of that pump's line arrived no later than it.
pub open spec fn departure_ready(s: SimState) -> bool {
    s.queue.len() > 0 && s.queue[0].kind == EventKind::Departure ==> {
        let e = s.queue[0];
        &&& e.chosen_queue matches Some(p) && p < s.stations.len()
        &&& e.customer.arrive_time <= e.scheduled_time
        &&& forall|k: int|
            0 <= k < s.lines[e.chosen_queue->0 as int].len() ==> (#[trigger] s.lines[e.chosen_queue->0 as int][k]).arrive_time
                <= e.scheduled_time
    }
}

/// When a run stops: after a number of processed events, or once the next
/// event is at or past a simulated-time horizon.
#[derive(Clone, Copy, Debug, PartialEq, Eq, Structural)]
pub enum StopCondition {
    Steps(u64),
    Horizon(u64),
}

/// What the driver of a run does next: process the next event, stop because
/// the run is complete, or stop because the queue ran dry before the
/// requested number of events, which a run should never do.
#[derive(Clone, Copy, Debug, PartialEq, Eq, Structural)]
pub enum RunStatus {
    Continue,
    Done,
    Starved,
}

pub open spec fn run_status_of(stop: StopCondition, processed: u64, next: Option<Event>) -> RunStatus {
    match stop {
        StopCondition::Steps(n) => if processed >= n {
            RunStatus::Done
        } else if next is None {
            RunStatus::Starved
        } else {
            RunStatus::Continue
        },
        StopCondition::Horizon(h) => match next {
            None => RunStatus::Done,
            Some(e) => if e.scheduled_time >= h {
                RunStatus::Done
            } else {
                RunStatus::Continue
            },
        },
    }
}

/// Decides whether a run goes on, given how many events it has processed
/// and the next pending event. An empty queue ends a run bounded by a
/// horizon, and starves one bounded by a number of events.
pub fn run_status(stop: StopCondition, processed: u64, next: Option<Event>) -> (r: RunStatus)
    ensures
        r == run_status_of(stop, processed, next),
{
    match stop {
        StopCondition::Steps(n) => {
            if processed >= n {
                RunStatus::Done
            } else if next.is_none() {
                RunStatus::Starved
            } else {
                RunStatus::Continue
            }
        },
        StopCondition::Horizon(h) => match next {
            None => RunStatus::Done,
            Some(e) => {
                if e.scheduled_time >= h {
                    RunStatus::Done
                } else {
                    RunStatus::Continue
                }
            },
        },
    }
}

/// A run of the station: the pending events, the clock, the customers seen,
/// the pumps (1 busy, 0 free), one waiting line per pump, and a record per
/// customer who has arrived.
pub struct Simulation {
    pub event_queue: EventQueue,
    pub sim_time: u64,
    pub customer_count: u64,
    pub fuel_stations: Vec<i64>,
    pub customer_queues: Vec<Vec<Customer>>,
    pub customer_data: HashMap<u64, CustomerRecord>,
    pub stage_times: Ghost<Map<u64, Seq<u64>>>,
    pub arrive_events_done: Ghost<nat>,
    pub queue_events_done: Ghost<nat>,
}

impl View for Simulation {
    type V = SimState;

    open spec fn view(&self) -> SimState {
        SimState {
            queue: self.event_queue@,
            time: self.sim_time,
            count: self.customer_count,
            stations: self.fuel_stations@,
            lines: lines_view(self.customer_queues@),
            records: self.customer_data@,
            stages: self.stage_times@,
            arrived: self.arrive_events_done@,
            queued: self.queue_events_done@,
        }
    }
}

impl Simulation {
    pub open spec fn wf(&self) -> bool {
        &&& self.event_queue.wf()
        &&& self.fuel_stations@.len() == self.customer_queues@.len()
        &&& sim_inv(self@)
    }

    /// A run with `fuel_station_length` free pumps and empty lines, whose
    /// only pending event is the arrival of customer 0 at time 0.
    pub fn new(fuel_station_length: usize, rng: &mut StdRng) -> (r: Simulation)
        requires
            fuel_station_length > 0,
        ensures
            r.wf(),
            r@.time == 0,
            r@.count == 0,
            r@.stations == Seq::new(fuel_station_length as nat, |p: int| 0i64),
            r@.lines == Seq::new(fuel_station_length as nat, |p: int| Seq::<Customer>::empty()),
            r@.records == Map::<u64, CustomerRecord>::empty(),
            r@.queue.len() == 1,
            r@.queue[0].kind == EventKind::Arrive,
            r@.queue[0].customer.id == 0,
            r@.queue[0].scheduled_time == 0,
    {
        let mut fuel_stations: Vec<i64> = Vec::new();
        let mut customer_queues: Vec<Vec<Customer>> = Vec::new();
        let mut i: usize = 0;
        while i < fuel_station_length
            invariant
                i <= fuel_station_length,
                fuel_stations@ == Seq::new(i as nat, |p: int| 0i64),
                lines_view(customer_queues@) == Seq::new(
                    i as nat,
                    |p: int| Seq::<Customer>::empty(),
                ),
            decreases fuel_station_length - i,
        {
            fuel_stations.push(0);
            let ghost before = customer_queues@;
            assert(lines_view(before).len() == before.len());
            let line: Vec<Customer> = Vec::new();
            customer_queues.push(line);
            assert(fuel_stations@ =~= Seq::new((i + 1) as nat, |p: int| 0i64));
            assert forall|j: int| 0 <= j <= i implies (#[trigger] customer_queues@[j])@
                == Seq::<Customer>::empty() by {
                if j < i {
                    assert(customer_queues@[j] == before[j]);
                    assert(lines_view(before)[j] == before[j]@);
                }
            }
            assert(lines_view(customer_queues@) =~= Seq::new(
                (i + 1) as nat,
                |p: int| Seq::<Customer>::empty(),
            ));
            i = i + 1;
        }
        let mut event_queue = EventQueue::new();
        let first = Customer::new(0, 0, rng);
        event_queue.add(Event::new(EventKind::Arrive, first, 0, None));
        let sim = Simulation {
            event_queue,
            sim_time: 0,
            customer_count: 0,
            fuel_stations,
            customer_queues,
            customer_data: HashMap::new(),
            stage_times: Ghost(Map::empty()),
            arrive_events_done: Ghost(0),
            queue_events_done: Ghost(0),
        };
        proof {
            let s = sim@;
            assert(s.queue.len() == 1);
            assert(s.queue[0].customer == first);
            assert(s.queue.contains(s.queue[0]));
            assert(queue_events(s.queue.drop_first()) == 0);
            assert(lines_view(customer_queues@).len() == customer_queues@.len());
        }
        sim
    }

    /// The next event to process, if any.
    pub fn next_event(&self) -> (r: Option<Event>)
        ensures
            self@.queue.len() == 0 ==> r is None,
            self@.queue.len() > 0 ==> r == Some(self@.queue[0]),
    {
        self.event_queue.peek()
    }

    /// Processes the next event with the given random outcomes and returns
    /// it as logged (a DEPARTURE carries the customer's total time); `None`
    /// when nothing is pending.
    pub fn step_with(&mut self, d: Draws) -> (r: Option<Event>)
        requires
            old(self).wf(),
            draws_fit(old(self)@, d),
            fits_in_u64(old(self)@, d.delay),
        ensures
            final(self).wf(),
            (final(self)@, r) == advance(old(self)@, d),
    {
        let ghost s = self@;
        proof {
            lemma_departure_ready(s);
            lemma_advance_keeps_inv(s, d);
        }
        let mut clock = self.sim_time;
        let popped = time_routine(&mut self.event_queue, &mut clock);
        match popped {
            None => None,
            Some(e) => {
                self.sim_time = clock;
                let mut e = e;
                let ghost c = e.customer;
                let ghost t = e.scheduled_time;
                match e.kind {
                    EventKind::Arrive => {
                        arrive_routine(
                            &mut self.event_queue,
                            clock,
                            &e,
                            &mut self.customer_count,
                            &mut self.customer_data,
                            d.method,
                            d.delay,
                        );
                        self.stage_times = Ghost(self.stage_times@.insert(c.id, seq![t]));
                        self.arrive_events_done = Ghost(self.arrive_events_done@ + 1);
                    },
                    EventKind::Queue => {
                        queue_routine(
                            &mut self.event_queue,
                            clock,
                            &e,
                            &mut self.fuel_stations,
                            &mut self.customer_queues,
                            &mut self.customer_data,
                            d.free_pump,
                            d.line,
                        );
                        self.stage_times = Ghost(stamp(self.stage_times@, c.id, t));
                        self.queue_events_done = Ghost(self.queue_events_done@ + 1);
                    },
                    EventKind::Refuel => {
                        refuel_routine(&mut self.event_queue, clock, &e, d.delay);
                        self.stage_times = Ghost(stamp(self.stage_times@, c.id, t));
                    },
                    EventKind::Payment => {
                        payment_routine(&mut self.event_queue, clock, &e, d.delay);
                        self.stage_times = Ghost(stamp(self.stage_times@, c.id, t));
                    },
                    EventKind::Departure => {
                        departure_routine(
                            &mut self.event_queue,
                            clock,
                            &mut e,
                            &mut self.fuel_stations,
                            &mut self.customer_queues,
                            &mut self.customer_data,
                        );
                        self.stage_times = Ghost(stamp(self.stage_times@, c.id, t));
                    },
                }
                assert(self@ == advance(s, d).0);
                assert(self.customer_queues@.len() == lines_view(self.customer_queues@).len());
                assert(self.wf());
                Some(e)
            },
        }
    }

    /// Processes the next event. `delay` is the duration its routine needs
    /// (time to the next arrival for an ARRIVE, refuel time for a REFUEL,
    /// payment time for a PAYMENT; unused otherwise); the payment method of
    /// the next customer and the pump or line a QUEUE event picks are drawn
    /// uniformly from `rng`.
    pub fn step(&mut self, rng: &mut StdRng, delay: u64) -> (r: Option<Event>)
        requires
            old(self).wf(),
            fits_in_u64(old(self)@, delay),
        ensures
            final(self).wf(),
            exists|d: Draws|
                d.delay == delay && draws_fit(old(self)@, d) && (final(self)@, r) == advance(
                    old(self)@,
                    d,
                ),
    {
        let mut d = Draws { delay, method: PaymentMethod::Efectivo, free_pump: None, line: 0 };
        if let Some(next) = self.event_queue.peek() {
            match next.kind {
                EventKind::Arrive => {
                    d.method = PaymentMethod::random(rng);
                },
                EventKind::Queue => {
                    let (_, free) = any_available(self.fuel_stations.as_slice(), rng);
                    d.free_pump = free;
                    if free.is_none() {
                        d.line = get_shortest_or_random_index(self.customer_queues.as_slice(), rng);
                    }
                },
                _ => {},
            }
        }
        self.step_with(d)
    }
}

} // verus!
