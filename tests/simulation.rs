use fuel_station::customer::PaymentMethod;
use fuel_station::event::{Event, EventKind};
use fuel_station::random::uniform_gap;
use fuel_station::routines::{free_pumps, refuel_time_params, shortest_lines, MS_PER_MINUTE};
use fuel_station::simulation::{run_status, Draws, RunStatus, Simulation, StopCondition};
use rand::Rng;
use rand::SeedableRng;
use rand::rngs::StdRng;
use rand_distr::{Distribution, Normal};
use std::collections::HashMap;

fn minutes(m: u64) -> u64 {
    m * MS_PER_MINUTE
}

fn normal_ms(rng: &mut StdRng, (mean, sd): (u64, u64)) -> u64 {
    let x: f64 = Normal::new(mean as f64, sd as f64).unwrap().sample(rng);
    if x <= 0.0 {
        0
    } else {
        x.round() as u64
    }
}

fn holding(e: &Event) -> bool {
    matches!(e.kind, EventKind::Refuel | EventKind::Payment | EventKind::Departure)
}

/// Runs until the next event is at or after `horizon`, with delays from
/// `delay_for`, and returns the logged events.
fn run_until(
    sim: &mut Simulation,
    rng: &mut StdRng,
    horizon: u64,
    mut delay_for: impl FnMut(&Event, &mut StdRng) -> u64,
    mut check: impl FnMut(&Simulation),
) -> Vec<Event> {
    let mut log = Vec::new();
    while let Some(next) = sim.next_event() {
        if next.scheduled_time >= horizon {
            break;
        }
        let d = delay_for(&next, rng);
        log.push(sim.step(rng, d).unwrap());
        check(sim);
    }
    log
}

fn fixed_delays(e: &Event, _: &mut StdRng) -> u64 {
    match e.kind {
        EventKind::Arrive => minutes(30),
        EventKind::Refuel => minutes(25),
        EventKind::Payment => minutes(10),
        _ => 0,
    }
}

#[test]
fn one_pump_waits_grow_when_service_exceeds_interval() {
    let mut rng = StdRng::seed_from_u64(42);
    let mut sim = Simulation::new(1, &mut rng);
    run_until(&mut sim, &mut rng, minutes(200), fixed_delays, |_| {});
    let data = &sim.customer_data;
    assert_eq!(data[&0].total_time, minutes(35));
    assert_eq!(data[&0].wait_time, 0);
    assert_eq!(data[&1].wait_start_time, minutes(30));
    assert_eq!(data[&1].wait_time, minutes(5));
    assert_eq!(data[&1].total_time, minutes(40));
    assert_eq!(data[&2].wait_time, minutes(10));
    assert_eq!(data[&3].wait_time, minutes(15));
    let waits: Vec<u64> = (1..=5).map(|i| data[&i].wait_time).collect();
    assert!(waits.windows(2).all(|w| w[0] < w[1]));
}

#[test]
fn four_pumps_never_hold_more_than_four_customers() {
    for (seed, lo, hi) in [(1u64, 15u64, 45u64), (2, 0, 1)] {
        let mut rng = StdRng::seed_from_u64(seed);
        let mut sim = Simulation::new(4, &mut rng);
        let mut max_waiting = 0;
        run_until(
            &mut sim,
            &mut rng,
            minutes(3000),
            |e, rng| match e.kind {
                EventKind::Arrive => uniform_gap(rng, minutes(lo), minutes(hi)),
                EventKind::Refuel => normal_ms(rng, refuel_time_params()),
                EventKind::Payment => normal_ms(rng, e.customer.payment_method.payment_time_params()),
                _ => 0,
            },
            |s| {
                let held = s.event_queue.q.iter().filter(|e| holding(e)).count();
                let at_pump = s
                    .event_queue
                    .q
                    .iter()
                    .filter(|e| matches!(e.kind, EventKind::Payment | EventKind::Departure))
                    .count();
                let busy = s.fuel_stations.iter().filter(|&&b| b == 1).count();
                assert!(held <= 4 && at_pump <= 4);
                assert_eq!(held, busy);
                assert!(s.fuel_stations.iter().all(|&b| b == 0 || b == 1));
                let waiting: usize = s.customer_queues.iter().map(|l| l.len()).sum();
                max_waiting = max_waiting.max(waiting);
            },
        );
        if hi <= 1 {
            assert!(max_waiting > 0);
        }
    }
}

/// Draws that fit the simulation's state: the first free pump, or else the
/// first shortest line.
fn fitting_draws(sim: &Simulation, delay: u64, method: PaymentMethod) -> Draws {
    let free = free_pumps(&sim.fuel_stations);
    let line = shortest_lines(&sim.customer_queues)[0];
    Draws { delay, method, free_pump: free.first().copied(), line }
}

#[test]
fn average_time_follows_payment_method() {
    let mut averages = Vec::new();
    for method in [PaymentMethod::Efectivo, PaymentMethod::Tarjeta, PaymentMethod::CopecApp] {
        let mut rng = StdRng::seed_from_u64(9);
        let mut sim = Simulation::new(4, &mut rng);
        // the first customer was drawn at random: force the method from the next one on
        let mut steps = 0;
        while steps < 3000 {
            let next = sim.next_event().unwrap();
            let delay = match next.kind {
                EventKind::Arrive => minutes(30),
                EventKind::Refuel => normal_ms(&mut rng, refuel_time_params()),
                EventKind::Payment => normal_ms(&mut rng, next.customer.payment_method.payment_time_params()),
                _ => 0,
            };
            let d = fitting_draws(&sim, delay, method);
            sim.step_with(d);
            steps += 1;
        }
        let done: Vec<u64> = sim
            .customer_data
            .iter()
            .filter(|(&id, r)| id > 0 && r.completed)
            .map(|(_, r)| {
                assert_eq!(r.payment_method, method);
                r.total_time
            })
            .collect();
        assert!(done.len() > 100);
        averages.push(done.iter().sum::<u64>() as f64 / done.len() as f64);
    }
    assert!(averages[0] >= averages[1]);
    assert!(averages[1] >= averages[2]);
}

fn busy_run(seed: u64, steps: usize) -> (Vec<Event>, Simulation) {
    let mut rng = StdRng::seed_from_u64(seed);
    let mut sim = Simulation::new(2, &mut rng);
    let mut log = Vec::new();
    for _ in 0..steps {
        let next = sim.next_event().unwrap();
        let delay = match next.kind {
            EventKind::Arrive => rng.gen_range(0..minutes(2)),
            EventKind::Refuel => normal_ms(&mut rng, refuel_time_params()),
            EventKind::Payment => normal_ms(&mut rng, next.customer.payment_method.payment_time_params()),
            _ => 0,
        };
        log.push(sim.step(&mut rng, delay).unwrap());
    }
    (log, sim)
}

#[test]
fn same_seed_gives_identical_logs() {
    let (a, _) = busy_run(17, 600);
    let (b, _) = busy_run(17, 600);
    assert_eq!(format!("{:?}", a), format!("{:?}", b));
    let (c, _) = busy_run(18, 600);
    assert_ne!(format!("{:?}", a), format!("{:?}", c));
}

#[test]
fn every_arrival_is_queued() {
    let (log, sim) = busy_run(23, 800);
    let arrivals = log.iter().filter(|e| e.kind == EventKind::Arrive).count() as u64;
    let queues = log.iter().filter(|e| e.kind == EventKind::Queue).count() as u64;
    let pending = sim.event_queue.q.iter().filter(|e| e.kind == EventKind::Queue).count() as u64;
    assert_eq!(arrivals, sim.customer_count);
    assert_eq!(arrivals, queues + pending);
    for (i, e) in log.iter().enumerate() {
        if e.kind == EventKind::Arrive {
            let q = log[i..]
                .iter()
                .chain(sim.event_queue.q.iter())
                .find(|x| x.kind == EventKind::Queue && x.customer.id == e.customer.id)
                .unwrap();
            assert_eq!(q.scheduled_time, e.scheduled_time);
        }
    }
}

#[test]
fn stages_of_each_customer_are_in_order() {
    let (log, sim) = busy_run(29, 1000);
    let mut stages: HashMap<u64, Vec<(u64, u64)>> = HashMap::new();
    let mut clock = 0;
    for e in &log {
        assert!(e.scheduled_time >= clock);
        clock = e.scheduled_time;
        stages.entry(e.customer.id).or_default().push((e.kind.rank(), e.scheduled_time));
    }
    let mut finished = 0;
    for (id, st) in &stages {
        for (k, &(rank, _)) in st.iter().enumerate() {
            assert_eq!(rank, k as u64);
        }
        assert!(st.windows(2).all(|w| w[0].1 <= w[1].1));
        if st.len() == 5 {
            finished += 1;
            let r = sim.customer_data[id];
            assert!(r.completed);
            assert_eq!(r.total_time, st[4].1 - st[0].1);
        }
    }
    assert!(finished > 50);
}

#[test]
fn each_customer_is_in_one_place() {
    let mut rng = StdRng::seed_from_u64(31);
    let mut sim = Simulation::new(3, &mut rng);
    for _ in 0..1500 {
        let next = sim.next_event().unwrap();
        let delay = match next.kind {
            EventKind::Arrive => rng.gen_range(0..minutes(1)),
            EventKind::Refuel => minutes(2),
            EventKind::Payment => minutes(1),
            _ => 0,
        };
        sim.step(&mut rng, delay);
        for id in 0..=sim.customer_count {
            let events: Vec<&Event> =
                sim.event_queue.q.iter().filter(|e| e.customer.id == id).collect();
            let in_lines: usize = sim
                .customer_queues
                .iter()
                .map(|l| l.iter().filter(|c| c.id == id).count())
                .sum();
            let finalized = sim.customer_data.get(&id).map_or(false, |r| r.completed);
            assert!(events.len() <= 1 && in_lines <= 1);
            let places = events.len() + in_lines + finalized as usize;
            assert_eq!(places, 1, "customer {}", id);
        }
    }
}

#[test]
fn freed_pump_goes_to_waiting_customer_at_once() {
    let mut rng = StdRng::seed_from_u64(5);
    let mut sim = Simulation::new(1, &mut rng);
    let mut handovers = 0;
    for _ in 0..400 {
        let next = sim.next_event().unwrap();
        let line_before = sim.customer_queues[0].len();
        let delay = match next.kind {
            EventKind::Arrive => minutes(1),
            EventKind::Refuel => minutes(2),
            EventKind::Payment => minutes(1),
            _ => 0,
        };
        let e = sim.step(&mut rng, delay).unwrap();
        if e.kind == EventKind::Departure && line_before > 0 {
            handovers += 1;
            assert_eq!(sim.fuel_stations[0], 1);
            assert!(sim.event_queue.q.iter().any(|x| x.kind == EventKind::Refuel
                && x.scheduled_time == e.scheduled_time
                && x.chosen_queue == e.chosen_queue));
            assert_eq!(sim.customer_queues[0].len(), line_before - 1);
        }
    }
    assert!(handovers > 10);
}

#[test]
fn new_run_starts_with_customer_zero() {
    let mut rng = StdRng::seed_from_u64(0);
    let sim = Simulation::new(5, &mut rng);
    assert_eq!(sim.fuel_stations, vec![0; 5]);
    assert_eq!(sim.customer_queues.len(), 5);
    assert_eq!(sim.customer_count, 0);
    assert_eq!(sim.sim_time, 0);
    assert!(sim.customer_data.is_empty());
    let e = sim.next_event().unwrap();
    assert_eq!((e.kind, e.customer.id, e.scheduled_time), (EventKind::Arrive, 0, 0));
}

#[test]
fn run_status_by_steps_and_horizon() {
    let mut rng = StdRng::seed_from_u64(0);
    let sim = Simulation::new(2, &mut rng);
    let next = sim.next_event();
    assert_eq!(run_status(StopCondition::Steps(3), 2, next), RunStatus::Continue);
    assert_eq!(run_status(StopCondition::Steps(3), 3, next), RunStatus::Done);
    assert_eq!(run_status(StopCondition::Steps(3), 1, None), RunStatus::Starved);
    assert_eq!(run_status(StopCondition::Horizon(1), 50, next), RunStatus::Continue);
    assert_eq!(run_status(StopCondition::Horizon(0), 0, next), RunStatus::Done);
    assert_eq!(run_status(StopCondition::Horizon(100), 0, None), RunStatus::Done);
}

#[test]
fn uniform_gaps_stay_in_range() {
    let mut rng = StdRng::seed_from_u64(4);
    let mut low = false;
    let mut high = false;
    for _ in 0..500 {
        let g = uniform_gap(&mut rng, 10, 13);
        assert!((10..=13).contains(&g));
        low |= g == 10;
        high |= g == 13;
    }
    assert!(low && high);
    assert_eq!(uniform_gap(&mut rng, 7, 7), 7);
}
