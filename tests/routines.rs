use fuel_station::customer::{Customer, CustomerRecord, PaymentMethod};
use fuel_station::event::{Event, EventKind};
use fuel_station::eventqueue::EventQueue;
use fuel_station::routines::{
    any_available, arrive_routine, departure_routine, free_pumps, get_shortest_or_random_index,
    payment_routine, process_customer_queues, queue_routine, refuel_routine, refuel_time_params,
    shortest_lines, time_routine,
};
use rand::SeedableRng;
use rand::rngs::StdRng;
use std::collections::HashMap;

fn cust(id: u64, t: u64, m: PaymentMethod) -> Customer {
    Customer::with_method(id, t, m)
}

fn lines_of(lens: &[usize]) -> Vec<Vec<Customer>> {
    let mut id = 100;
    lens.iter()
        .map(|&n| {
            (0..n)
                .map(|_| {
                    id += 1;
                    cust(id, 0, PaymentMethod::Efectivo)
                })
                .collect()
        })
        .collect()
}

#[test]
fn free_pumps_lists_zero_entries() {
    assert_eq!(free_pumps(&[1, 0, 1, 0, 0]), vec![1, 3, 4]);
    assert_eq!(free_pumps(&[1, 1]), Vec::<u64>::new());
    assert_eq!(free_pumps(&[]), Vec::<u64>::new());
}

#[test]
fn any_available_picks_a_free_pump() {
    let mut rng = StdRng::seed_from_u64(3);
    assert_eq!(any_available(&[1, 1, 0, 1], &mut rng), (true, Some(2)));
    assert_eq!(any_available(&[1, 1, 1, 1], &mut rng), (false, None));
    for _ in 0..50 {
        let (ok, p) = any_available(&[0, 1, 0, 1], &mut rng);
        assert!(ok);
        assert!(p == Some(0) || p == Some(2));
    }
}

#[test]
fn any_available_spreads_over_free_pumps() {
    let mut rng = StdRng::seed_from_u64(11);
    let mut seen = [0u32; 4];
    for _ in 0..400 {
        let (_, p) = any_available(&[0, 0, 0, 0], &mut rng);
        seen[p.unwrap() as usize] += 1;
    }
    assert!(seen.iter().all(|&n| n > 50));
}

#[test]
fn shortest_lines_lists_ties() {
    assert_eq!(shortest_lines(&lines_of(&[2, 1, 3, 1])), vec![1, 3]);
    assert_eq!(shortest_lines(&lines_of(&[0, 0, 0])), vec![0, 1, 2]);
    assert_eq!(shortest_lines(&lines_of(&[4])), vec![0]);
    assert_eq!(shortest_lines(&[]), Vec::<usize>::new());
}

#[test]
fn shortest_index_is_among_ties() {
    let lines = lines_of(&[2, 1, 3, 1]);
    let mut rng = StdRng::seed_from_u64(5);
    let mut seen = [false; 4];
    for _ in 0..100 {
        let i = get_shortest_or_random_index(&lines, &mut rng);
        assert!(i == 1 || i == 3);
        seen[i] = true;
    }
    assert!(seen[1] && seen[3]);
    assert_eq!(get_shortest_or_random_index(&lines_of(&[3, 2, 0]), &mut rng), 2);
}

#[test]
fn process_customer_queues_takes_front() {
    let mut lines = vec![
        vec![cust(1, 0, PaymentMethod::Tarjeta), cust(2, 5, PaymentMethod::CopecApp)],
        vec![],
    ];
    assert_eq!(process_customer_queues(&mut lines, 0).unwrap().id, 1);
    assert_eq!(lines[0].len(), 1);
    assert_eq!(lines[0][0].id, 2);
    assert!(process_customer_queues(&mut lines, 1).is_none());
    let mut none: Vec<Vec<Customer>> = Vec::new();
    assert!(process_customer_queues(&mut none, 0).is_none());
}

#[test]
fn time_routine_moves_clock() {
    let mut q = EventQueue::new();
    let mut clock = 7;
    assert!(time_routine(&mut q, &mut clock).is_none());
    assert_eq!(clock, 7);
    q.add(Event::new(EventKind::Queue, cust(0, 40, PaymentMethod::Tarjeta), 40, None));
    let e = time_routine(&mut q, &mut clock).unwrap();
    assert_eq!(e.scheduled_time, 40);
    assert_eq!(clock, 40);
}

#[test]
fn arrive_routine_records_and_schedules() {
    let mut q = EventQueue::new();
    let mut count = 0;
    let mut data = HashMap::new();
    let c = cust(0, 100, PaymentMethod::CopecApp);
    let e = Event::new(EventKind::Arrive, c, 100, None);
    arrive_routine(&mut q, 100, &e, &mut count, &mut data, PaymentMethod::Efectivo, 900);
    assert_eq!(count, 1);
    assert_eq!(data[&0], CustomerRecord::new(PaymentMethod::CopecApp, 100));
    let first = q.pop_earliest().unwrap();
    assert_eq!(first.kind, EventKind::Queue);
    assert_eq!(first.scheduled_time, 100);
    assert_eq!(first.customer, c);
    let next = q.pop_earliest().unwrap();
    assert_eq!(next.kind, EventKind::Arrive);
    assert_eq!(next.scheduled_time, 1000);
    assert_eq!(next.customer, cust(1, 1000, PaymentMethod::Efectivo));
    assert!(q.pop_earliest().is_none());
}

#[test]
fn queue_routine_takes_free_pump() {
    let mut q = EventQueue::new();
    let mut stations = vec![1, 0, 1];
    let mut lines = lines_of(&[1, 0, 0]);
    let mut data = HashMap::new();
    let c = cust(4, 10, PaymentMethod::Tarjeta);
    data.insert(4, CustomerRecord::new(PaymentMethod::Tarjeta, 10));
    let e = Event::new(EventKind::Queue, c, 10, None);
    queue_routine(&mut q, 10, &e, &mut stations, &mut lines, &mut data, Some(1), 0);
    assert_eq!(stations, vec![1, 1, 1]);
    let r = q.pop_earliest().unwrap();
    assert_eq!(r.kind, EventKind::Refuel);
    assert_eq!(r.chosen_queue, Some(1));
    assert_eq!(r.scheduled_time, 10);
    assert_eq!(data[&4].wait_start_time, 0);
}

#[test]
fn queue_routine_joins_shortest_line_when_all_busy() {
    let mut q = EventQueue::new();
    let mut stations = vec![1, 1];
    let mut lines = lines_of(&[1, 0]);
    let mut data = HashMap::new();
    let c = cust(4, 10, PaymentMethod::Tarjeta);
    data.insert(4, CustomerRecord::new(PaymentMethod::Tarjeta, 10));
    let e = Event::new(EventKind::Queue, c, 10, None);
    queue_routine(&mut q, 10, &e, &mut stations, &mut lines, &mut data, None, 1);
    assert_eq!(stations, vec![1, 1]);
    assert!(q.pop_earliest().is_none());
    assert_eq!(lines[1], vec![c]);
    assert_eq!(data[&4].wait_start_time, 10);
}

#[test]
fn refuel_and_payment_schedule_next_stage() {
    let mut q = EventQueue::new();
    let c = cust(2, 0, PaymentMethod::Efectivo);
    let e = Event::new(EventKind::Refuel, c, 50, Some(3));
    refuel_routine(&mut q, 50, &e, 120);
    let p = q.pop_earliest().unwrap();
    assert_eq!((p.kind, p.scheduled_time, p.chosen_queue), (EventKind::Payment, 170, Some(3)));
    payment_routine(&mut q, 170, &p, 30);
    let d = q.pop_earliest().unwrap();
    assert_eq!((d.kind, d.scheduled_time, d.chosen_queue), (EventKind::Departure, 200, Some(3)));
}

#[test]
fn departure_frees_pump_with_empty_line() {
    let mut q = EventQueue::new();
    let mut stations = vec![1, 1];
    let mut lines = lines_of(&[0, 2]);
    let mut data = HashMap::new();
    data.insert(2, CustomerRecord::new(PaymentMethod::Efectivo, 30));
    let mut e = Event::new(EventKind::Departure, cust(2, 30, PaymentMethod::Efectivo), 95, Some(0));
    departure_routine(&mut q, 95, &mut e, &mut stations, &mut lines, &mut data);
    assert_eq!(stations, vec![0, 1]);
    assert_eq!(e.customer.total_time, 65);
    assert_eq!(data[&2].total_time, 65);
    assert!(data[&2].completed);
    assert!(q.pop_earliest().is_none());
}

#[test]
fn departure_hands_pump_to_front_of_line() {
    let mut q = EventQueue::new();
    let mut stations = vec![1];
    let waiting = cust(5, 40, PaymentMethod::Tarjeta);
    let mut lines = vec![vec![waiting, cust(6, 50, PaymentMethod::CopecApp)]];
    let mut data = HashMap::new();
    data.insert(2, CustomerRecord::new(PaymentMethod::Efectivo, 30));
    data.insert(5, CustomerRecord::new(PaymentMethod::Tarjeta, 40));
    let mut e = Event::new(EventKind::Departure, cust(2, 30, PaymentMethod::Efectivo), 95, Some(0));
    departure_routine(&mut q, 95, &mut e, &mut stations, &mut lines, &mut data);
    assert_eq!(stations, vec![1]);
    let r = q.pop_earliest().unwrap();
    assert_eq!(r.kind, EventKind::Refuel);
    assert_eq!(r.scheduled_time, 95);
    assert_eq!(r.chosen_queue, Some(0));
    assert_eq!(r.customer, waiting);
    assert_eq!(lines[0].len(), 1);
    assert_eq!(lines[0][0].id, 6);
    assert_eq!(data[&5].wait_time, 55);
    assert_eq!(data[&2].total_time, 65);
}

#[test]
fn payment_methods_and_their_parameters() {
    assert_eq!(PaymentMethod::from_index(0), PaymentMethod::Efectivo);
    assert_eq!(PaymentMethod::from_index(1), PaymentMethod::Tarjeta);
    assert_eq!(PaymentMethod::from_index(2), PaymentMethod::CopecApp);
    assert_eq!(PaymentMethod::CopecApp.code(), 2);
    assert_eq!(PaymentMethod::Efectivo.label(), "EFECTIVO");
    assert_eq!(PaymentMethod::CopecApp.label(), "APP");
    assert_eq!(PaymentMethod::Efectivo.payment_time_params(), (52_500, 6_000));
    assert_eq!(PaymentMethod::Tarjeta.payment_time_params(), (25_500, 4_500));
    assert_eq!(PaymentMethod::CopecApp.payment_time_params(), (16_500, 3_300));
    assert_eq!(refuel_time_params(), (120_000, 9_000));
}

#[test]
fn random_customers_use_all_methods() {
    let mut rng = StdRng::seed_from_u64(1);
    let mut seen = [false; 3];
    for i in 0..60 {
        let c = Customer::new(i, 7, &mut rng);
        assert_eq!((c.id, c.arrive_time, c.total_time), (i, 7, 0));
        seen[c.payment_method.code() as usize] = true;
    }
    assert!(seen.iter().all(|&s| s));
}
