use fuel_station::customer::{Customer, PaymentMethod};
use fuel_station::event::{Event, EventKind};
use fuel_station::eventqueue::EventQueue;

fn ev(kind: EventKind, id: u64, t: u64) -> Event {
    Event::new(kind, Customer::with_method(id, t, PaymentMethod::Tarjeta), t, None)
}

fn key(e: &Event) -> (u64, u64, u64) {
    (e.scheduled_time, e.kind.rank(), e.customer.id)
}

#[test]
fn pops_follow_time_then_kind_then_customer() {
    let mut q = EventQueue::new();
    q.add(ev(EventKind::Departure, 3, 50));
    q.add(ev(EventKind::Arrive, 9, 50));
    q.add(ev(EventKind::Queue, 2, 10));
    q.add(ev(EventKind::Refuel, 7, 50));
    q.add(ev(EventKind::Refuel, 4, 50));
    q.add(ev(EventKind::Arrive, 1, 0));
    let mut got = Vec::new();
    while let Some(e) = q.pop_earliest() {
        got.push(key(&e));
    }
    assert_eq!(
        got,
        vec![(0, 0, 1), (10, 1, 2), (50, 0, 9), (50, 2, 4), (50, 2, 7), (50, 4, 3)]
    );
}

#[test]
fn pops_are_sorted_for_any_insertion_order() {
    let mut q = EventQueue::new();
    let kinds = [
        EventKind::Arrive,
        EventKind::Queue,
        EventKind::Refuel,
        EventKind::Payment,
        EventKind::Departure,
    ];
    let mut x: u64 = 12345;
    for i in 0..200u64 {
        x = x.wrapping_mul(6364136223846793005).wrapping_add(1442695040888963407);
        let t = (x >> 33) % 20;
        let k = kinds[((x >> 20) % 5) as usize];
        q.add(ev(k, i % 7, t));
    }
    assert_eq!(q.len(), 200);
    let mut prev = None;
    let mut n = 0;
    while let Some(e) = q.pop_earliest() {
        let k = key(&e);
        if let Some(p) = prev {
            assert!(p <= k);
        }
        prev = Some(k);
        n += 1;
    }
    assert_eq!(n, 200);
}

#[test]
fn equal_keys_leave_in_insertion_order() {
    let mut q = EventQueue::new();
    let mut a = ev(EventKind::Payment, 5, 40);
    a.chosen_queue = Some(1);
    let mut b = ev(EventKind::Payment, 5, 40);
    b.chosen_queue = Some(2);
    q.add(a);
    q.add(b);
    assert_eq!(q.pop_earliest().unwrap().chosen_queue, Some(1));
    assert_eq!(q.pop_earliest().unwrap().chosen_queue, Some(2));
}

#[test]
fn empty_queue_pops_none() {
    let mut q = EventQueue::new();
    assert!(q.peek().is_none());
    assert!(q.pop_earliest().is_none());
    q.add(ev(EventKind::Queue, 0, 3));
    assert_eq!(q.peek().unwrap().customer.id, 0);
    assert!(q.pop_earliest().is_some());
    assert!(q.pop_earliest().is_none());
}

#[test]
fn goes_before_compares_lexicographically() {
    let a = ev(EventKind::Departure, 1, 10);
    let b = ev(EventKind::Arrive, 0, 11);
    let c = ev(EventKind::Arrive, 2, 10);
    assert!(a.goes_before(&b));
    assert!(!b.goes_before(&a));
    assert!(c.goes_before(&a));
    assert!(a.goes_before(&a));
}

#[test]
fn kind_ranks_and_labels() {
    assert_eq!(EventKind::Arrive.rank(), 0);
    assert_eq!(EventKind::Queue.rank(), 1);
    assert_eq!(EventKind::Refuel.rank(), 2);
    assert_eq!(EventKind::Payment.rank(), 3);
    assert_eq!(EventKind::Departure.rank(), 4);
    assert_eq!(EventKind::Departure.label(), "DEPARTURE");
    assert_eq!(EventKind::Queue.label(), "QUEUE");
}
