//! Customers and the result record kept for each of them.

use crate::random::draw_below;
use rand::rngs::StdRng;
use vstd::prelude::*;

verus! {

/// How a customer pays at the pump.
#[derive(Clone, Copy, Debug, PartialEq, Eq, Structural)]
pub enum PaymentMethod {
    /// Cash, the slowest.
    Efectivo,
    /// Card.
    Tarjeta,
    /// The station's phone app, the fastest.
    CopecApp,
}

/// The payment method numbered `i` among the three (cash, card, app).
pub open spec fn method_of_index(i: nat) -> PaymentMethod {
    if i == 0 {
        PaymentMethod::Efectivo
    } else if i == 1 {
        PaymentMethod::Tarjeta
    } else {
        PaymentMethod::CopecApp
    }
}

/// The number of a payment method: cash 0, card 1, app 2.
pub open spec fn method_code(m: PaymentMethod) -> nat {
    match m {
        PaymentMethod::Efectivo => 0,
        PaymentMethod::Tarjeta => 1,
        PaymentMethod::CopecApp => 2,
    }
}

impl PaymentMethod {
    pub fn from_index(i: usize) -> (m: PaymentMethod)
        requires
            i < 3,
        ensures
            m == method_of_index(i as nat),
            method_code(m) == i,
    {
        if i == 0 {
            PaymentMethod::Efectivo
        } else if i == 1 {
            PaymentMethod::Tarjeta
        } else {
            PaymentMethod::CopecApp
        }
    }

    /// The method's number: cash 0, card 1, app 2.
    pub fn code(&self) -> (r: u8)
        ensures
            r == method_code(*self),
    {
        match self {
            PaymentMethod::Efectivo => 0,
            PaymentMethod::Tarjeta => 1,
            PaymentMethod::CopecApp => 2,
        }
    }

    /// The upper-case name printed for the method.
    pub fn label(&self) -> (r: &'static str)
        ensures
            *self == PaymentMethod::Efectivo ==> r@ == "EFECTIVO"@,
            *self == PaymentMethod::Tarjeta ==> r@ == "TARJETA"@,
            *self == PaymentMethod::CopecApp ==> r@ == "APP"@,
    {
        match self {
            PaymentMethod::Efectivo => "EFECTIVO",
            PaymentMethod::Tarjeta => "TARJETA",
            PaymentMethod::CopecApp => "APP",
        }
    }

    /// Mean and standard deviation, in milliseconds, of the normal
    /// distribution of payment times: cash is slowest, the app fastest.
    pub fn payment_time_params(&self) -> (r: (u64, u64))
        ensures
            *self == PaymentMethod::Efectivo ==> r == (52_500u64, 6_000u64),
            *self == PaymentMethod::Tarjeta ==> r == (25_500u64, 4_500u64),
            *self == PaymentMethod::CopecApp ==> r == (16_500u64, 3_300u64),
    {
        match self {
            PaymentMethod::Efectivo => (52_500, 6_000),
            PaymentMethod::Tarjeta => (25_500, 4_500),
            PaymentMethod::CopecApp => (16_500, 3_300),
        }
    }

    /// One of the three methods, drawn uniformly from `rng`.
    pub fn random(rng: &mut StdRng) -> PaymentMethod {
        let i = draw_below(rng, 3);
        PaymentMethod::from_index(i)
    }
}

/// One person moving through the station. `total_time` is the time from
/// arrival to departure, set when the customer leaves.
#[derive(Clone, Copy, Debug, PartialEq, Eq, Structural)]
pub struct Customer {
    pub id: u64,
    pub arrive_time: u64,
    pub total_time: u64,
    pub payment_method: PaymentMethod,
}

impl Customer {
    /// A customer arriving at `arrive_time` who pays with `payment_method`.
    pub fn with_method(id: u64, arrive_time: u64, payment_method: PaymentMethod) -> (c: Customer)
        ensures
            c == (Customer { id, arrive_time, total_time: 0, payment_method }),
    {
        Customer { id, arrive_time, total_time: 0, payment_method }
    }

    /// A customer arriving at `arrive_time`, whose payment method is drawn
    /// uniformly from `rng`.
    pub fn new(id: u64, arrive_time: u64, rng: &mut StdRng) -> (c: Customer)
        ensures
            c.id == id,
            c.arrive_time == arrive_time,
            c.total_time == 0,
    {
        let payment_method = PaymentMethod::random(rng);
        Customer::with_method(id, arrive_time, payment_method)
    }
}

/// What a run records of one customer: filled in as the customer moves
/// through the station and read by statistics once the run is over.
/// `completed` tells a departed customer from one still in the station.
#[derive(Clone, Copy, Debug, PartialEq, Eq, Structural)]
pub struct CustomerRecord {
    pub payment_method: PaymentMethod,
    pub arrival_time: u64,
    pub wait_start_time: u64,
    pub wait_time: u64,
    pub total_time: u64,
    pub completed: bool,
}

/// The record written when a customer arrives: method and arrival time,
/// nothing else yet.
pub open spec fn fresh_record(payment_method: PaymentMethod, arrival_time: u64) -> CustomerRecord {
    CustomerRecord {
        payment_method,
        arrival_time,
        wait_start_time: 0,
        wait_time: 0,
        total_time: 0,
        completed: false,
    }
}

impl CustomerRecord {
    pub fn new(payment_method: PaymentMethod, arrival_time: u64) -> (r: CustomerRecord)
        ensures
            r == fresh_record(payment_method, arrival_time),
    {
        CustomerRecord {
            payment_method,
            arrival_time,
            wait_start_time: 0,
            wait_time: 0,
            total_time: 0,
            completed: false,
        }
    }
}

} // verus!
