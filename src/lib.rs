//! Discrete-event simulation of customers flowing through a fuel station:
//! they arrive, take a free pump or wait in a line, refuel, pay and leave.
//!
//! Simulated time is counted in whole milliseconds (`u64`).

pub mod customer;
pub mod event;
pub mod eventqueue;
pub mod laws;
pub mod random;
pub mod routines;
pub mod run_inv;
pub mod simulation;
