//! A thread pool designed for background value computation.

pub mod builder;
pub mod channel;
pub mod counter;
pub mod crew;
pub mod join;
pub mod laws;
pub mod ledger;
pub mod pool;
pub mod roster;
pub mod shared;
pub mod size;
pub mod staff;
pub mod thunk;
pub mod worker;
