//! The counter of the server: which room a command goes to, who hears of what happens in it, and
//! how the server keeps count.

pub mod delivery;
pub mod laws;
pub mod metrics;
pub mod observers;
pub mod policy;
pub mod routes;
pub mod rules;
pub mod watch;
