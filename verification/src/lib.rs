//! A room server for playing together: the wire format, the rooms, the way of commands to rooms and
//! of events to users, the sessions of users, and the configuration.
//!
//! - [`binary`] and [`proto`]: what goes over the wire, and what it means.
//! - [`rooms`]: the vocabulary of rooms.
//! - [`room_v1`]: a room, as a state machine.
//! - [`bus`]: which room a command goes to, who hears of an event, and how the server counts.
//! - [`convert`]: between the protocol and the rooms.
//! - [`lifecycle`] and [`session`]: who is connected, and who was.
//! - [`config`] and [`auth`]: what the server is set up with, and who users are.
//! - [`contract`]: what rooms are tried out with.

pub mod auth;
pub mod binary;
pub mod bus;
pub mod config;
pub mod contract;
pub mod convert;
pub mod lifecycle;
pub mod model;
pub mod proto;
pub mod room_v1;
pub mod rooms;
pub mod session;
pub mod text;
