//! A single-room, line-oriented chat relay: the name rules, the client
//! registry, the event queue and the dispatcher that puts every broadcast
//! into one global order.

pub mod dispatch;
pub mod event;
pub mod registry;
pub mod session;
pub mod wire;
