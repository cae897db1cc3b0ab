//! A relay that gathers status reports from blockchain nodes, keeps a live
//! picture of every chain they belong to, and tells subscribed dashboards
//! ("feeds") what changed.
//!
//! Every function here is verified.
//!
//! - [`model`] is the mathematical model of the relay: its state and what it
//!   makes of every event. [`aggregator::Aggregator`] is the executable relay,
//!   proved to follow the model step by step.
//! - [`consistency`] proves what holds of every state the relay can reach: a
//!   chain exists exactly while it has members, its heads are the highest
//!   among them, its statistics count them right.
//! - [`picture`] proves that a feed which draws a picture from the messages
//!   it is sent always has the true picture of the chain it follows.
//! - [`node`] and [`feed`] hold the state of one connection each and turn
//!   what happens on it into events for the aggregator. [`wire`] reads and
//!   writes the frames that travel on the connections.
//! - [`locator`] is the cache that finds out where nodes are, and
//!   [`address`] leads from a connection's source address to the cache's key.
//! - [`types`] and [`message`] hold the data the other modules share.
use vstd::prelude::*;

pub mod address;
pub mod aggregator;
pub mod consistency;
pub mod feed;
pub mod locator;
pub mod message;
pub mod model;
pub mod node;
pub mod picture;
pub mod types;
pub mod wire;

verus! {

} // verus!
