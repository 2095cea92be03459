//! Bounded queues and synchronous sequence adapters.
//!
//! `queues` holds the [`queues::Queue`] abstraction and its ring-buffer
//! implementation [`queues::fixed::Fixed`]. `pile` holds the producer and
//! consumer protocols, and `sync` the producers and consumers built on them.
pub mod queues;
pub mod pile;
pub mod sync;
