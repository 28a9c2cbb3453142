//! The decisions of a live document synchronisation engine.
//!
//! A node keeps documents in sync with its peers. [`live::LiveActor`] decides what it does: whom it
//! dials, whose requests it accepts, which content it downloads, and what it tells subscribers and
//! neighbors. It is a state machine without side effects. Whoever runs it hands it each
//! [`live::Input`], performs the actions of the [`live::Step`] that it returns, and answers the
//! question that is left, if there is one, with the next input.
//!
//! [`model`] says what each input does, and [`laws`] what follows from that.

pub mod hashes;
pub mod ids;
pub mod laws;
pub mod live;
pub mod messages;
pub mod model;
pub mod outside;
pub mod sorted;
pub mod state;
pub mod subscribers;
