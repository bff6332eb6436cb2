//! Message validation and peer scoring for a pub/sub gossip overlay.
//!
//! A node hears messages from its peers and has to tell each time whether
//! to pass the message on, to drop it and hold it against the sender, or
//! to drop it silently. [`validator::Validator`] decides, and keeps for
//! every peer a score, a token bucket, the last sequence number and a
//! quarantine flag. [`model`] states the decision as a function of state
//! and message; [`laws`] and [`runs`] state what holds of it on every
//! input. [`p2p::Node`] is what a transport drives, and [`sim`] and
//! [`traffic`] plan a simulation of honest peers and attackers.
//!
//! Scores are counted in thousandths of a point and time in microseconds.

pub mod bucket;
pub mod cli;
pub mod clock;
pub mod codec;
pub mod config;
pub mod decision;
pub mod dedupe;
pub mod digest;
pub mod laws;
pub mod metrics;
pub mod model;
pub mod p2p;
pub mod peers;
pub mod runs;
pub mod scoring;
pub mod sim;
pub mod traffic;
pub mod validator;
