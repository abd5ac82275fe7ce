//! The peer runtime of a small peer-to-peer network for sharing and playing audio files.
//!
//! A `Peer` holds its directory of members, its share of the file store, its open lookups
//! and the state of its player. `Peer::handle_notification` is the dispatcher: it applies one
//! notification and returns the effects (sends, listener upcalls, sink commands) for the
//! program around it to carry out. Every step is stated in `peer::step_spec`, and the
//! protocol's laws are proved in `laws`.


pub mod types;
pub mod directory;
pub mod store;
pub mod pending;
pub mod message;
pub mod peer;
pub mod api;
pub mod laws;
