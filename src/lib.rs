//! Energy-flow control for a residential site: an SML meter-message decoder,
//! a retention-bounded store of watt samples, and the actor dispatch rules that
//! keep the net grid exchange inside a dead-band.

pub mod sml;
pub mod meter;
pub mod control;
pub mod data;
pub mod drivers;
pub mod framer;
pub mod log;
