//! A single-writer / multiple-reader "ping-pong" synchronization engine.
//!
//! One producer publishes a structured value into a shared region holding a
//! control block and two alternating payload slots; any number of readers
//! take lock-free snapshots of the latest fully published payload.  The
//! engine is modelled over plain values: the control block and both slots
//! are held in [`region::SharedRegion`], writer exclusivity is an explicit
//! lease, and the interleaving of writer and reader steps is captured by the
//! transition relation in [`protocol`], over which the mutual-exclusion,
//! monotonicity, read-atomicity and torn-read-freedom laws are proved.

pub mod codec;
pub mod digest;
pub mod region;
pub mod protocol;
