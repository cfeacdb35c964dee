//! The segmented-fetch engine: locating segments, walking a chunk, keeping a
//! pool of chunk workers going, and putting the stored segments together.

pub mod locator;
pub mod reassembler;
pub mod scheduler;
pub mod worker;
