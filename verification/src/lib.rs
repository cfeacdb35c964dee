//! Download All The Things: the decisions of two downloaders, without their
//! I/O.
//!
//! [`sflix`] rebuilds a media file from a stream that is served as many small
//! segments whose names pair a rising index with a file type that goes round
//! in a ring. [`gogoanime`] walks the episodes of a show from page to page
//! down to the link of each video. [`text`] holds the numerals and the text
//! search that both are built on.
//!
//! Nothing in this crate touches the network or the disk. The pieces that
//! decide what to do next are state machines: the caller performs the action
//! that a machine asks for and reports what happened.

pub mod gogoanime;
pub mod sflix;
pub mod text;
