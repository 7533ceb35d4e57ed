//! Leader election among a fixed roster of peers by the Bully algorithm.
//!
//! The crate holds the decisions of a node and no input or output: the text
//! of a frame and what a received line means (`message`), the errors
//! (`error`), the node's configuration and state with its reactions to
//! frames and timer ticks (`bully`), the level of the log (`logger`), and the
//! reading of numbers and lists that these share (`text`). A caller owns the
//! sockets, the clock and the threads, and hands the library what it read
//! and what time it is.

pub mod bully;
pub mod error;
pub mod logger;
pub mod message;
pub mod text;
