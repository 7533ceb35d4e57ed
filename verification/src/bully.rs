//! One node of the election: its constants, its configuration, its state and
//! what it decides.

pub mod address;
pub mod connect;
pub mod consts;
pub mod election;
pub mod node;
pub mod probe;
pub mod roster;

pub use self::address::Address;
pub use self::node::{ElectionResult, ElectionStep, Node, NodeView, Opts, Reaction};
pub use self::roster::Peer;
