//! What a node makes of the answer to an `Elect`.

use crate::error::{failure, ErrorKind, ErrorView, LeaderElectError};
use crate::message::{receive_message, received, ElectResponse, MessageType};
use vstd::prelude::*;

verus! {

/// What came of reading one line from a peer's stream within a time limit.
#[derive(Debug, Clone, PartialEq, Eq)]
pub enum ReadOutcome {
    /// The time ran out before a line came.
    TimedOut,
    /// The read failed otherwise; the text says how.
    Failed(String),
    /// The line that was read, with its line feed; empty where the stream
    /// has ended.
    Line(String),
}

/// What the answer to an `Elect` comes to. A time-out is no error. Of what
/// was read only `Alive` is an answer: the end of the stream, a line that is
/// no message and a message of another type are errors.
pub open spec fn reply_to_elect(outcome: ReadOutcome) -> Result<ElectResponse, ErrorView> {
    match outcome {
        ReadOutcome::TimedOut => Ok(ElectResponse::ResponseTimeOut),
        ReadOutcome::Failed(text) => Err(ErrorView { kind: ErrorKind::Transport, text: text@ }),
        ReadOutcome::Line(line) => match received(line@) {
            Err(kind) => Err(failure(kind)),
            Ok(m) => if m.message_type == MessageType::Alive {
                Ok(ElectResponse::BullierAlive)
            } else {
                Err(failure(ErrorKind::UnexpectedReply))
            },
        },
    }
}

/// Says what the answer to an `Elect` comes to, from what the caller read on
/// the stream on which it sent the `Elect`.
pub fn elect_response(outcome: ReadOutcome) -> (r: Result<ElectResponse, LeaderElectError>)
    ensures
        match r {
            Ok(response) => reply_to_elect(outcome) == Ok::<ElectResponse, ErrorView>(response),
            Err(e) => reply_to_elect(outcome) == Err::<ElectResponse, ErrorView>(e@),
        },
{
    match outcome {
        ReadOutcome::TimedOut => Ok(ElectResponse::ResponseTimeOut),
        ReadOutcome::Failed(text) => Err(LeaderElectError::transport(text)),
        ReadOutcome::Line(line) => match receive_message(line.as_str()) {
            Err(e) => Err(e),
            Ok(m) => match m.get_message_type() {
                MessageType::Alive => Ok(ElectResponse::BullierAlive),
                _ => Err(LeaderElectError::of(ErrorKind::UnexpectedReply)),
            },
        },
    }
}

} // verus!
