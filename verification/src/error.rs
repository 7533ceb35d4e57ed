use vstd::prelude::*;
use vstd::string::*;

verus! {

/// Why an operation of this crate failed.
#[derive(Debug, PartialEq, Eq, Structural, Clone, Copy)]
pub enum ErrorKind {
    /// An error made from free text by [`LeaderElectError::new`].
    Other,
    /// A received line is not the text of any message.
    MalformedMessage,
    /// The stream ended where a frame was expected.
    ZeroBytesRead,
    /// The reply to an `Elect` was a well-formed message other than `Alive`.
    UnexpectedReply,
    /// A frame was to be sent to a peer that has no outbound connection.
    ConnectionMissing,
    /// The caller's transport failed; the text is the caller's.
    Transport,
    /// The list of peers is not a comma-separated list of `id=address`.
    MalformedPeers,
    /// Two entries of the list of peers have the same id.
    DuplicatePeer,
    /// The node's own id is among its peers.
    SelfAmongPeers,
    /// An address is not of the form `a.b.c.d:port`.
    InvalidAddress,
    /// The clock reads earlier than the last heartbeat of the leader.
    ClockWentBackwards,
}

/// The text that [`LeaderElectError::of`] gives an error of each kind.
pub open spec fn describe(kind: ErrorKind) -> Seq<char> {
    match kind {
        ErrorKind::Other => "leader election failed"@,
        ErrorKind::MalformedMessage => "malformed message"@,
        ErrorKind::ZeroBytesRead => "0 bytes read"@,
        ErrorKind::UnexpectedReply => "incorrect message type"@,
        ErrorKind::ConnectionMissing => "try to send message through nonexist connection"@,
        ErrorKind::Transport => "transport failed"@,
        ErrorKind::MalformedPeers => "malformed list of peers"@,
        ErrorKind::DuplicatePeer => "duplicate peer id"@,
        ErrorKind::SelfAmongPeers => "the node is among its own peers"@,
        ErrorKind::InvalidAddress => "invalid address"@,
        ErrorKind::ClockWentBackwards => "the clock went backwards"@,
    }
}

/// An error of this crate: its kind and a text for people.
#[derive(Debug, Clone, PartialEq, Eq)]
pub struct LeaderElectError {
    kind: ErrorKind,
    text: String,
}

/// What a [`LeaderElectError`] holds, as plain values.
pub struct ErrorView {
    pub kind: ErrorKind,
    pub text: Seq<char>,
}

/// An error of the given kind with the text that `describe` gives it.
pub open spec fn failure(kind: ErrorKind) -> ErrorView {
    ErrorView { kind, text: describe(kind) }
}

impl View for LeaderElectError {
    type V = ErrorView;

    closed spec fn view(&self) -> ErrorView {
        ErrorView { kind: self.kind, text: self.text@ }
    }
}

impl LeaderElectError {
    /// An error of kind [`ErrorKind::Other`] that says `err_str`.
    pub fn new(err_str: String) -> (e: LeaderElectError)
        ensures
            e@ == (ErrorView { kind: ErrorKind::Other, text: err_str@ }),
    {
        LeaderElectError { kind: ErrorKind::Other, text: err_str }
    }

    /// An error of the given kind with the text that `describe` gives it.
    pub fn of(kind: ErrorKind) -> (e: LeaderElectError)
        ensures
            e@ == failure(kind),
    {
        let text = match kind {
            ErrorKind::Other => "leader election failed",
            ErrorKind::MalformedMessage => "malformed message",
            ErrorKind::ZeroBytesRead => "0 bytes read",
            ErrorKind::UnexpectedReply => "incorrect message type",
            ErrorKind::ConnectionMissing => "try to send message through nonexist connection",
            ErrorKind::Transport => "transport failed",
            ErrorKind::MalformedPeers => "malformed list of peers",
            ErrorKind::DuplicatePeer => "duplicate peer id",
            ErrorKind::SelfAmongPeers => "the node is among its own peers",
            ErrorKind::InvalidAddress => "invalid address",
            ErrorKind::ClockWentBackwards => "the clock went backwards",
        };
        LeaderElectError { kind, text: String::from_str(text) }
    }

    /// An error of kind [`ErrorKind::Transport`] that carries the caller's
    /// account of what went wrong on a stream.
    pub fn transport(text: String) -> (e: LeaderElectError)
        ensures
            e@ == (ErrorView { kind: ErrorKind::Transport, text: text@ }),
    {
        LeaderElectError { kind: ErrorKind::Transport, text }
    }

    pub fn kind(&self) -> (k: ErrorKind)
        ensures
            k == self@.kind,
    {
        self.kind
    }

    /// The error's text.
    pub fn to_string(&self) -> (s: String)
        ensures
            s@ == self@.text,
    {
        self.text.clone()
    }
}

} // verus!
