//! How often a node dials a peer at startup before it gives up.

use crate::bully::consts::RETRY;
use vstd::prelude::*;

verus! {

/// How one dial of a peer ended.
#[derive(Debug, PartialEq, Eq, Structural, Clone, Copy)]
pub enum ConnectOutcome {
    /// The connection stands.
    Connected,
    /// The dial took longer than `INIT_CONN_TIMEOUT`.
    TimedOut,
    /// The dial failed otherwise.
    Failed,
}

/// What to do after a dial.
#[derive(Debug, PartialEq, Eq, Structural, Clone, Copy)]
pub enum ConnectDecision {
    /// Keep the connection.
    Keep,
    /// Dial again.
    Retry,
    /// Give up: the node cannot start.
    GiveUp,
}

/// The dialling of one peer: how many dials were made.
#[derive(Debug, PartialEq, Eq, Structural, Clone, Copy)]
pub struct Dial {
    pub attempts: u8,
}

/// What to do after a dial that ended in `outcome`, where `attempts` dials
/// were made before it. A time-out uses up one of `RETRY` attempts, and any
/// other failure ends the dialling at once.
pub open spec fn decide(attempts: u8, outcome: ConnectOutcome) -> ConnectDecision {
    match outcome {
        ConnectOutcome::Connected => ConnectDecision::Keep,
        ConnectOutcome::Failed => ConnectDecision::GiveUp,
        ConnectOutcome::TimedOut => if attempts + 1 < RETRY {
            ConnectDecision::Retry
        } else {
            ConnectDecision::GiveUp
        },
    }
}

impl Dial {
    /// The dialling of a peer before the first dial.
    pub fn new() -> (dial: Dial)
        ensures
            dial.attempts == 0,
    {
        Dial { attempts: 0 }
    }

    /// Takes note of a dial that ended in `outcome` and says what to do. The
    /// count of dials stops at `RETRY`.
    pub fn next(&mut self, outcome: ConnectOutcome) -> (decision: ConnectDecision)
        ensures
            decision == decide(old(self).attempts, outcome),
            final(self).attempts == if old(self).attempts < RETRY {
                old(self).attempts + 1
            } else {
                RETRY as int
            },
            decision == ConnectDecision::Retry ==> final(self).attempts < RETRY,
    {
        let before = self.attempts;
        if before < RETRY {
            self.attempts = before + 1;
        } else {
            self.attempts = RETRY;
        }
        match outcome {
            ConnectOutcome::Connected => ConnectDecision::Keep,
            ConnectOutcome::Failed => ConnectDecision::GiveUp,
            ConnectOutcome::TimedOut => {
                if before < RETRY - 1 {
                    ConnectDecision::Retry
                } else {
                    ConnectDecision::GiveUp
                }
            },
        }
    }
}

/// How the dialling ends where the dials end in `outcomes`, one after the
/// other, and `attempts` dials were made before: with the first decision
/// that is not to dial again. `None` where the outcomes run out first.
pub open spec fn dialling(attempts: u8, outcomes: Seq<ConnectOutcome>) -> Option<ConnectDecision>
    decreases outcomes.len(),
{
    if outcomes.len() == 0 {
        None
    } else {
        match decide(attempts, outcomes[0]) {
            ConnectDecision::Retry => dialling((attempts + 1) as u8, outcomes.drop_first()),
            decision => Some(decision),
        }
    }
}

/// How many dials are made where the dials end in `outcomes`, one after the
/// other, and `attempts` dials were made before.
pub open spec fn dials_made(attempts: u8, outcomes: Seq<ConnectOutcome>) -> nat
    decreases outcomes.len(),
{
    if outcomes.len() == 0 {
        0
    } else {
        match decide(attempts, outcomes[0]) {
            ConnectDecision::Retry => 1 + dials_made((attempts + 1) as u8, outcomes.drop_first()),
            _ => 1,
        }
    }
}

/// However the dials end, a peer is dialled `RETRY` times at most.
pub proof fn lemma_dials_are_bounded(attempts: u8, outcomes: Seq<ConnectOutcome>)
    requires
        attempts <= RETRY,
    ensures
        attempts + dials_made(attempts, outcomes) <= RETRY || dials_made(attempts, outcomes) <= 1,
        attempts == 0 ==> dials_made(attempts, outcomes) <= RETRY,
    decreases outcomes.len(),
{
    if outcomes.len() > 0 {
        if decide(attempts, outcomes[0]) == ConnectDecision::Retry {
            lemma_dials_are_bounded((attempts + 1) as u8, outcomes.drop_first());
        }
    }
}

/// Ten time-outs in a row end the dialling: the tenth dial is the last.
pub proof fn lemma_time_outs_give_up(outcomes: Seq<ConnectOutcome>)
    requires
        outcomes.len() == RETRY,
        forall|i: int| 0 <= i < outcomes.len() ==> outcomes[i] == ConnectOutcome::TimedOut,
    ensures
        dialling(0, outcomes) == Some(ConnectDecision::GiveUp),
        dials_made(0, outcomes) == RETRY,
{
    lemma_time_outs(0, outcomes);
}

proof fn lemma_time_outs(attempts: u8, outcomes: Seq<ConnectOutcome>)
    requires
        attempts + outcomes.len() == RETRY,
        outcomes.len() > 0,
        forall|i: int| 0 <= i < outcomes.len() ==> outcomes[i] == ConnectOutcome::TimedOut,
    ensures
        dialling(attempts, outcomes) == Some(ConnectDecision::GiveUp),
        dials_made(attempts, outcomes) == outcomes.len(),
    decreases outcomes.len(),
{
    if outcomes.len() > 1 {
        let rest = outcomes.drop_first();
        assert forall|i: int| 0 <= i < rest.len() implies rest[i] == ConnectOutcome::TimedOut by {
            assert(rest[i] == outcomes[i + 1]);
        }
        lemma_time_outs((attempts + 1) as u8, rest);
    }
}

} // verus!
