//! What the two handshakes speak of: how a process started, the stages of
//! the companion's handshake, what a read means to a stage, and the ways a
//! handshake fails.

use vstd::prelude::*;

verus! {

/// A stage of the companion's handshake. The stages follow one another in the
/// order written here.
#[derive(Debug, Clone, Copy, PartialEq, Eq, Structural)]
pub enum Stage {
    /// The companion has yet to name the shell configuration.
    Config,
    /// The companion has yet to say that its listener is bound.
    Listening,
    /// The companion has yet to say that the instance's state has arrived.
    InstanceUpdate,
}

impl Stage {
    /// The stage's place in the handshake, counted from one.
    pub open spec fn index(self) -> nat {
        match self {
            Stage::Config => 1,
            Stage::Listening => 2,
            Stage::InstanceUpdate => 3,
        }
    }

    /// The stage's place in the handshake, counted from one.
    pub fn number(self) -> (n: u8)
        ensures
            n == self.index(),
    {
        match self {
            Stage::Config => 1,
            Stage::Listening => 2,
            Stage::InstanceUpdate => 3,
        }
    }
}

/// Why a handshake came to nothing.
#[derive(Debug, Clone, Copy, PartialEq, Eq, Structural)]
pub enum HandshakeError {
    /// The process could not be started.
    SpawnFailure,
    /// The process runs, but its diagnostic output can not be read.
    PipeUnavailable,
    /// The companion's output ended while this stage was still waiting for
    /// its line.
    StageNotMatched(Stage),
    /// The shell client said that the connection was refused.
    Refused,
}

/// How an attempt to start a process went.
#[derive(Debug, Clone, Copy, PartialEq, Eq, Structural)]
pub enum SpawnReport {
    /// No process was started.
    SpawnFailed,
    /// A process was started, without a pipe to read its diagnostic output from.
    PipeMissing,
    /// A process was started and its diagnostic output can be read.
    Running,
}

impl SpawnReport {
    /// The failure that the report amounts to, if it is one.
    pub open spec fn failure(self) -> Option<HandshakeError> {
        match self {
            SpawnReport::SpawnFailed => Some(HandshakeError::SpawnFailure),
            SpawnReport::PipeMissing => Some(HandshakeError::PipeUnavailable),
            SpawnReport::Running => None,
        }
    }
}

/// What one read means to the stage that waits.
#[derive(Debug, PartialEq, Eq)]
pub enum HandshakeOutcome {
    /// The stage's line: for the first stage with the configuration path, for
    /// the other two with the line itself.
    Matched(String),
    /// A line that the stage does not wait for.
    NoMatch,
    /// No line: the output is closed or could not be read.
    StreamEnded,
}

/// A `HandshakeOutcome` as contracts see it.
pub enum OutcomeView {
    Matched(Seq<char>),
    NoMatch,
    StreamEnded,
}

impl View for HandshakeOutcome {
    type V = OutcomeView;

    open spec fn view(&self) -> OutcomeView {
        match self {
            HandshakeOutcome::Matched(payload) => OutcomeView::Matched(payload@),
            HandshakeOutcome::NoMatch => OutcomeView::NoMatch,
            HandshakeOutcome::StreamEnded => OutcomeView::StreamEnded,
        }
    }
}

} // verus!
