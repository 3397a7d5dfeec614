//! The shell client's handshake: the first thing that it says decides.
//!
//! A read of the shell client's output brings a line, or nothing where the
//! output is closed or could not be read. Reads that bring nothing, and lines
//! without a character, are passed over and the next read is awaited. The
//! first line that holds anything settles the handshake: it failed if the
//! line tells of a refused connection, and is under way with any other line.

use crate::handshake::{HandshakeError, SpawnReport};
use crate::lines::{parse_line_for_refusal, REFUSED_MARKER};
use crate::text::occurs_in;
use command_group::AsyncGroupChild;
use vstd::prelude::*;

verus! {

/// How far the shell client's handshake has come.
#[derive(Debug, Clone, Copy, PartialEq, Eq, Structural)]
pub enum ShellState {
    /// Waiting for the first line that holds anything.
    AwaitFirstLine,
    /// The shell client has spoken and was not refused. It runs on.
    Started,
    /// The handshake came to nothing.
    Failed(HandshakeError),
}

/// The read brings a line that holds at least one character.
pub open spec fn substantive(read: Option<Seq<char>>) -> bool {
    read matches Some(line) && line.len() > 0
}

impl ShellState {
    /// Whether the handshake still waits; once it does not, nothing more is
    /// to be read.
    pub open spec fn waiting(self) -> bool {
        self is AwaitFirstLine
    }

    /// The state after one read.
    pub open spec fn after_read(self, read: Option<Seq<char>>) -> ShellState {
        if self.waiting() && substantive(read) {
            if occurs_in(read.unwrap(), REFUSED_MARKER@) {
                ShellState::Failed(HandshakeError::Refused)
            } else {
                ShellState::Started
            }
        } else {
            self
        }
    }

    /// The state after the reads of `reads`, taken from the front for as long
    /// as the handshake waits.
    pub open spec fn after_reads(self, reads: Seq<Option<Seq<char>>>) -> ShellState
        decreases reads.len(),
    {
        if reads.len() == 0 || !self.waiting() {
            self
        } else {
            self.after_read(reads[0]).after_reads(reads.drop_first())
        }
    }

    /// How many of `reads` are taken until the handshake is settled or the
    /// reads are used up.
    pub open spec fn consumed(self, reads: Seq<Option<Seq<char>>>) -> nat
        decreases reads.len(),
    {
        if reads.len() == 0 || !self.waiting() {
            0
        } else {
            1 + self.after_read(reads[0]).consumed(reads.drop_first())
        }
    }

    /// The state in which the handshake begins, by how the start of the shell
    /// client went.
    pub fn start(report: SpawnReport) -> (state: ShellState)
        ensures
            state == match report.failure() {
                Some(error) => ShellState::Failed(error),
                None => ShellState::AwaitFirstLine,
            },
    {
        match report {
            SpawnReport::SpawnFailed => ShellState::Failed(HandshakeError::SpawnFailure),
            SpawnReport::PipeMissing => ShellState::Failed(HandshakeError::PipeUnavailable),
            SpawnReport::Running => ShellState::AwaitFirstLine,
        }
    }

    /// Whether the handshake still waits for the shell client to speak.
    pub fn is_waiting(&self) -> (waiting: bool)
        ensures
            waiting == self.waiting(),
    {
        match self {
            ShellState::AwaitFirstLine => true,
            _ => false,
        }
    }

    /// Moves the state by one read of the shell client's output.
    pub fn on_read(self, read: Option<&str>) -> (next: ShellState)
        ensures
            next == self.after_read(read.deep_view()),
    {
        match self {
            ShellState::AwaitFirstLine => match read {
                Some(line) => {
                    if line.is_empty() {
                        ShellState::AwaitFirstLine
                    } else if parse_line_for_refusal(line) {
                        ShellState::Failed(HandshakeError::Refused)
                    } else {
                        ShellState::Started
                    }
                },
                None => ShellState::AwaitFirstLine,
            },
            _ => self,
        }
    }

    /// What the handshake leaves its caller with: the running shell client if
    /// the handshake is under way, and nothing in any other state. The shell
    /// client is not touched either way.
    pub fn into_handle(self, process: AsyncGroupChild) -> (handle: Option<AsyncGroupChild>)
        ensures
            handle == if self is Started {
                Some(process)
            } else {
                None
            },
    {
        match self {
            ShellState::Started => Some(process),
            _ => None,
        }
    }

    /// Moves the state by the reads of `reads`, from the front, until the
    /// handshake is settled or the reads are used up. Hands back the state
    /// reached and how many reads were taken; what lies behind them was not
    /// looked at.
    pub fn run(self, reads: &Vec<Option<String>>) -> (end: (ShellState, usize))
        ensures
            end.0 == self.after_reads(reads.deep_view()),
            end.1 == self.consumed(reads.deep_view()),
            end.1 <= reads.len(),
    {
        let ghost all = reads.deep_view();
        let mut state = self;
        let mut taken: usize = 0;
        assert(all.skip(0) == all);
        while taken < reads.len() && state.is_waiting()
            invariant
                all == reads.deep_view(),
                taken <= reads.len(),
                self.after_reads(all) == state.after_reads(all.skip(taken as int)),
                self.consumed(all) == taken + state.consumed(all.skip(taken as int)),
            decreases reads.len() - taken,
        {
            let read: Option<&str> = match &reads[taken] {
                Some(line) => Some(line.as_str()),
                None => None,
            };
            proof {
                let rest = all.skip(taken as int);
                assert(rest[0] == read.deep_view());
                assert(rest.drop_first() == all.skip(taken + 1));
            }
            state = state.on_read(read);
            taken += 1;
        }
        (state, taken)
    }
}

/// `at` is the first read that brings a line with anything in it.
pub open spec fn first_spoken_at(reads: Seq<Option<Seq<char>>>, at: int) -> bool {
    &&& 0 <= at < reads.len()
    &&& substantive(reads[at])
    &&& forall|p: int| 0 <= p < at ==> !substantive(#[trigger] reads[p])
}

/// A settled handshake takes no read and stays as it is.
pub proof fn lemma_settled_shell_stays(state: ShellState, reads: Seq<Option<Seq<char>>>)
    requires
        !state.waiting(),
    ensures
        state.after_reads(reads) == state,
        state.consumed(reads) == 0,
{
}

/// Reads that bring nothing, or a line without a character, are taken and
/// change nothing.
pub proof fn lemma_silent_reads_pass(reads: Seq<Option<Seq<char>>>, n: int)
    requires
        0 <= n <= reads.len(),
        forall|p: int| 0 <= p < n ==> !substantive(#[trigger] reads[p]),
    ensures
        ShellState::AwaitFirstLine.after_reads(reads) == ShellState::AwaitFirstLine.after_reads(
            reads.skip(n),
        ),
        ShellState::AwaitFirstLine.consumed(reads) == n + ShellState::AwaitFirstLine.consumed(
            reads.skip(n),
        ),
    decreases n,
{
    if n == 0 {
        assert(reads.skip(0) == reads);
    } else {
        let rest = reads.drop_first();
        assert(!substantive(reads[0]));
        assert forall|p: int| 0 <= p < n - 1 implies !substantive(#[trigger] rest[p]) by {
            assert(rest[p] == reads[p + 1]);
        }
        lemma_silent_reads_pass(rest, n - 1);
        assert(rest.skip(n - 1) == reads.skip(n));
    }
}

/// The first line with anything in it settles the handshake: failed where the
/// line tells of a refused connection, under way with any other line. The
/// reads up to that line are taken, and none behind it.
pub proof fn lemma_first_spoken_line_decides(reads: Seq<Option<Seq<char>>>, at: int)
    requires
        first_spoken_at(reads, at),
    ensures
        ShellState::AwaitFirstLine.after_reads(reads) == if occurs_in(
            reads[at].unwrap(),
            REFUSED_MARKER@,
        ) {
            ShellState::Failed(HandshakeError::Refused)
        } else {
            ShellState::Started
        },
        ShellState::AwaitFirstLine.consumed(reads) == at + 1,
{
    lemma_silent_reads_pass(reads, at);
    let rest = reads.skip(at);
    assert(rest[0] == reads[at]);
    lemma_settled_shell_stays(ShellState::AwaitFirstLine.after_read(reads[at]), rest.drop_first());
}

/// While no read brings a line with anything in it, the handshake takes every
/// read and goes on waiting.
pub proof fn lemma_silence_keeps_waiting(reads: Seq<Option<Seq<char>>>)
    requires
        forall|p: int| 0 <= p < reads.len() ==> !substantive(#[trigger] reads[p]),
    ensures
        ShellState::AwaitFirstLine.after_reads(reads) == ShellState::AwaitFirstLine,
        ShellState::AwaitFirstLine.consumed(reads) == reads.len(),
{
    lemma_silent_reads_pass(reads, reads.len() as int);
}

/// The reads may come in two parts: what the second part does to the state
/// that the first part left is what the whole does. No read is looked at twice.
pub proof fn lemma_shell_run_in_parts(
    state: ShellState,
    first: Seq<Option<Seq<char>>>,
    second: Seq<Option<Seq<char>>>,
)
    ensures
        state.after_reads(first + second) == state.after_reads(first).after_reads(second),
        state.consumed(first + second) == state.consumed(first) + state.after_reads(
            first,
        ).consumed(second),
    decreases first.len(),
{
    if first.len() == 0 {
        assert(first + second == second);
    } else if !state.waiting() {
    } else {
        let whole = first + second;
        assert(whole[0] == first[0]);
        assert(whole.drop_first() == first.drop_first() + second);
        lemma_shell_run_in_parts(state.after_read(first[0]), first.drop_first(), second);
    }
}

/// From `from` on there is a first read that brings a line with anything in
/// it, or there is none. Hands back its position, or the number of reads.
proof fn lemma_first_spoken(reads: Seq<Option<Seq<char>>>, from: int) -> (at: int)
    requires
        0 <= from <= reads.len(),
    ensures
        from <= at <= reads.len(),
        at < reads.len() ==> substantive(reads[at]),
        forall|p: int| from <= p < at ==> !substantive(#[trigger] reads[p]),
    decreases reads.len() - from,
{
    if from == reads.len() {
        from
    } else if substantive(reads[from]) {
        from
    } else {
        lemma_first_spoken(reads, from + 1)
    }
}

/// The reads account for the state `end`: for one under way, the first line
/// with anything in it told of no refusal; for a failed one, it told of a
/// refusal, and the failure says so; for one that waits, no read brought such
/// a line.
pub open spec fn shell_accounts_for(reads: Seq<Option<Seq<char>>>, end: ShellState) -> bool {
    match end {
        ShellState::Started => exists|at: int|
            #[trigger] first_spoken_at(reads, at) && !occurs_in(
                reads[at].unwrap(),
                REFUSED_MARKER@,
            ),
        ShellState::Failed(error) => error == HandshakeError::Refused && exists|at: int|
            #[trigger] first_spoken_at(reads, at) && occurs_in(reads[at].unwrap(), REFUSED_MARKER@),
        ShellState::AwaitFirstLine => forall|p: int|
            0 <= p < reads.len() ==> !substantive(#[trigger] reads[p]),
    }
}

/// A handshake that began waiting ends in no other way than the reads account
/// for: it is under way or has failed only by the first line with anything in it.
pub proof fn lemma_shell_settled_only_so(reads: Seq<Option<Seq<char>>>)
    ensures
        shell_accounts_for(reads, ShellState::AwaitFirstLine.after_reads(reads)),
{
    let at = lemma_first_spoken(reads, 0);
    if at == reads.len() {
        lemma_silence_keeps_waiting(reads);
    } else {
        assert(first_spoken_at(reads, at));
        lemma_first_spoken_line_decides(reads, at);
    }
}

} // verus!
