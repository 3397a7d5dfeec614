//! The companion's handshake: three stages over the lines that it prints.
//!
//! A read of the companion's output brings a line, or nothing where the
//! output is closed or could not be read. The handshake is a state that each
//! read moves on. It waits for the configuration path, then for the listener,
//! then for the instance's state, and is settled when the third has come or
//! the output has ended before it.

use crate::handshake::{HandshakeError, HandshakeOutcome, OutcomeView, SpawnReport, Stage};
use crate::lines::{
    config_in, parse_line_for_config, parse_line_for_instance_update, parse_line_for_listening,
    INSTANCE_UPDATE_MARKER, LISTENING_MARKER,
};
use crate::text::{lemma_text_occurs_in_itself, occurs_in};
use crate::CompanionHandle;
use command_group::AsyncGroupChild;
use vstd::prelude::*;

verus! {

/// How far the companion's handshake has come.
#[derive(Debug, PartialEq, Eq)]
pub enum CompanionState {
    /// Waiting for the line that names the configuration.
    AwaitConfig,
    /// The configuration is known; waiting for the listener.
    AwaitListening { config: String },
    /// The listener is bound; waiting for the instance's state.
    AwaitInstanceUpdate { config: String },
    /// All three stages are through. The companion runs on.
    Ready { config: String },
    /// The handshake came to nothing.
    Failed(HandshakeError),
}

/// A `CompanionState` as contracts see it.
pub enum CompanionView {
    AwaitConfig,
    AwaitListening { config: Seq<char> },
    AwaitInstanceUpdate { config: Seq<char> },
    Ready { config: Seq<char> },
    Failed(HandshakeError),
}

impl View for CompanionState {
    type V = CompanionView;

    open spec fn view(&self) -> CompanionView {
        match self {
            CompanionState::AwaitConfig => CompanionView::AwaitConfig,
            CompanionState::AwaitListening { config } => CompanionView::AwaitListening {
                config: config@,
            },
            CompanionState::AwaitInstanceUpdate { config } => CompanionView::AwaitInstanceUpdate {
                config: config@,
            },
            CompanionState::Ready { config } => CompanionView::Ready { config: config@ },
            CompanionState::Failed(error) => CompanionView::Failed(*error),
        }
    }
}

impl CompanionView {
    /// The stage that waits in this state; none once the handshake is settled.
    pub open spec fn stage(self) -> Option<Stage> {
        match self {
            CompanionView::AwaitConfig => Some(Stage::Config),
            CompanionView::AwaitListening { .. } => Some(Stage::Listening),
            CompanionView::AwaitInstanceUpdate { .. } => Some(Stage::InstanceUpdate),
            CompanionView::Ready { .. } => None,
            CompanionView::Failed(_) => None,
        }
    }

    /// The configuration path that is known in this state.
    pub open spec fn config(self) -> Option<Seq<char>> {
        match self {
            CompanionView::AwaitConfig => None,
            CompanionView::AwaitListening { config } => Some(config),
            CompanionView::AwaitInstanceUpdate { config } => Some(config),
            CompanionView::Ready { config } => Some(config),
            CompanionView::Failed(_) => None,
        }
    }

    /// The state in which `stage` is through and `config` is the path.
    pub open spec fn past(stage: Stage, config: Seq<char>) -> CompanionView {
        match stage {
            Stage::Config => CompanionView::AwaitListening { config },
            Stage::Listening => CompanionView::AwaitInstanceUpdate { config },
            Stage::InstanceUpdate => CompanionView::Ready { config },
        }
    }

    /// The state after the waiting stage has met `outcome`. With a match the
    /// stage is through: the first stage takes the path from the match, the
    /// other two keep the path that is known. The end of the output fails the
    /// handshake at the stage that waited. A line that the stage does not wait
    /// for changes nothing, and nothing changes a settled state.
    pub open spec fn advance(self, outcome: OutcomeView) -> CompanionView {
        match (self.stage(), outcome) {
            (None, _) => self,
            (Some(_), OutcomeView::NoMatch) => self,
            (Some(stage), OutcomeView::StreamEnded) => CompanionView::Failed(
                HandshakeError::StageNotMatched(stage),
            ),
            (Some(stage), OutcomeView::Matched(payload)) => match self.config() {
                Some(config) => CompanionView::past(stage, config),
                None => CompanionView::past(stage, payload),
            },
        }
    }

    /// The state after one read: the waiting stage judges the read, and the
    /// state moves by its judgement. A settled state stays.
    pub open spec fn on_read(self, read: Option<Seq<char>>) -> CompanionView {
        match self.stage() {
            Some(stage) => self.advance(stage_outcome(stage, read)),
            None => self,
        }
    }

    /// The state after the reads of `reads`, taken from the front for as long
    /// as a stage waits.
    pub open spec fn run(self, reads: Seq<Option<Seq<char>>>) -> CompanionView
        decreases reads.len(),
    {
        if reads.len() == 0 || self.stage() is None {
            self
        } else {
            self.on_read(reads[0]).run(reads.drop_first())
        }
    }

    /// How many of `reads` are taken until the handshake is settled or the
    /// reads are used up.
    pub open spec fn consumed(self, reads: Seq<Option<Seq<char>>>) -> nat
        decreases reads.len(),
    {
        if reads.len() == 0 || self.stage() is None {
            0
        } else {
            1 + self.on_read(reads[0]).consumed(reads.drop_first())
        }
    }
}

/// What `read` means to `stage`.
pub open spec fn stage_outcome(stage: Stage, read: Option<Seq<char>>) -> OutcomeView {
    match read {
        None => OutcomeView::StreamEnded,
        Some(line) => match stage {
            Stage::Config => match config_in(line) {
                Some(config) => OutcomeView::Matched(config),
                None => OutcomeView::NoMatch,
            },
            Stage::Listening => if occurs_in(line, LISTENING_MARKER@) {
                OutcomeView::Matched(line)
            } else {
                OutcomeView::NoMatch
            },
            Stage::InstanceUpdate => if occurs_in(line, INSTANCE_UPDATE_MARKER@) {
                OutcomeView::Matched(line)
            } else {
                OutcomeView::NoMatch
            },
        },
    }
}

/// Some read among the first `upto` of `reads` brought a line in which `path` stands.
pub open spec fn path_was_read(reads: Seq<Option<Seq<char>>>, upto: int, path: Seq<char>) -> bool {
    exists|at: int|
        0 <= at < upto && at < reads.len() && #[trigger] reads[at] is Some && occurs_in(
            reads[at].unwrap(),
            path,
        )
}

/// Judges one read for `stage`. What is handed back with a match stands in
/// the line that was read.
pub fn scan_line(stage: Stage, read: Option<&str>) -> (outcome: HandshakeOutcome)
    ensures
        outcome@ == stage_outcome(stage, read.deep_view()),
        outcome@ matches OutcomeView::Matched(payload) ==> read is Some && occurs_in(
            read.deep_view().unwrap(),
            payload,
        ),
{
    match read {
        None => HandshakeOutcome::StreamEnded,
        Some(line) => match stage {
            Stage::Config => match parse_line_for_config(line) {
                Some(config) => HandshakeOutcome::Matched(config),
                None => HandshakeOutcome::NoMatch,
            },
            Stage::Listening => if parse_line_for_listening(line) {
                proof {
                    lemma_text_occurs_in_itself(line@);
                }
                HandshakeOutcome::Matched(line.to_owned())
            } else {
                HandshakeOutcome::NoMatch
            },
            Stage::InstanceUpdate => if parse_line_for_instance_update(line) {
                proof {
                    lemma_text_occurs_in_itself(line@);
                }
                HandshakeOutcome::Matched(line.to_owned())
            } else {
                HandshakeOutcome::NoMatch
            },
        },
    }
}

impl CompanionState {
    /// The state in which the handshake begins, by how the start of the
    /// companion went.
    pub fn start(report: SpawnReport) -> (state: CompanionState)
        ensures
            state@ == match report.failure() {
                Some(error) => CompanionView::Failed(error),
                None => CompanionView::AwaitConfig,
            },
    {
        match report {
            SpawnReport::SpawnFailed => CompanionState::Failed(HandshakeError::SpawnFailure),
            SpawnReport::PipeMissing => CompanionState::Failed(HandshakeError::PipeUnavailable),
            SpawnReport::Running => CompanionState::AwaitConfig,
        }
    }

    /// The stage that waits for its line; none once the handshake is settled,
    /// and then nothing more is to be read.
    pub fn stage(&self) -> (stage: Option<Stage>)
        ensures
            stage == self@.stage(),
    {
        match self {
            CompanionState::AwaitConfig => Some(Stage::Config),
            CompanionState::AwaitListening { .. } => Some(Stage::Listening),
            CompanionState::AwaitInstanceUpdate { .. } => Some(Stage::InstanceUpdate),
            CompanionState::Ready { .. } => None,
            CompanionState::Failed(_) => None,
        }
    }

    /// Moves the state by what the waiting stage has met.
    pub fn advance(self, outcome: HandshakeOutcome) -> (next: CompanionState)
        ensures
            next@ == self@.advance(outcome@),
    {
        match self {
            CompanionState::AwaitConfig => match outcome {
                HandshakeOutcome::Matched(config) => CompanionState::AwaitListening { config },
                HandshakeOutcome::NoMatch => CompanionState::AwaitConfig,
                HandshakeOutcome::StreamEnded => CompanionState::Failed(
                    HandshakeError::StageNotMatched(Stage::Config),
                ),
            },
            CompanionState::AwaitListening { config } => match outcome {
                HandshakeOutcome::Matched(_) => CompanionState::AwaitInstanceUpdate { config },
                HandshakeOutcome::NoMatch => CompanionState::AwaitListening { config },
                HandshakeOutcome::StreamEnded => CompanionState::Failed(
                    HandshakeError::StageNotMatched(Stage::Listening),
                ),
            },
            CompanionState::AwaitInstanceUpdate { config } => match outcome {
                HandshakeOutcome::Matched(_) => CompanionState::Ready { config },
                HandshakeOutcome::NoMatch => CompanionState::AwaitInstanceUpdate { config },
                HandshakeOutcome::StreamEnded => CompanionState::Failed(
                    HandshakeError::StageNotMatched(Stage::InstanceUpdate),
                ),
            },
            CompanionState::Ready { config } => CompanionState::Ready { config },
            CompanionState::Failed(error) => CompanionState::Failed(error),
        }
    }

    /// Moves the state by one read of the companion's output. A path that
    /// becomes known by the read stands in the line that was read.
    pub fn on_read(self, read: Option<&str>) -> (next: CompanionState)
        ensures
            next@ == self@.on_read(read.deep_view()),
            self@ is AwaitConfig && next@.config() is Some ==> read is Some && occurs_in(
                read.deep_view().unwrap(),
                next@.config().unwrap(),
            ),
    {
        match self.stage() {
            Some(stage) => {
                let outcome = scan_line(stage, read);
                self.advance(outcome)
            },
            None => self,
        }
    }

    /// What the handshake leaves its caller with: the running companion and
    /// the path that it named if the handshake is ready, and nothing in any
    /// other state. The companion is not touched either way.
    pub fn into_handle(self, process: AsyncGroupChild) -> (handle: Option<CompanionHandle>)
        ensures
            match self@ {
                CompanionView::Ready { config } => handle matches Some(bundle)
                    && bundle.companion_process == process && bundle.ssh_config_path@ == config,
                _ => handle is None,
            },
    {
        match self {
            CompanionState::Ready { config } => Some(
                CompanionHandle { companion_process: process, ssh_config_path: config },
            ),
            _ => None,
        }
    }

    /// Moves the state by the reads of `reads`, from the front, until the
    /// handshake is settled or the reads are used up. Hands back the state
    /// reached and how many reads were taken; what lies behind them was not
    /// looked at.
    pub fn run(self, reads: &Vec<Option<String>>) -> (end: (CompanionState, usize))
        ensures
            end.0@ == self@.run(reads.deep_view()),
            end.1 == self@.consumed(reads.deep_view()),
            end.1 <= reads.len(),
            self@ is AwaitConfig && end.0@.config() is Some ==> path_was_read(
                reads.deep_view(),
                end.1 as int,
                end.0@.config().unwrap(),
            ),
    {
        let ghost start = self@;
        let ghost all = reads.deep_view();
        let mut state = self;
        let mut taken: usize = 0;
        let mut waiting = state.stage().is_some();
        assert(all.skip(0) == all);
        while taken < reads.len() && waiting
            invariant
                all == reads.deep_view(),
                taken <= reads.len(),
                waiting == state@.stage() is Some,
                start.run(all) == state@.run(all.skip(taken as int)),
                start.consumed(all) == taken + state@.consumed(all.skip(taken as int)),
                start is AwaitConfig && state@.config() is Some ==> path_was_read(
                    all,
                    taken as int,
                    state@.config().unwrap(),
                ),
            decreases reads.len() - taken,
        {
            let read: Option<&str> = match &reads[taken] {
                Some(line) => Some(line.as_str()),
                None => None,
            };
            let ghost before = state@;
            proof {
                let rest = all.skip(taken as int);
                assert(rest[0] == read.deep_view());
                assert(rest.drop_first() == all.skip(taken + 1));
                assert(all[taken as int] == read.deep_view());
            }
            state = state.on_read(read);
            waiting = state.stage().is_some();
            proof {
                if start is AwaitConfig && state@.config() is Some {
                    let path = state@.config().unwrap();
                    if before is AwaitConfig {
                        assert(all[taken as int] is Some && occurs_in(
                            all[taken as int].unwrap(),
                            path,
                        ));
                    } else {
                        assert(before.config() == Some(path));
                        let at = choose|at: int|
                            0 <= at < taken && at < all.len() && #[trigger] all[at] is Some
                                && occurs_in(all[at].unwrap(), path);
                        assert(all[at] is Some && occurs_in(all[at].unwrap(), path));
                    }
                    assert(path_was_read(all, taken + 1, path));
                }
            }
            taken += 1;
        }
        (state, taken)
    }
}

/// From position `from` on, `at` is the first read that is more to `stage`
/// than a line it does not wait for: its line, or the end of the output.
pub open spec fn decisive_at(
    stage: Stage,
    reads: Seq<Option<Seq<char>>>,
    from: int,
    at: int,
) -> bool {
    &&& 0 <= from <= at < reads.len()
    &&& !(stage_outcome(stage, reads[at]) is NoMatch)
    &&& forall|p: int| from <= p < at ==> stage_outcome(stage, #[trigger] reads[p]) is NoMatch
}

/// From position `from` on, every read is a line that `stage` does not wait for.
pub open spec fn undecided_from(stage: Stage, reads: Seq<Option<Seq<char>>>, from: int) -> bool {
    forall|p: int| from <= p < reads.len() ==> stage_outcome(stage, #[trigger] reads[p]) is NoMatch
}

/// The reads `0..=i`, `i+1..=j` and `j+1..=k` take the three stages through,
/// one after the other, and the line at `i` names `config`.
pub open spec fn completes_at(
    reads: Seq<Option<Seq<char>>>,
    config: Seq<char>,
    i: int,
    j: int,
    k: int,
) -> bool {
    &&& decisive_at(Stage::Config, reads, 0, i)
    &&& stage_outcome(Stage::Config, reads[i]) == OutcomeView::Matched(config)
    &&& decisive_at(Stage::Listening, reads, i + 1, j)
    &&& stage_outcome(Stage::Listening, reads[j]) is Matched
    &&& decisive_at(Stage::InstanceUpdate, reads, j + 1, k)
    &&& stage_outcome(Stage::InstanceUpdate, reads[k]) is Matched
}

/// A settled handshake takes no read and stays as it is.
pub proof fn lemma_settled_stays(state: CompanionView, reads: Seq<Option<Seq<char>>>)
    requires
        state.stage() is None,
    ensures
        state.run(reads) == state,
        state.consumed(reads) == 0,
{
}

/// Reads that the waiting stage does not wait for are taken and change nothing.
pub proof fn lemma_unmatched_reads_pass(
    state: CompanionView,
    reads: Seq<Option<Seq<char>>>,
    n: int,
)
    requires
        state.stage() is Some,
        0 <= n <= reads.len(),
        forall|p: int|
            0 <= p < n ==> stage_outcome(state.stage().unwrap(), #[trigger] reads[p]) is NoMatch,
    ensures
        state.run(reads) == state.run(reads.skip(n)),
        state.consumed(reads) == n + state.consumed(reads.skip(n)),
    decreases n,
{
    if n == 0 {
        assert(reads.skip(0) == reads);
    } else {
        let rest = reads.drop_first();
        assert(state.on_read(reads[0]) == state);
        assert forall|p: int| 0 <= p < n - 1 implies stage_outcome(
            state.stage().unwrap(),
            #[trigger] rest[p],
        ) is NoMatch by {
            assert(rest[p] == reads[p + 1]);
        }
        lemma_unmatched_reads_pass(state, rest, n - 1);
        assert(rest.skip(n - 1) == reads.skip(n));
    }
}

/// The first read that means something to the waiting stage moves the state,
/// and the handshake goes on behind it.
pub proof fn lemma_first_decisive_read_moves(
    state: CompanionView,
    reads: Seq<Option<Seq<char>>>,
    at: int,
)
    requires
        state.stage() is Some,
        decisive_at(state.stage().unwrap(), reads, 0, at),
    ensures
        state.run(reads) == state.on_read(reads[at]).run(reads.skip(at + 1)),
        state.consumed(reads) == at + 1 + state.on_read(reads[at]).consumed(reads.skip(at + 1)),
{
    lemma_unmatched_reads_pass(state, reads, at);
    let rest = reads.skip(at);
    assert(rest[0] == reads[at]);
    assert(rest.drop_first() == reads.skip(at + 1));
}

/// While every read is a line that the waiting stage does not wait for, the
/// handshake takes them all and is where it was.
pub proof fn lemma_undecided_reads_leave_waiting(
    state: CompanionView,
    reads: Seq<Option<Seq<char>>>,
)
    requires
        state.stage() is Some,
        undecided_from(state.stage().unwrap(), reads, 0),
    ensures
        state.run(reads) == state,
        state.consumed(reads) == reads.len(),
{
    lemma_unmatched_reads_pass(state, reads, reads.len() as int);
}

/// The reads may come in two parts: what the second part does to the state
/// that the first part left is what the whole does. No read is looked at twice.
pub proof fn lemma_run_in_parts(
    state: CompanionView,
    first: Seq<Option<Seq<char>>>,
    second: Seq<Option<Seq<char>>>,
)
    ensures
        state.run(first + second) == state.run(first).run(second),
        state.consumed(first + second) == state.consumed(first) + state.run(first).consumed(
            second,
        ),
    decreases first.len(),
{
    if first.len() == 0 {
        assert(first + second == second);
    } else if state.stage() is None {
    } else {
        let whole = first + second;
        assert(whole[0] == first[0]);
        assert(whole.drop_first() == first.drop_first() + second);
        lemma_run_in_parts(state.on_read(first[0]), first.drop_first(), second);
    }
}

/// Where the companion names the configuration, then reports its listener,
/// then the instance's state, each in the first line that does so after the
/// stage before it was through, and its output does not end before, the
/// handshake is ready with the path that was named and has taken the reads up
/// to the third of these lines and none behind it.
pub proof fn lemma_three_lines_make_ready(
    reads: Seq<Option<Seq<char>>>,
    config: Seq<char>,
    i: int,
    j: int,
    k: int,
)
    requires
        completes_at(reads, config, i, j, k),
    ensures
        CompanionView::AwaitConfig.run(reads) == (CompanionView::Ready { config }),
        CompanionView::AwaitConfig.consumed(reads) == k + 1,
{
    let first = CompanionView::AwaitConfig;
    let second = CompanionView::AwaitListening { config };
    let third = CompanionView::AwaitInstanceUpdate { config };
    let ready = CompanionView::Ready { config };
    lemma_first_decisive_read_moves(first, reads, i);
    lemma_shifted_decisive(Stage::Listening, reads, i + 1, j);
    lemma_first_decisive_read_moves(second, reads.skip(i + 1), j - (i + 1));
    assert(reads.skip(i + 1).skip(j - i) == reads.skip(j + 1));
    lemma_shifted_decisive(Stage::InstanceUpdate, reads, j + 1, k);
    lemma_first_decisive_read_moves(third, reads.skip(j + 1), k - (j + 1));
    lemma_settled_stays(ready, reads.skip(j + 1).skip(k - j));
}

/// What is decisive from `from` on is decisive from the front of the reads
/// that begin at `from`.
proof fn lemma_shifted_decisive(stage: Stage, reads: Seq<Option<Seq<char>>>, from: int, at: int)
    requires
        decisive_at(stage, reads, from, at),
    ensures
        decisive_at(stage, reads.skip(from), 0, at - from),
        reads.skip(from)[at - from] == reads[at],
{
    let rest = reads.skip(from);
    assert forall|p: int| 0 <= p < at - from implies stage_outcome(stage, #[trigger] rest[p])
        is NoMatch by {
        assert(rest[p] == reads[p + from]);
    }
}

/// Where the companion's output ends while a stage still waits, the handshake
/// fails at that stage and has taken the reads up to the end and none behind it.
pub proof fn lemma_end_fails_waiting_stage(
    state: CompanionView,
    reads: Seq<Option<Seq<char>>>,
    at: int,
)
    requires
        state.stage() is Some,
        decisive_at(state.stage().unwrap(), reads, 0, at),
        reads[at] is None,
    ensures
        state.run(reads) == CompanionView::Failed(
            HandshakeError::StageNotMatched(state.stage().unwrap()),
        ),
        state.consumed(reads) == at + 1,
{
    lemma_first_decisive_read_moves(state, reads, at);
    lemma_settled_stays(state.on_read(reads[at]), reads.skip(at + 1));
}

/// Where the companion's output ends before any line has named a
/// configuration, the handshake fails at the first stage.
pub proof fn lemma_no_config_no_result(reads: Seq<Option<Seq<char>>>, end: int)
    requires
        0 <= end < reads.len(),
        reads[end] is None,
        forall|p: int| 0 <= p < end ==> (#[trigger] reads[p] matches Some(line) && config_in(line) is None),
    ensures
        CompanionView::AwaitConfig.run(reads) == CompanionView::Failed(
            HandshakeError::StageNotMatched(Stage::Config),
        ),
        CompanionView::AwaitConfig.consumed(reads) == end + 1,
{
    lemma_end_fails_waiting_stage(CompanionView::AwaitConfig, reads, end);
}

/// From `from` on there is a first read that means something to `stage`, or
/// there is none. Hands back its position, or the number of reads.
proof fn lemma_first_decisive(stage: Stage, reads: Seq<Option<Seq<char>>>, from: int) -> (at: int)
    requires
        0 <= from <= reads.len(),
    ensures
        from <= at <= reads.len(),
        at < reads.len() ==> decisive_at(stage, reads, from, at),
        at == reads.len() ==> undecided_from(stage, reads, from),
    decreases reads.len() - from,
{
    if from == reads.len() {
        from
    } else if stage_outcome(stage, reads[from]) is NoMatch {
        lemma_first_decisive(stage, reads, from + 1)
    } else {
        from
    }
}

/// What is undecided from `from` on is undecided from the front of the reads
/// that begin at `from`.
proof fn lemma_shifted_undecided(stage: Stage, reads: Seq<Option<Seq<char>>>, from: int)
    requires
        0 <= from <= reads.len(),
        undecided_from(stage, reads, from),
    ensures
        undecided_from(stage, reads.skip(from), 0),
{
    let rest = reads.skip(from);
    assert forall|p: int| 0 <= p < rest.len() implies stage_outcome(stage, #[trigger] rest[p])
        is NoMatch by {
        assert(rest[p] == reads[p + from]);
    }
}

/// The output ends at `at` while `stage` waits: the stages before it were
/// taken through by the first lines that could, and from then on `at` is the
/// first read that means something to `stage`, and it brings no line.
pub open spec fn ends_in_stage(reads: Seq<Option<Seq<char>>>, stage: Stage, at: int) -> bool {
    match stage {
        Stage::Config => decisive_at(Stage::Config, reads, 0, at) && reads[at] is None,
        Stage::Listening => exists|i: int|
            {
                &&& #[trigger] decisive_at(Stage::Config, reads, 0, i)
                &&& reads[i] is Some
                &&& decisive_at(Stage::Listening, reads, i + 1, at)
                &&& reads[at] is None
            },
        Stage::InstanceUpdate => exists|i: int, j: int|
            {
                &&& #[trigger] decisive_at(Stage::Config, reads, 0, i)
                &&& reads[i] is Some
                &&& #[trigger] decisive_at(Stage::Listening, reads, i + 1, j)
                &&& reads[j] is Some
                &&& decisive_at(Stage::InstanceUpdate, reads, j + 1, at)
                &&& reads[at] is None
            },
    }
}

/// Where the output ends while a stage waits, the handshake that began with
/// the first stage fails at that stage, and has taken the reads up to the end
/// and none behind it.
pub proof fn lemma_output_end_fails_handshake(reads: Seq<Option<Seq<char>>>, stage: Stage, at: int)
    requires
        ends_in_stage(reads, stage, at),
    ensures
        CompanionView::AwaitConfig.run(reads) == CompanionView::Failed(
            HandshakeError::StageNotMatched(stage),
        ),
        CompanionView::AwaitConfig.consumed(reads) == at + 1,
{
    let first = CompanionView::AwaitConfig;
    match stage {
        Stage::Config => {
            lemma_end_fails_waiting_stage(first, reads, at);
        },
        Stage::Listening => {
            let i = choose|i: int|
                {
                    &&& #[trigger] decisive_at(Stage::Config, reads, 0, i)
                    &&& reads[i] is Some
                    &&& decisive_at(Stage::Listening, reads, i + 1, at)
                    &&& reads[at] is None
                };
            lemma_first_decisive_read_moves(first, reads, i);
            lemma_shifted_decisive(Stage::Listening, reads, i + 1, at);
            lemma_end_fails_waiting_stage(first.on_read(reads[i]), reads.skip(i + 1), at - (i + 1));
        },
        Stage::InstanceUpdate => {
            let (i, j) = choose|i: int, j: int|
                {
                    &&& #[trigger] decisive_at(Stage::Config, reads, 0, i)
                    &&& reads[i] is Some
                    &&& #[trigger] decisive_at(Stage::Listening, reads, i + 1, j)
                    &&& reads[j] is Some
                    &&& decisive_at(Stage::InstanceUpdate, reads, j + 1, at)
                    &&& reads[at] is None
                };
            lemma_first_decisive_read_moves(first, reads, i);
            let second = first.on_read(reads[i]);
            lemma_shifted_decisive(Stage::Listening, reads, i + 1, j);
            lemma_first_decisive_read_moves(second, reads.skip(i + 1), j - (i + 1));
            assert(reads.skip(i + 1).skip(j - i) == reads.skip(j + 1));
            let third = second.on_read(reads[j]);
            lemma_shifted_decisive(Stage::InstanceUpdate, reads, j + 1, at);
            lemma_end_fails_waiting_stage(third, reads.skip(j + 1), at - (j + 1));
        },
    }
}

/// The reads account for the state `end`: for a ready one, three lines took
/// the stages through in order and the first of them named its path; for a
/// failed one, the output ended while a stage waited, and the failure names
/// that stage; for one that waits, every read brought a line.
pub open spec fn accounts_for(reads: Seq<Option<Seq<char>>>, end: CompanionView) -> bool {
    match end {
        CompanionView::Ready { config } => exists|i: int, j: int, k: int| #[trigger]
            completes_at(reads, config, i, j, k),
        CompanionView::Failed(error) => exists|stage: Stage, at: int|
            error == HandshakeError::StageNotMatched(stage) && #[trigger] ends_in_stage(
                reads,
                stage,
                at,
            ),
        _ => forall|p: int| 0 <= p < reads.len() ==> (#[trigger] reads[p]) is Some,
    }
}

/// A handshake that began with the first stage ends in no other way than the
/// reads account for: it is ready only by three lines in order, and has failed
/// only where the output ended while a stage waited.
pub proof fn lemma_settled_only_so(reads: Seq<Option<Seq<char>>>)
    ensures
        accounts_for(reads, CompanionView::AwaitConfig.run(reads)),
{
    let first = CompanionView::AwaitConfig;
    let i = lemma_first_decisive(Stage::Config, reads, 0);
    if i == reads.len() {
        lemma_undecided_reads_leave_waiting(first, reads);
        assert forall|p: int| 0 <= p < reads.len() implies (#[trigger] reads[p]) is Some by {
            assert(stage_outcome(Stage::Config, reads[p]) is NoMatch);
        }
        assert(accounts_for(reads, first));
    } else {
        lemma_first_decisive_read_moves(first, reads, i);
        let second = first.on_read(reads[i]);
        let behind_i = reads.skip(i + 1);
        if reads[i] is None {
            lemma_settled_stays(second, behind_i);
            assert(ends_in_stage(reads, Stage::Config, i));
            assert(accounts_for(reads, second));
        } else {
            lemma_after_config(reads, i);
        }
    }
}

/// Three lines that take the stages through account for a ready handshake.
proof fn lemma_three_lines_account(
    reads: Seq<Option<Seq<char>>>,
    config: Seq<char>,
    i: int,
    j: int,
    k: int,
)
    requires
        completes_at(reads, config, i, j, k),
    ensures
        accounts_for(reads, CompanionView::Ready { config }),
{
    let end = CompanionView::Ready { config };
    assert(completes_at(reads, end->Ready_config, i, j, k));
}

/// The second half of `lemma_settled_only_so`: the line at `i` has named the
/// configuration.
proof fn lemma_after_config(reads: Seq<Option<Seq<char>>>, i: int)
    requires
        decisive_at(Stage::Config, reads, 0, i),
        reads[i] is Some,
        CompanionView::AwaitConfig.run(reads) == CompanionView::AwaitConfig.on_read(reads[i]).run(
            reads.skip(i + 1),
        ),
    ensures
        accounts_for(reads, CompanionView::AwaitConfig.run(reads)),
{
    let whole = CompanionView::AwaitConfig.run(reads);
    let second = CompanionView::AwaitConfig.on_read(reads[i]);
    let config = second->AwaitListening_config;
    assert(stage_outcome(Stage::Config, reads[i]) == OutcomeView::Matched(config));
    let behind_i = reads.skip(i + 1);
    let j = lemma_first_decisive(Stage::Listening, reads, i + 1);
    if j == reads.len() {
        lemma_shifted_undecided(Stage::Listening, reads, i + 1);
        lemma_undecided_reads_leave_waiting(second, behind_i);
        assert(whole == second);
        assert forall|p: int| 0 <= p < reads.len() implies (#[trigger] reads[p]) is Some by {
            if p < i {
                assert(stage_outcome(Stage::Config, reads[p]) is NoMatch);
            } else if p > i {
                assert(stage_outcome(Stage::Listening, reads[p]) is NoMatch);
            }
        }
        assert(accounts_for(reads, second));
    } else {
        lemma_shifted_decisive(Stage::Listening, reads, i + 1, j);
        lemma_first_decisive_read_moves(second, behind_i, j - (i + 1));
        assert(behind_i.skip(j - i) == reads.skip(j + 1));
        let third = second.on_read(reads[j]);
        let behind_j = reads.skip(j + 1);
        if reads[j] is None {
            lemma_settled_stays(third, behind_j);
            assert(whole == CompanionView::Failed(
                HandshakeError::StageNotMatched(Stage::Listening),
            ));
            assert(ends_in_stage(reads, Stage::Listening, j));
            assert(accounts_for(reads, third));
        } else {
            assert(third == CompanionView::AwaitInstanceUpdate { config });
            let k = lemma_first_decisive(Stage::InstanceUpdate, reads, j + 1);
            if k == reads.len() {
                lemma_shifted_undecided(Stage::InstanceUpdate, reads, j + 1);
                lemma_undecided_reads_leave_waiting(third, behind_j);
                assert(whole == third);
                assert forall|p: int| 0 <= p < reads.len() implies (#[trigger] reads[p])
                    is Some by {
                    if p < i {
                        assert(stage_outcome(Stage::Config, reads[p]) is NoMatch);
                    } else if i < p < j {
                        assert(stage_outcome(Stage::Listening, reads[p]) is NoMatch);
                    } else if p > j {
                        assert(stage_outcome(Stage::InstanceUpdate, reads[p]) is NoMatch);
                    }
                }
                assert(accounts_for(reads, third));
            } else {
                lemma_shifted_decisive(Stage::InstanceUpdate, reads, j + 1, k);
                lemma_first_decisive_read_moves(third, behind_j, k - (j + 1));
                let last = third.on_read(reads[k]);
                lemma_settled_stays(last, behind_j.skip(k - j));
                assert(whole == last);
                if reads[k] is None {
                    assert(last == CompanionView::Failed(
                        HandshakeError::StageNotMatched(Stage::InstanceUpdate),
                    ));
                    assert(ends_in_stage(reads, Stage::InstanceUpdate, k));
                    assert(accounts_for(reads, last));
                } else {
                    assert(last == CompanionView::Ready { config });
                    assert(completes_at(reads, config, i, j, k));
                    lemma_three_lines_account(reads, config, i, j, k);
                }
            }
        }
    }
}

} // verus!
