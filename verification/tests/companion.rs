use tunnel_handshake::companion::{scan_line, CompanionState};
use tunnel_handshake::handshake::{HandshakeError, HandshakeOutcome, SpawnReport, Stage};

fn lines(texts: &[&str]) -> Vec<Option<String>> {
    texts.iter().map(|text| Some(text.to_string())).collect()
}

fn waiting_for_listening() -> CompanionState {
    CompanionState::AwaitListening { config: "cfg".to_string() }
}

fn waiting_for_update() -> CompanionState {
    CompanionState::AwaitInstanceUpdate { config: "cfg".to_string() }
}

#[test]
fn stages_are_counted_from_one() {
    assert_eq!(Stage::Config.number(), 1);
    assert_eq!(Stage::Listening.number(), 2);
    assert_eq!(Stage::InstanceUpdate.number(), 3);
}

#[test]
fn handshake_begins_by_how_the_start_went() {
    assert_eq!(CompanionState::start(SpawnReport::Running), CompanionState::AwaitConfig);
    assert_eq!(
        CompanionState::start(SpawnReport::SpawnFailed),
        CompanionState::Failed(HandshakeError::SpawnFailure)
    );
    assert_eq!(
        CompanionState::start(SpawnReport::PipeMissing),
        CompanionState::Failed(HandshakeError::PipeUnavailable)
    );
}

#[test]
fn each_waiting_state_names_its_stage() {
    assert_eq!(CompanionState::AwaitConfig.stage(), Some(Stage::Config));
    assert_eq!(waiting_for_listening().stage(), Some(Stage::Listening));
    assert_eq!(waiting_for_update().stage(), Some(Stage::InstanceUpdate));
    assert_eq!(CompanionState::Ready { config: "cfg".to_string() }.stage(), None);
    assert_eq!(CompanionState::Failed(HandshakeError::SpawnFailure).stage(), None);
}

#[test]
fn scan_line_for_the_config_stage() {
    assert_eq!(
        scan_line(Stage::Config, Some("ssh_config=\"C:\\cfg\"")),
        HandshakeOutcome::Matched("C:\\cfg".to_string())
    );
    assert_eq!(scan_line(Stage::Config, Some("ssh: listening on 3333")), HandshakeOutcome::NoMatch);
    assert_eq!(scan_line(Stage::Config, Some("")), HandshakeOutcome::NoMatch);
    assert_eq!(scan_line(Stage::Config, None), HandshakeOutcome::StreamEnded);
}

#[test]
fn scan_line_for_the_listening_stage() {
    assert_eq!(
        scan_line(Stage::Listening, Some("ssh: listening on 3333")),
        HandshakeOutcome::Matched("ssh: listening on 3333".to_string())
    );
    assert_eq!(scan_line(Stage::Listening, Some("ssh_config=\"C:\\cfg\"")), HandshakeOutcome::NoMatch);
    assert_eq!(scan_line(Stage::Listening, Some("instance update")), HandshakeOutcome::NoMatch);
    assert_eq!(scan_line(Stage::Listening, None), HandshakeOutcome::StreamEnded);
}

#[test]
fn scan_line_for_the_instance_update_stage() {
    assert_eq!(
        scan_line(Stage::InstanceUpdate, Some("instance update received")),
        HandshakeOutcome::Matched("instance update received".to_string())
    );
    assert_eq!(scan_line(Stage::InstanceUpdate, Some("ssh: listening on 3333")), HandshakeOutcome::NoMatch);
    assert_eq!(scan_line(Stage::InstanceUpdate, None), HandshakeOutcome::StreamEnded);
}

#[test]
fn a_match_moves_to_the_next_stage_and_keeps_the_path() {
    assert_eq!(
        CompanionState::AwaitConfig.advance(HandshakeOutcome::Matched("C:\\cfg".to_string())),
        CompanionState::AwaitListening { config: "C:\\cfg".to_string() }
    );
    assert_eq!(
        waiting_for_listening().advance(HandshakeOutcome::Matched("ssh: listening on 1".to_string())),
        waiting_for_update()
    );
    assert_eq!(
        waiting_for_update().advance(HandshakeOutcome::Matched("instance update".to_string())),
        CompanionState::Ready { config: "cfg".to_string() }
    );
}

#[test]
fn no_match_leaves_the_state() {
    assert_eq!(CompanionState::AwaitConfig.advance(HandshakeOutcome::NoMatch), CompanionState::AwaitConfig);
    assert_eq!(waiting_for_listening().advance(HandshakeOutcome::NoMatch), waiting_for_listening());
    assert_eq!(waiting_for_update().advance(HandshakeOutcome::NoMatch), waiting_for_update());
}

#[test]
fn the_end_of_the_output_fails_the_waiting_stage() {
    assert_eq!(
        CompanionState::AwaitConfig.advance(HandshakeOutcome::StreamEnded),
        CompanionState::Failed(HandshakeError::StageNotMatched(Stage::Config))
    );
    assert_eq!(
        waiting_for_listening().advance(HandshakeOutcome::StreamEnded),
        CompanionState::Failed(HandshakeError::StageNotMatched(Stage::Listening))
    );
    assert_eq!(
        waiting_for_update().advance(HandshakeOutcome::StreamEnded),
        CompanionState::Failed(HandshakeError::StageNotMatched(Stage::InstanceUpdate))
    );
}

#[test]
fn a_settled_handshake_stays_whatever_comes() {
    let ready = || CompanionState::Ready { config: "cfg".to_string() };
    let failed = || CompanionState::Failed(HandshakeError::PipeUnavailable);
    assert_eq!(ready().advance(HandshakeOutcome::StreamEnded), ready());
    assert_eq!(ready().advance(HandshakeOutcome::Matched("x".to_string())), ready());
    assert_eq!(ready().advance(HandshakeOutcome::NoMatch), ready());
    assert_eq!(failed().advance(HandshakeOutcome::Matched("x".to_string())), failed());
    assert_eq!(failed().advance(HandshakeOutcome::StreamEnded), failed());
    assert_eq!(ready().on_read(None), ready());
    assert_eq!(ready().on_read(Some("ssh_config=\"other\"")), ready());
    assert_eq!(failed().on_read(Some("ssh_config=\"other\"")), failed());
}

#[test]
fn on_read_lets_the_waiting_stage_judge() {
    assert_eq!(
        CompanionState::AwaitConfig.on_read(Some("ssh_config=\"C:\\cfg\"")),
        CompanionState::AwaitListening { config: "C:\\cfg".to_string() }
    );
    assert_eq!(
        CompanionState::AwaitConfig.on_read(Some("ssh: listening on 3333")),
        CompanionState::AwaitConfig
    );
    assert_eq!(waiting_for_listening().on_read(Some("ssh: listening on 3333")), waiting_for_update());
    assert_eq!(
        waiting_for_listening().on_read(Some("ssh_config=\"other\"")),
        waiting_for_listening()
    );
    assert_eq!(
        waiting_for_update().on_read(Some("instance update received")),
        CompanionState::Ready { config: "cfg".to_string() }
    );
    assert_eq!(
        waiting_for_update().on_read(None),
        CompanionState::Failed(HandshakeError::StageNotMatched(Stage::InstanceUpdate))
    );
}

#[test]
fn three_lines_among_noise_make_the_handshake_ready() {
    let reads = lines(&[
        "noise",
        "ssh_config=\"C:\\cfg\"",
        "noise",
        "ssh: listening on 3333",
        "noise",
        "instance update received",
    ]);
    let (state, taken) = CompanionState::start(SpawnReport::Running).run(&reads);
    assert_eq!(state, CompanionState::Ready { config: "C:\\cfg".to_string() });
    assert_eq!(taken, 6);
}

#[test]
fn nothing_is_read_behind_the_third_line() {
    let reads = lines(&[
        "ssh_config=\"first\"",
        "ssh: listening on 3333",
        "instance update received",
        "ssh_config=\"second\"",
        "more",
    ]);
    let (state, taken) = CompanionState::AwaitConfig.run(&reads);
    assert_eq!(state, CompanionState::Ready { config: "first".to_string() });
    assert_eq!(taken, 3);
}

#[test]
fn output_that_ends_before_a_config_gives_no_result() {
    let mut reads = lines(&["noise", "ssh: listening on 3333", "instance update received"]);
    reads.push(None);
    let (state, taken) = CompanionState::start(SpawnReport::Running).run(&reads);
    assert_eq!(state, CompanionState::Failed(HandshakeError::StageNotMatched(Stage::Config)));
    assert_eq!(taken, 4);
    let (state, taken) = CompanionState::AwaitConfig.run(&vec![None]);
    assert_eq!(state, CompanionState::Failed(HandshakeError::StageNotMatched(Stage::Config)));
    assert_eq!(taken, 1);
}

#[test]
fn output_that_ends_in_a_later_stage_fails_that_stage() {
    let mut reads = lines(&["ssh_config=\"C:\\cfg\"", "noise"]);
    reads.push(None);
    reads.push(Some("ssh: listening on 3333".to_string()));
    let (state, taken) = CompanionState::AwaitConfig.run(&reads);
    assert_eq!(state, CompanionState::Failed(HandshakeError::StageNotMatched(Stage::Listening)));
    assert_eq!(taken, 3);

    let mut reads = lines(&["ssh_config=\"C:\\cfg\"", "ssh: listening on 3333", "noise"]);
    reads.push(None);
    let (state, taken) = CompanionState::AwaitConfig.run(&reads);
    assert_eq!(state, CompanionState::Failed(HandshakeError::StageNotMatched(Stage::InstanceUpdate)));
    assert_eq!(taken, 4);
}

#[test]
fn stages_go_in_order_and_no_line_serves_two() {
    let reads = lines(&[
        "ssh: listening on 3333",
        "instance update received",
        "ssh_config=\"C:\\cfg\" ssh: listening on 3333 instance update",
        "instance update received",
    ]);
    let (state, taken) = CompanionState::AwaitConfig.run(&reads);
    assert_eq!(state, CompanionState::AwaitListening { config: "C:\\cfg".to_string() });
    assert_eq!(taken, 4);
}

#[test]
fn reads_that_run_out_leave_the_handshake_waiting() {
    let (state, taken) = CompanionState::AwaitConfig.run(&Vec::new());
    assert_eq!(state, CompanionState::AwaitConfig);
    assert_eq!(taken, 0);
    let reads = lines(&["noise", "ssh_config=\"C:\\cfg\"", "ssh: listening on 3333"]);
    let (state, taken) = CompanionState::AwaitConfig.run(&reads);
    assert_eq!(state, CompanionState::AwaitInstanceUpdate { config: "C:\\cfg".to_string() });
    assert_eq!(taken, 3);
}

#[test]
fn a_failed_start_reads_nothing() {
    let reads = lines(&["ssh_config=\"C:\\cfg\"", "ssh: listening on 3333", "instance update"]);
    let (state, taken) = CompanionState::start(SpawnReport::SpawnFailed).run(&reads);
    assert_eq!(state, CompanionState::Failed(HandshakeError::SpawnFailure));
    assert_eq!(taken, 0);
    let (state, taken) = CompanionState::start(SpawnReport::PipeMissing).run(&reads);
    assert_eq!(state, CompanionState::Failed(HandshakeError::PipeUnavailable));
    assert_eq!(taken, 0);
}

#[test]
fn reads_in_two_parts_do_what_the_whole_does() {
    let whole = lines(&[
        "noise",
        "ssh_config=\"C:\\cfg\"",
        "ssh: listening on 3333",
        "noise",
        "instance update received",
        "behind",
    ]);
    let (end, taken) = CompanionState::AwaitConfig.run(&whole);
    for cut in 0..=whole.len() {
        let first: Vec<Option<String>> = whole[..cut].to_vec();
        let second: Vec<Option<String>> = whole[cut..].to_vec();
        let (middle, taken_first) = CompanionState::AwaitConfig.run(&first);
        let (state, taken_second) = middle.run(&second);
        assert_eq!(state, end);
        assert_eq!(taken_first + taken_second, taken);
    }
}
