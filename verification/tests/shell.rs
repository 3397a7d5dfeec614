use tunnel_handshake::handshake::{HandshakeError, SpawnReport};
use tunnel_handshake::shell::ShellState;

fn lines(texts: &[&str]) -> Vec<Option<String>> {
    texts.iter().map(|text| Some(text.to_string())).collect()
}

#[test]
fn shell_handshake_begins_by_how_the_start_went() {
    assert_eq!(ShellState::start(SpawnReport::Running), ShellState::AwaitFirstLine);
    assert_eq!(
        ShellState::start(SpawnReport::SpawnFailed),
        ShellState::Failed(HandshakeError::SpawnFailure)
    );
    assert_eq!(
        ShellState::start(SpawnReport::PipeMissing),
        ShellState::Failed(HandshakeError::PipeUnavailable)
    );
}

#[test]
fn only_the_first_state_waits() {
    assert!(ShellState::AwaitFirstLine.is_waiting());
    assert!(!ShellState::Started.is_waiting());
    assert!(!ShellState::Failed(HandshakeError::Refused).is_waiting());
}

#[test]
fn a_refused_connection_gives_no_result() {
    assert_eq!(
        ShellState::AwaitFirstLine.on_read(Some("Connection refused")),
        ShellState::Failed(HandshakeError::Refused)
    );
    assert_eq!(
        ShellState::AwaitFirstLine
            .on_read(Some("ssh: connect to host 127.0.0.1 port 3333: Connection refused")),
        ShellState::Failed(HandshakeError::Refused)
    );
    let (state, taken) = ShellState::start(SpawnReport::Running).run(&lines(&["Connection refused"]));
    assert_eq!(state, ShellState::Failed(HandshakeError::Refused));
    assert_eq!(taken, 1);
}

#[test]
fn any_other_first_line_starts_the_shell_at_once() {
    let reads = lines(&[
        "Warning: Permanently added ...",
        "Connection refused",
        "more",
    ]);
    let (state, taken) = ShellState::start(SpawnReport::Running).run(&reads);
    assert_eq!(state, ShellState::Started);
    assert_eq!(taken, 1);
    assert_eq!(ShellState::AwaitFirstLine.on_read(Some("x")), ShellState::Started);
    assert_eq!(ShellState::AwaitFirstLine.on_read(Some("connection refused")), ShellState::Started);
}

#[test]
fn reads_without_a_line_are_passed_over() {
    assert_eq!(ShellState::AwaitFirstLine.on_read(None), ShellState::AwaitFirstLine);
    assert_eq!(ShellState::AwaitFirstLine.on_read(Some("")), ShellState::AwaitFirstLine);
    let reads = vec![None, Some(String::new()), None, Some("Connection refused".to_string())];
    let (state, taken) = ShellState::AwaitFirstLine.run(&reads);
    assert_eq!(state, ShellState::Failed(HandshakeError::Refused));
    assert_eq!(taken, 4);
    let reads = vec![Some(String::new()), Some("Welcome".to_string()), Some("Connection refused".to_string())];
    let (state, taken) = ShellState::AwaitFirstLine.run(&reads);
    assert_eq!(state, ShellState::Started);
    assert_eq!(taken, 2);
}

#[test]
fn silence_keeps_the_shell_handshake_waiting() {
    let (state, taken) = ShellState::AwaitFirstLine.run(&Vec::new());
    assert_eq!(state, ShellState::AwaitFirstLine);
    assert_eq!(taken, 0);
    let reads = vec![None, None, Some(String::new())];
    let (state, taken) = ShellState::AwaitFirstLine.run(&reads);
    assert_eq!(state, ShellState::AwaitFirstLine);
    assert_eq!(taken, 3);
}

#[test]
fn a_settled_shell_handshake_stays_whatever_comes() {
    assert_eq!(ShellState::Started.on_read(Some("Connection refused")), ShellState::Started);
    assert_eq!(ShellState::Started.on_read(None), ShellState::Started);
    let refused = ShellState::Failed(HandshakeError::Refused);
    assert_eq!(refused.on_read(Some("Welcome")), refused);
    let (state, taken) = ShellState::start(SpawnReport::SpawnFailed).run(&lines(&["Welcome"]));
    assert_eq!(state, ShellState::Failed(HandshakeError::SpawnFailure));
    assert_eq!(taken, 0);
    let (state, taken) = ShellState::start(SpawnReport::PipeMissing).run(&lines(&["Welcome"]));
    assert_eq!(state, ShellState::Failed(HandshakeError::PipeUnavailable));
    assert_eq!(taken, 0);
}

#[test]
fn shell_reads_in_two_parts_do_what_the_whole_does() {
    let whole = vec![None, Some(String::new()), Some("Welcome".to_string()), Some("Connection refused".to_string())];
    let (end, taken) = ShellState::AwaitFirstLine.run(&whole);
    for cut in 0..=whole.len() {
        let first: Vec<Option<String>> = whole[..cut].to_vec();
        let second: Vec<Option<String>> = whole[cut..].to_vec();
        let (middle, taken_first) = ShellState::AwaitFirstLine.run(&first);
        let (state, taken_second) = middle.run(&second);
        assert_eq!(state, end);
        assert_eq!(taken_first + taken_second, taken);
    }
}
