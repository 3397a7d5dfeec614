use command_group::{AsyncCommandGroup, AsyncGroupChild};
use tunnel_handshake::companion::CompanionState;
use tunnel_handshake::handshake::{HandshakeError, Stage};
use tunnel_handshake::shell::ShellState;

/// A process that ends at once, in a group of its own.
fn short_lived() -> AsyncGroupChild {
    tokio::process::Command::new("true").group_spawn().unwrap()
}

fn in_runtime(check: fn()) {
    let runtime = tokio::runtime::Builder::new_current_thread().enable_all().build().unwrap();
    let _guard = runtime.enter();
    check();
}

fn companion_handle_cases() {
    let process = short_lived();
    let id = process.id();
    let ready = CompanionState::Ready { config: "C:\\cfg".to_string() };
    let handle = ready.into_handle(process).unwrap();
    assert_eq!(handle.ssh_config_path, "C:\\cfg");
    assert_eq!(handle.companion_process.id(), id);

    let waiting = CompanionState::AwaitInstanceUpdate { config: "C:\\cfg".to_string() };
    assert!(waiting.into_handle(short_lived()).is_none());
    assert!(CompanionState::AwaitConfig.into_handle(short_lived()).is_none());
    let failed = CompanionState::Failed(HandshakeError::StageNotMatched(Stage::Config));
    assert!(failed.into_handle(short_lived()).is_none());
}

fn shell_handle_cases() {
    let process = short_lived();
    let id = process.id();
    let handle = ShellState::Started.into_handle(process).unwrap();
    assert_eq!(handle.id(), id);
    assert!(ShellState::AwaitFirstLine.into_handle(short_lived()).is_none());
    assert!(ShellState::Failed(HandshakeError::Refused).into_handle(short_lived()).is_none());
}

#[test]
fn only_a_ready_handshake_yields_a_companion_handle() {
    in_runtime(companion_handle_cases);
}

#[test]
fn only_a_started_handshake_yields_the_shell_client() {
    in_runtime(shell_handle_cases);
}
