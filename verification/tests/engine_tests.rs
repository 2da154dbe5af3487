use daisy::worm::{
    drain_decision, shell_exec_fallback, Action, DrainStep, Engine, Error, Event, ReadEvent,
    Stage, UploadExecutableError, CHANNEL_REQUEST_DENIED,
};

#[test]
fn successful_hop_over_the_direct_channel() {
    let mut e = Engine::new();
    assert_eq!(e.current_action(), Action::Connect);
    assert_eq!(e.step(Event::Connected), Action::Handshake);
    assert_eq!(e.step(Event::HandshakeCompleted), Action::ListAgentKeys);
    assert_eq!(e.step(Event::AgentKeysListed(1)), Action::TryAuthKey(0));
    assert_eq!(e.step(Event::AuthSucceeded), Action::UploadScp);
    assert_eq!(e.step(Event::ScpUploaded), Action::Execute);
    assert_eq!(e.step(Event::Executed), Action::WriteHandoff);
    assert_eq!(e.step(Event::HandoffWritten), Action::Halt);
    assert_eq!(e.stage, Stage::Done);
}

#[test]
fn direct_channel_failure_falls_back_to_the_shell_path() {
    let mut e = Engine::new();
    e.step(Event::Connected);
    e.step(Event::HandshakeCompleted);
    e.step(Event::AgentKeysListed(1));
    e.step(Event::AuthSucceeded);
    assert_eq!(
        e.step(Event::ScpFailed(UploadExecutableError::SSH)),
        Action::UploadShell
    );
    assert_eq!(e.step(Event::ShellUploaded), Action::Execute);
    assert_eq!(e.stage, Stage::Executing);
}

#[test]
fn both_upload_failures_end_the_hop_with_both_reasons() {
    let mut e = Engine::new();
    e.step(Event::Connected);
    e.step(Event::HandshakeCompleted);
    e.step(Event::AgentKeysListed(1));
    e.step(Event::AuthSucceeded);
    e.step(Event::ScpFailed(UploadExecutableError::SSH));
    assert_eq!(
        e.step(Event::ShellUploadFailed(UploadExecutableError::IO)),
        Action::Halt
    );
    assert_eq!(
        e.stage,
        Stage::Failed(Error::UploadFailed(
            UploadExecutableError::SSH,
            UploadExecutableError::IO
        ))
    );
}

#[test]
fn keys_are_tried_in_order_until_one_succeeds() {
    let mut e = Engine::new();
    e.step(Event::Connected);
    e.step(Event::HandshakeCompleted);
    assert_eq!(e.step(Event::AgentKeysListed(3)), Action::TryAuthKey(0));
    assert_eq!(e.step(Event::AuthRejected), Action::TryAuthKey(1));
    assert_eq!(e.step(Event::AuthRejected), Action::TryAuthKey(2));
    assert_eq!(e.step(Event::AuthSucceeded), Action::UploadScp);
}

#[test]
fn exhausting_all_keys_fails_authentication() {
    let mut e = Engine::new();
    e.step(Event::Connected);
    e.step(Event::HandshakeCompleted);
    e.step(Event::AgentKeysListed(2));
    e.step(Event::AuthRejected);
    assert_eq!(e.step(Event::AuthRejected), Action::Halt);
    assert_eq!(e.stage, Stage::Failed(Error::AuthenticationFailed));
}

#[test]
fn an_agent_without_keys_fails_authentication() {
    let mut e = Engine::new();
    e.step(Event::Connected);
    e.step(Event::HandshakeCompleted);
    assert_eq!(e.step(Event::AgentKeysListed(0)), Action::Halt);
    assert_eq!(e.stage, Stage::Failed(Error::AuthenticationFailed));
}

#[test]
fn each_stage_failure_has_its_own_error() {
    let mut e = Engine::new();
    e.step(Event::ConnectFailed);
    assert_eq!(e.stage, Stage::Failed(Error::ConnectionFailed));

    let mut e = Engine::new();
    e.step(Event::Connected);
    e.step(Event::HandshakeFailed);
    assert_eq!(e.stage, Stage::Failed(Error::TransportHandshakeFailed));

    let mut e = Engine::new();
    e.step(Event::Connected);
    e.step(Event::HandshakeCompleted);
    e.step(Event::AgentFailed);
    assert_eq!(e.stage, Stage::Failed(Error::AuthenticationFailed));
}

#[test]
fn a_finished_hop_stays_finished() {
    let mut e = Engine::new();
    e.step(Event::ConnectFailed);
    assert_eq!(e.step(Event::Connected), Action::Halt);
    assert_eq!(e.stage, Stage::Failed(Error::ConnectionFailed));
}

#[test]
fn handoff_failure_fails_the_execute_stage() {
    let mut e = Engine::new();
    e.step(Event::Connected);
    e.step(Event::HandshakeCompleted);
    e.step(Event::AgentKeysListed(1));
    e.step(Event::AuthSucceeded);
    e.step(Event::ScpUploaded);
    e.step(Event::Executed);
    assert_eq!(e.step(Event::HandoffFailed), Action::Halt);
    assert_eq!(e.stage, Stage::Failed(Error::ExecuteFailed));
}

#[test]
fn direct_transfer_destination_is_fixed() {
    assert_eq!(daisy::worm::remote_exe_path(), "/tmp/daisy");
    assert_eq!(daisy::worm::REMOTE_EXE_MODE, 0o700);
}

#[test]
fn drain_loop_decisions() {
    assert_eq!(drain_decision(ReadEvent::Eof), DrainStep::Stop);
    assert_eq!(drain_decision(ReadEvent::WouldBlock), DrainStep::Stop);
    assert_eq!(drain_decision(ReadEvent::Data(4096)), DrainStep::KeepReading);
    assert_eq!(drain_decision(ReadEvent::Interrupted), DrainStep::KeepReading);
    assert_eq!(drain_decision(ReadEvent::Failed), DrainStep::Abort);
}

#[test]
fn only_a_denied_request_falls_back_to_the_login_shell() {
    assert!(shell_exec_fallback(CHANNEL_REQUEST_DENIED));
    assert!(!shell_exec_fallback(0));
    assert!(!shell_exec_fallback(-1));
}
