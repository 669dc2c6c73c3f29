use console_mux::server::{
    run_server, Action, ChildStatus, Event, ServerState, SignalCodes, SignalInfo, Source,
    LISTENER_TOKEN, SIGNALED_STATUS, SIGNAL_TOKEN,
};

fn codes() -> SignalCodes {
    SignalCodes { sigchld: 17, exited: 1, killed: 2, dumped: 3 }
}

fn notification(code: i32, status: i32) -> Event {
    Event::Signal(Some(SignalInfo { signo: 17, code, status }))
}

#[test]
fn platform_codes_are_those_of_the_system() {
    let codes = SignalCodes::platform();
    assert_eq!(codes.sigchld, libc::SIGCHLD as u32);
    assert_eq!(codes.sigchld, nix::sys::signal::Signal::SIGCHLD as u32);
    assert_eq!(codes.exited, libc::CLD_EXITED);
    assert_eq!(codes.killed, libc::CLD_KILLED);
    assert_eq!(codes.dumped, libc::CLD_DUMPED);
}

#[test]
fn platform_codes_tell_the_ends_apart() {
    let codes = SignalCodes::platform();
    assert_ne!(codes.exited, codes.killed);
    assert_ne!(codes.exited, codes.dumped);
    assert_ne!(codes.killed, codes.dumped);
}

#[test]
fn sentinel_and_tokens_have_their_values() {
    assert_eq!(SIGNALED_STATUS, -1);
    assert_eq!(SIGNAL_TOKEN, 0);
    assert_eq!(LISTENER_TOKEN, 1);
}

#[test]
fn exit_status_of_a_normal_exit_is_the_code() {
    let info = SignalInfo { signo: 17, code: 1, status: 7 };
    assert_eq!(codes().exit_status(&info), Some(7));
}

#[test]
fn exit_status_of_exit_zero_is_zero() {
    let info = SignalInfo { signo: 17, code: 1, status: 0 };
    assert_eq!(codes().exit_status(&info), Some(0));
}

#[test]
fn exit_status_of_a_kill_is_the_sentinel() {
    let info = SignalInfo { signo: 17, code: 2, status: 9 };
    assert_eq!(codes().exit_status(&info), Some(-1));
}

#[test]
fn exit_status_of_a_core_dump_is_the_sentinel() {
    let info = SignalInfo { signo: 17, code: 3, status: 11 };
    assert_eq!(codes().exit_status(&info), Some(-1));
}

#[test]
fn exit_status_does_not_depend_on_the_signal_that_killed() {
    for signal in [1, 2, 9, 11, 15] {
        let info = SignalInfo { signo: 17, code: 2, status: signal };
        assert_eq!(codes().exit_status(&info), Some(SIGNALED_STATUS));
    }
}

#[test]
fn exit_status_ignores_a_stopped_child() {
    let info = SignalInfo { signo: 17, code: 5, status: 19 };
    assert_eq!(codes().exit_status(&info), None);
}

#[test]
fn exit_status_ignores_another_signal() {
    let info = SignalInfo { signo: 10, code: 1, status: 7 };
    assert_eq!(codes().exit_status(&info), None);
}

#[test]
fn exit_status_with_the_platform_codes() {
    let codes = SignalCodes::platform();
    let exited = SignalInfo { signo: libc::SIGCHLD as u32, code: libc::CLD_EXITED, status: 7 };
    let killed = SignalInfo { signo: libc::SIGCHLD as u32, code: libc::CLD_KILLED, status: 9 };
    let stopped = SignalInfo { signo: libc::SIGCHLD as u32, code: libc::CLD_STOPPED, status: 19 };
    assert_eq!(codes.exit_status(&exited), Some(7));
    assert_eq!(codes.exit_status(&killed), Some(-1));
    assert_eq!(codes.exit_status(&stopped), None);
}

#[test]
fn token_of_each_source() {
    assert_eq!(Source::Signal.token(), 0);
    assert_eq!(Source::Listener.token(), 1);
}

#[test]
fn source_of_each_token() {
    assert_eq!(Source::from_token(0), Some(Source::Signal));
    assert_eq!(Source::from_token(1), Some(Source::Listener));
    assert_eq!(Source::from_token(2), None);
    assert_eq!(Source::from_token(u64::MAX), None);
}

#[test]
fn start_with_a_running_child_waits() {
    assert_eq!(ServerState::start(ChildStatus::StillAlive), (ServerState::Running, Action::Wait));
}

#[test]
fn start_with_an_exited_child_skips_the_loop() {
    assert_eq!(
        ServerState::start(ChildStatus::Exited(3)),
        (ServerState::ShuttingDown(3), Action::Drain(3))
    );
}

#[test]
fn start_with_a_signaled_child_reports_the_sentinel() {
    assert_eq!(
        ServerState::start(ChildStatus::Signaled),
        (ServerState::ShuttingDown(-1), Action::Drain(-1))
    );
}

#[test]
fn status_is_known_only_after_shutdown() {
    assert_eq!(ServerState::Running.status(), None);
    assert_eq!(ServerState::ShuttingDown(5).status(), Some(5));
}

#[test]
fn step_on_listener_readiness_accepts_one() {
    let r = ServerState::Running.step(&codes(), Event::Ready(Source::Listener));
    assert_eq!(r, (ServerState::Running, Action::Accept));
}

#[test]
fn step_on_signal_readiness_reads_the_payload() {
    let r = ServerState::Running.step(&codes(), Event::Ready(Source::Signal));
    assert_eq!(r, (ServerState::Running, Action::ReadSignal));
}

#[test]
fn step_after_an_accept_waits_again() {
    let r = ServerState::Running.step(&codes(), Event::Accepted);
    assert_eq!(r, (ServerState::Running, Action::Wait));
}

#[test]
fn step_on_an_idle_wait_waits_again() {
    let r = ServerState::Running.step(&codes(), Event::Idle);
    assert_eq!(r, (ServerState::Running, Action::Wait));
}

#[test]
fn step_on_an_empty_payload_waits_again() {
    let r = ServerState::Running.step(&codes(), Event::Signal(None));
    assert_eq!(r, (ServerState::Running, Action::Wait));
}

#[test]
fn step_on_an_exit_shuts_down_with_the_code() {
    let r = ServerState::Running.step(&codes(), notification(1, 7));
    assert_eq!(r, (ServerState::ShuttingDown(7), Action::Drain(7)));
}

#[test]
fn step_on_a_kill_shuts_down_with_the_sentinel() {
    let r = ServerState::Running.step(&codes(), notification(2, 9));
    assert_eq!(r, (ServerState::ShuttingDown(-1), Action::Drain(-1)));
}

#[test]
fn step_on_another_payload_keeps_running() {
    let r = ServerState::Running.step(&codes(), notification(6, 18));
    assert_eq!(r, (ServerState::Running, Action::Wait));
}

#[test]
fn step_after_shutdown_never_accepts() {
    let state = ServerState::ShuttingDown(4);
    let events = [
        Event::Idle,
        Event::Ready(Source::Listener),
        Event::Ready(Source::Signal),
        Event::Accepted,
        Event::Signal(None),
        notification(1, 9),
        notification(2, 9),
    ];
    for event in events {
        assert_eq!(state.step(&codes(), event), (ServerState::ShuttingDown(4), Action::Drain(4)));
    }
}

#[test]
fn run_server_reports_exit_code_seven() {
    let events = vec![
        Event::Ready(Source::Listener),
        Event::Accepted,
        Event::Ready(Source::Signal),
        notification(1, 7),
    ];
    assert_eq!(run_server(&codes(), ChildStatus::StillAlive, &events), Some(7));
}

#[test]
fn run_server_reports_the_sentinel_for_sigkill() {
    let events = vec![Event::Ready(Source::Signal), notification(2, 9)];
    assert_eq!(run_server(&codes(), ChildStatus::StillAlive, &events), Some(-1));
}

#[test]
fn run_server_reports_a_child_that_was_gone_at_the_start() {
    let events = vec![Event::Ready(Source::Signal), notification(1, 7)];
    assert_eq!(run_server(&codes(), ChildStatus::Exited(3), &events), Some(3));
    assert_eq!(run_server(&codes(), ChildStatus::Signaled, &events), Some(-1));
    assert_eq!(run_server(&codes(), ChildStatus::Exited(0), &Vec::new()), Some(0));
}

#[test]
fn run_server_keeps_the_first_status() {
    let events = vec![notification(1, 7), notification(1, 8), notification(2, 9)];
    assert_eq!(run_server(&codes(), ChildStatus::StillAlive, &events), Some(7));
}

#[test]
fn run_server_skips_payloads_that_settle_nothing() {
    let events = vec![
        Event::Signal(None),
        notification(5, 19),
        Event::Signal(Some(SignalInfo { signo: 10, code: 1, status: 1 })),
        notification(6, 18),
        notification(1, 42),
    ];
    assert_eq!(run_server(&codes(), ChildStatus::StillAlive, &events), Some(42));
}

#[test]
fn run_server_without_a_notification_is_still_running() {
    let events = vec![Event::Ready(Source::Listener), Event::Accepted, Event::Idle];
    assert_eq!(run_server(&codes(), ChildStatus::StillAlive, &events), None);
    assert_eq!(run_server(&codes(), ChildStatus::StillAlive, &Vec::new()), None);
}

#[test]
fn run_server_agrees_with_stepping() {
    let events = vec![
        Event::Idle,
        Event::Ready(Source::Listener),
        Event::Accepted,
        Event::Ready(Source::Signal),
        notification(1, 12),
        Event::Ready(Source::Listener),
    ];
    let (mut state, _) = ServerState::start(ChildStatus::StillAlive);
    for event in events.iter() {
        state = state.step(&codes(), *event).0;
    }
    assert_eq!(state.status(), run_server(&codes(), ChildStatus::StillAlive, &events));
    assert_eq!(state.status(), Some(12));
}

#[test]
fn run_server_reports_negative_and_large_codes_unchanged() {
    let events = vec![notification(1, 255)];
    assert_eq!(run_server(&codes(), ChildStatus::StillAlive, &events), Some(255));
    let events = vec![notification(1, i32::MIN)];
    assert_eq!(run_server(&codes(), ChildStatus::StillAlive, &events), Some(i32::MIN));
}
