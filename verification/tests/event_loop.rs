use hostap_monitor::client::HostAPMonitor;
use hostap_monitor::event_loop::{loop_step, LoopAction, LoopState, Wakeup};

#[test]
fn connect_ping_then_one_station_event() {
    // The daemon is simulated by handing in the payloads it would send.
    let mut m = HostAPMonitor::connect();

    // PING -> PONG\n
    m.begin_request().unwrap();
    let reply = m.handle_payload(String::from("PONG\n")).unwrap();
    assert_eq!(HostAPMonitor::ping(&reply), Ok(()));

    // ATTACH -> OK\n
    m.begin_request().unwrap();
    let reply = m.handle_payload(String::from("OK\n")).unwrap();
    m.finish_attach(&reply).unwrap();

    // One marked station notification arrives.
    let polled = m
        .poll_event(Some(String::from("<2>AP-STA-CONNECTED 02:00:00:00:00:01")))
        .unwrap()
        .unwrap();
    let (state, action) = loop_step(LoopState::Running, Wakeup::Tick { payload: Some(polled) });
    assert_eq!(state, LoopState::Running);
    assert_eq!(action, LoopAction::Query { command: String::from("STA 02:00:00:00:00:01") });

    // Exactly once: nothing else is pending.
    assert_eq!(m.poll_event(None), Ok(None));
    let (state, action) = loop_step(LoopState::Running, Wakeup::Tick { payload: None });
    assert_eq!(state, LoopState::Running);
    assert_eq!(action, LoopAction::Idle);
}

#[test]
fn malformed_event_is_skipped_and_loop_keeps_running() {
    let (state, action) = loop_step(
        LoopState::Running,
        Wakeup::Tick { payload: Some(String::from("<2>AP-STA-CONNECTED")) },
    );
    assert_eq!(state, LoopState::Running);
    assert_eq!(action, LoopAction::Idle);

    let (state, action) = loop_step(
        LoopState::Running,
        Wakeup::Tick { payload: Some(String::from("<2>AP-STA-CONNECTED nonsense")) },
    );
    assert_eq!(state, LoopState::Running);
    assert_eq!(action, LoopAction::Idle);
}

#[test]
fn other_events_leave_the_loop_idle() {
    let (state, action) = loop_step(
        LoopState::Running,
        Wakeup::Tick { payload: Some(String::from("AP-STA-DISCONNECTED 02:00:00:00:00:01")) },
    );
    assert_eq!(state, LoopState::Running);
    assert_eq!(action, LoopAction::Idle);
}

#[test]
fn cancellation_stops_and_detaches() {
    let (state, action) = loop_step(LoopState::Running, Wakeup::Cancel);
    assert_eq!(state, LoopState::Stopped);
    assert_eq!(action, LoopAction::Detach);

    let (state, action) = loop_step(LoopState::Stopped, Wakeup::Tick { payload: None });
    assert_eq!(state, LoopState::Stopped);
    assert_eq!(action, LoopAction::Idle);
}
