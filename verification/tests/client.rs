use hostap_monitor::client::{payload_is_marked, HostAPMonitor, ProtocolError};

/// Runs the attach handshake against a simulated daemon that
/// confirms with `OK\n`.
fn attached_client() -> HostAPMonitor {
    let mut m = HostAPMonitor::connect();
    m.begin_request().unwrap();
    let reply = m.handle_payload(String::from("OK\n")).expect("unmarked payload is the reply");
    m.finish_attach(&reply).unwrap();
    assert!(m.is_attached());
    m
}

#[test]
fn second_request_fails_already_pending() {
    let mut m = HostAPMonitor::connect();
    m.begin_request().unwrap();
    assert_eq!(m.begin_request(), Err(ProtocolError::AlreadyPending));
    let _ = m.handle_payload(String::from("PONG\n")).unwrap();
    assert_eq!(m.begin_request(), Ok(()));
}

#[test]
fn request_timeout_resolves_the_request() {
    let mut m = HostAPMonitor::connect();
    m.begin_request().unwrap();
    assert_eq!(m.request_timed_out(), ProtocolError::Timeout);
    assert_eq!(m.begin_request(), Ok(()));
}

#[test]
fn notifications_during_request_kept_in_order() {
    let mut m = attached_client();
    m.begin_request().unwrap();
    assert_eq!(m.handle_payload(String::from("<2>EVT one")), None);
    assert_eq!(m.handle_payload(String::from("<2>EVT two")), None);
    let reply = m.handle_payload(String::from("PONG\n")).expect("reply delivered last");
    assert_eq!(reply, "PONG\n");
    assert_eq!(m.poll_event(None), Ok(Some(String::from("<2>EVT one"))));
    assert_eq!(m.poll_event(None), Ok(Some(String::from("<2>EVT two"))));
    assert_eq!(m.poll_event(None), Ok(None));
}

#[test]
fn ping_succeeds_on_pong() {
    let mut m = HostAPMonitor::connect();
    m.begin_request().unwrap();
    let reply = m.handle_payload(String::from("PONG\n")).unwrap();
    assert_eq!(HostAPMonitor::ping(&reply), Ok(()));
}

#[test]
fn ping_rejects_other_replies() {
    assert_eq!(HostAPMonitor::ping("FAIL\n"), Err(ProtocolError::UnexpectedReply));
    assert_eq!(HostAPMonitor::ping(""), Err(ProtocolError::UnexpectedReply));
}

#[test]
fn attach_rejects_unexpected_reply() {
    let mut m = HostAPMonitor::connect();
    m.begin_request().unwrap();
    let reply = m.handle_payload(String::from("FAIL\n")).unwrap();
    assert_eq!(m.finish_attach(&reply), Err(ProtocolError::UnexpectedReply));
    assert!(!m.is_attached());
}

#[test]
fn detach_requires_attachment() {
    let mut m = HostAPMonitor::connect();
    assert_eq!(m.begin_detach(), Err(ProtocolError::NotAttached));
}

#[test]
fn poll_event_requires_attachment() {
    let mut m = HostAPMonitor::connect();
    assert_eq!(m.poll_event(None), Err(ProtocolError::NotAttached));
}

#[test]
fn subscription_is_reestablishable() {
    let mut m = attached_client();

    m.begin_detach().unwrap();
    let reply = m.handle_payload(String::from("OK\n")).unwrap();
    m.finish_detach(&reply).unwrap();
    assert!(!m.is_attached());

    m.begin_request().unwrap();
    let reply = m.handle_payload(String::from("OK\n")).unwrap();
    m.finish_attach(&reply).unwrap();
    assert!(m.is_attached());
}

#[test]
fn poll_event_passes_received_notification_through() {
    let mut m = attached_client();
    let got = m.poll_event(Some(String::from("<2>AP-STA-CONNECTED 02:00:00:00:00:01")));
    assert_eq!(got, Ok(Some(String::from("<2>AP-STA-CONNECTED 02:00:00:00:00:01"))));
    assert_eq!(m.poll_event(None), Ok(None));
}

#[test]
fn marker_classification() {
    assert!(payload_is_marked("<2>AP-STA-CONNECTED 02:00:00:00:00:01"));
    assert!(payload_is_marked("<13>X"));
    assert!(!payload_is_marked("PONG\n"));
    assert!(!payload_is_marked("<>X"));
    assert!(!payload_is_marked("<2X"));
    assert!(!payload_is_marked(""));
}
