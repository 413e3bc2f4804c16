use hostap_monitor::events::{Event, ParseError};
use hostap_monitor::mac::MacAddr;
use hostap_monitor::client::station_info_command;

fn mac(s: &str) -> MacAddr {
    MacAddr::parse_str(s).expect("valid address")
}

#[test]
fn parse_connected() {
    let ev = Event::from_string("AP-STA-CONNECTED 02:00:00:00:00:01").unwrap();
    assert_eq!(ev, Event::StationConnected { mac: mac("02:00:00:00:00:01") });
}

#[test]
fn parse_disconnected() {
    let ev = Event::from_string("AP-STA-DISCONNECTED 02:00:00:00:00:01").unwrap();
    assert_eq!(ev, Event::StationDisconnected { mac: mac("02:00:00:00:00:01") });
}

#[test]
fn parse_address_case_insensitive_and_hyphenated() {
    let ev = Event::from_string("AP-STA-CONNECTED AA-bb-CC-dd-EE-ff").unwrap();
    assert_eq!(ev, Event::StationConnected { mac: mac("aa:bb:cc:dd:ee:ff") });
}

#[test]
fn parse_marker_stripping_idempotent_in_effect() {
    let marked = Event::from_string("<3>AP-STA-CONNECTED 02:00:00:00:00:01");
    let plain = Event::from_string("AP-STA-CONNECTED 02:00:00:00:00:01");
    assert_eq!(marked, plain);
    let marked = Event::from_string("<3>CTRL-EVENT-TERMINATING one two");
    let plain = Event::from_string("CTRL-EVENT-TERMINATING one two");
    assert_eq!(marked, plain);
}

#[test]
fn parse_other_keeps_identifier_and_arguments() {
    let ev = Event::from_string("CTRL-EVENT-TERMINATING one two").unwrap();
    assert_eq!(
        ev,
        Event::Other {
            ident: String::from("CTRL-EVENT-TERMINATING"),
            args: vec![String::from("one"), String::from("two")],
        }
    );
}

#[test]
fn parse_other_without_arguments() {
    let ev = Event::from_string("WPS-TIMEOUT").unwrap();
    assert_eq!(ev, Event::Other { ident: String::from("WPS-TIMEOUT"), args: vec![] });
}

#[test]
fn parse_empty_line_fails() {
    assert_eq!(Event::from_string(""), Err(ParseError::EmptyIdentifier));
    assert_eq!(Event::from_string("<3>"), Err(ParseError::EmptyIdentifier));
}

#[test]
fn parse_leading_space_fails() {
    assert_eq!(Event::from_string(" AP-STA-CONNECTED"), Err(ParseError::EmptyIdentifier));
    assert_eq!(Event::from_string("   "), Err(ParseError::EmptyIdentifier));
}

#[test]
fn parse_malformed_address_fails() {
    assert_eq!(
        Event::from_string("AP-STA-CONNECTED xx:yy:zz:00:00:01"),
        Err(ParseError::InvalidAddress)
    );
    assert_eq!(Event::from_string("AP-STA-CONNECTED 02:00"), Err(ParseError::InvalidAddress));
    assert_eq!(
        Event::from_string("AP-STA-CONNECTED 02-00-00-00-00-011"),
        Err(ParseError::InvalidAddress)
    );
}

#[test]
fn parse_recognized_identifier_without_address_is_other() {
    let ev = Event::from_string("AP-STA-CONNECTED").unwrap();
    assert_eq!(ev, Event::Other { ident: String::from("AP-STA-CONNECTED"), args: vec![] });
    let ev = Event::from_string("<2>AP-STA-CONNECTED").unwrap();
    assert_eq!(ev, Event::Other { ident: String::from("AP-STA-CONNECTED"), args: vec![] });
}

#[test]
fn parse_unclosed_marker_is_taken_whole() {
    let ev = Event::from_string("<3AP-STA-CONNECTED").unwrap();
    assert_eq!(ev, Event::Other { ident: String::from("<3AP-STA-CONNECTED"), args: vec![] });
}

#[test]
fn mac_rejects_wrong_shapes() {
    assert!(MacAddr::parse_str("").is_none());
    assert!(MacAddr::parse_str("02:00:00:00:00").is_none());
    assert!(MacAddr::parse_str("02:00:00:00:00:0g").is_none());
    assert!(MacAddr::parse_str("02.00.00.00.00.01").is_none());
    assert!(MacAddr::parse_str("02:00:00:00:00:001").is_none());
}

#[test]
fn mac_textual_round_trip() {
    let m = mac("A1-B2-C3-D4-E5-F6");
    assert_eq!(m.to_hex_string(), "a1:b2:c3:d4:e5:f6");
    let again = mac(&m.to_hex_string());
    assert_eq!(m, again);
}

#[test]
fn station_info_command_format() {
    let m = mac("02:00:00:00:00:01");
    assert_eq!(station_info_command(&m), "STA 02:00:00:00:00:01");
}
