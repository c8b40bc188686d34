use eq3_max_cube_rs::error::CodecError;
use eq3_max_cube_rs::messages::Device;
use eq3_max_cube_rs::session::{parse_ack, Session};

const META: &str = "M:00,01,VgIFAQdCZWRyb29tGuXTAgtMaXZpbmcgcm9vbRrqAQMHS2l0Y2hlbhrnLgQGT2ZmaWNlGun/BQhCYXRocm9vbRrlGAUBGuXTT0VRMjEyMTY0NAdCZWRyb29tAQEa6gFPRVEyMTIyMzU2C0xpdmluZyByb29tAgEa5y5PRVEyMTIxNDc2B0tpdGNoZW4DARrp/09FUTIxMjIzNTMGT2ZmaWNlBAEa5RhPRVEyMTIxNzc0CEJhdGhyb29tBQE=";
const STATUS: &str =
    "L:CxrnLgkSGQAmAM0ACxrlGAkSGQAKAAAACxrqAQkSGQApAOMACxrp/wkSGRYnAMoACxrl0wkSmQAoAOAA";

#[test]
fn handshake_consumes_m_then_l() {
    let mut session = Session::new();
    assert!(!session.handshake_complete());
    assert_eq!(session.end_of_stream().unwrap_err(), CodecError::HandshakeIncomplete);

    // The opening burst carries lines of other tags first; they are
    // discarded.
    session.process_line("H:KEQ0523864,097f2c,0113\r\n").unwrap();
    session.process_line("C:03f25d,7QPyXQATAf9LRVEwNTQ0MjQy\r\n").unwrap();
    session.process_line("F:ntp.homematic.com,ntp.homematic.com\r\n").unwrap();
    assert!(!session.handshake_complete());

    session.process_line(&format!("{META}\r\n")).unwrap();
    assert!(!session.handshake_complete());
    assert_eq!(session.rooms.len(), 5);
    assert_eq!(session.devices.len(), 5);

    session.process_line(&format!("{STATUS}\r\n")).unwrap();
    assert!(session.handshake_complete());
    session.end_of_stream().unwrap();

    match session.devices.get(2).unwrap() {
        Device::HeaterThermostat(ts) => {
            assert_eq!(ts.name.as_slice(), b"Kitchen");
            assert_eq!(ts.temperature_set as f64 / 2.0, 19.0);
        }
        _ => panic!("Wrong device type!"),
    }

    // After the handshake the sequencer ignores further lines.
    session.process_line("M:not even well-formed").unwrap();
    assert_eq!(session.rooms.len(), 5);
}

#[test]
fn later_metadata_replaces_inventory_wholesale() {
    let mut session = Session::new();
    session.process_line(META).unwrap();
    assert_eq!(session.rooms.len(), 5);

    // A shorter metadata message fully supersedes the prior lists.
    let empty_meta = "M:00,01,VgIAAA=="; // header, no rooms, no devices
    session.process_line(empty_meta).unwrap();
    assert_eq!(session.rooms.len(), 0);
    assert_eq!(session.devices.len(), 0);
}

#[test]
fn handshake_propagates_decoder_errors() {
    let mut session = Session::new();
    assert_eq!(
        session.process_line("M:01,01,VgIEAQ==\r\n").unwrap_err(),
        CodecError::UnsupportedChunking
    );
    assert!(!session.handshake_complete());
}

#[test]
fn set_temperature_command_uses_inventory_room() {
    let mut session = Session::new();
    session.process_line(META).unwrap();
    session.process_line(STATUS).unwrap();

    // Bedroom thermostat: radio address 1762771, room 1, 23.0 degrees.
    let line = session.set_temperature_command(1762771, 46).unwrap();
    assert_eq!(line, "s:AARAAAAAGuXTAW4=\r\n");

    assert_eq!(
        session.set_temperature_command(0x123456, 46).unwrap_err(),
        CodecError::DeviceNotFound
    );
}

#[test]
fn ack_codes() {
    parse_ack("S:00,0,31").unwrap();
    parse_ack("S:00,000,31").unwrap();
    assert_eq!(parse_ack("S:00,1,31").unwrap_err(), CodecError::CommandRejected);
    assert_eq!(parse_ack("S:00,256,31").unwrap_err(), CodecError::CommandRejected);
    assert_eq!(parse_ack("S:00,x,31").unwrap_err(), CodecError::CommandRejected);
    assert_eq!(parse_ack("S:00,,31").unwrap_err(), CodecError::CommandRejected);
    assert_eq!(parse_ack("no separators").unwrap_err(), CodecError::CommandRejected);
    // With only two fields the terminator sticks to the code and the
    // acknowledgement does not parse.
    assert_eq!(parse_ack("S:00,0\r\n").unwrap_err(), CodecError::CommandRejected);
}
