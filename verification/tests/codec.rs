use base64::Engine;

use eq3_max_cube_rs::error::CodecError;
use eq3_max_cube_rs::messages::{
    from_message_l, from_message_m, from_message_n, Device, DeviceConfig, DeviceMode, Devices,
    PairingConfig, Rooms,
};
use eq3_max_cube_rs::reader::Reader;

fn b64(data: &[u8]) -> String {
    base64::engine::general_purpose::STANDARD.encode(data)
}

#[test]
fn test_message_m_0() {
    let data = "M:00,01,VgIEAQNCYWQK7WkCBEJ1cm8K8wADCldvaG56aW1tZXIK8wwEDFNjaGxhZnppbW1lcgr1QAUCCu1pS0VRMDM3ODA0MAZIVCBCYWQBAgrzAEtFUTAzNzk1NDQHSFQgQnVybwICCvMMS0VRMDM3OTU1NhlIVCBXb2huemltbWVyIEJhbGtvbnNlaXRlAwIK83lLRVEwMzc5NjY1GkhUIFdvaG56aW1tZXIgRmVuc3RlcnNlaXRlAwIK9UBLRVEwMzgwMTIwD0hUIFNjaGxhZnppbW1lcgQB";

    let (rooms, _) = from_message_m(&data).unwrap();

    assert_eq!(rooms.len(), 4);
    assert_eq!(rooms[0].name.as_slice(), b"Bad");
    assert_eq!(rooms[0].rf_address, 716137);
    assert_eq!(rooms[3].name.as_slice(), b"Schlafzimmer");
    assert_eq!(rooms[3].rf_address, 718144);
}

fn extract_message_m_1() -> (Rooms, Devices) {
    let data = "M:00,01,VgIFAQdCZWRyb29tGuXTAgtMaXZpbmcgcm9vbRrqAQMHS2l0Y2hlbhrnLgQGT2ZmaWNlGun/BQhCYXRocm9vbRrlGAUBGuXTT0VRMjEyMTY0NAdCZWRyb29tAQEa6gFPRVEyMTIyMzU2C0xpdmluZyByb29tAgEa5y5PRVEyMTIxNDc2B0tpdGNoZW4DARrp/09FUTIxMjIzNTMGT2ZmaWNlBAEa5RhPRVEyMTIxNzc0CEJhdGhyb29tBQE=";
    from_message_m(&data).unwrap()
}

#[test]
fn test_message_m_1() {
    let (rooms, devices) = extract_message_m_1();

    assert_eq!(rooms.len(), 5);
    assert_eq!(devices.len(), 5);
    match devices.get(4).unwrap() {
        Device::HeaterThermostat(st) => {
            assert_eq!(st.serial.as_slice(), b"OEQ2121774");
            assert_eq!(st.rf_address, 1762584);
            assert_eq!(st.name.as_slice(), b"Bathroom");
        }
        _ => {
            panic!("Wrong device type!");
        }
    }
}

#[test]
fn test_message_l_1() {
    let data =
        "L:CxrnLgkSGQAmAM0ACxrlGAkSGQAKAAAACxrqAQkSGQApAOMACxrp/wkSGRYnAMoACxrl0wkSmQAoAOAA";
    let (_, mut devices) = extract_message_m_1();
    from_message_l(data, &mut devices).unwrap();

    match devices.get(2).unwrap() {
        Device::HeaterThermostat(ts) => {
            assert_eq!(ts.name.as_slice(), b"Kitchen");
            assert_eq!(ts.valve_position, 0);
            assert_eq!(ts.temperature_set as f64 / 2.0, 19.0);
        }
        _ => panic!("Wrong device type!"),
    }
}

#[test]
fn test_set_temperature() {
    let (_, d) = extract_message_m_1();
    println!("{:?}", d);

    let s = DeviceConfig::new()
        .set_address(1762771)
        .set_room_id(1)
        .set_mode(DeviceMode::Manual)
        .set_temperature((23.0_f64 * 2.0) as u8)
        .build();
    assert_eq!(s, "s:AARAAAAAGuXTAW4=\r\n");
}

#[test]
fn message_m_wrong_tag() {
    assert_eq!(
        from_message_m("X:00,01,Vg==").unwrap_err(),
        CodecError::UnexpectedMessageTag
    );
    assert_eq!(from_message_m("").unwrap_err(), CodecError::UnexpectedMessageTag);
    assert_eq!(from_message_m("M").unwrap_err(), CodecError::UnexpectedMessageTag);
}

#[test]
fn message_m_chunk_index_not_sentinel() {
    assert_eq!(
        from_message_m("M:01,01,VgIEAQ==").unwrap_err(),
        CodecError::UnsupportedChunking
    );
    assert_eq!(from_message_m("M:0,01,VgIEAQ==").unwrap_err(), CodecError::UnsupportedChunking);
}

#[test]
fn message_m_chunk_count_not_sentinel() {
    assert_eq!(
        from_message_m("M:00,02,VgIEAQ==").unwrap_err(),
        CodecError::UnsupportedChunking
    );
}

#[test]
fn message_m_missing_fields() {
    assert_eq!(from_message_m("M:00").unwrap_err(), CodecError::MalformedMessage);
    assert_eq!(from_message_m("M:00,01").unwrap_err(), CodecError::MalformedMessage);
}

#[test]
fn message_m_payload_not_base64() {
    assert_eq!(from_message_m("M:00,01,!!!").unwrap_err(), CodecError::MalformedMessage);
}

#[test]
fn message_m_truncated_serial() {
    // Two header bytes, no rooms, one device record cut short inside its
    // ten-byte serial.
    let mut payload: Vec<u8> = vec![0x56, 0x02, 0x00, 0x01];
    payload.push(0x01); // device type: heater thermostat
    payload.extend_from_slice(&[0x1a, 0xe5, 0xd3]); // radio address
    payload.extend_from_slice(b"OEQ21"); // serial cut short
    let line = format!("M:00,01,{}", b64(&payload));
    assert_eq!(from_message_m(&line).unwrap_err(), CodecError::TruncatedBuffer);
}

#[test]
fn message_m_truncated_anywhere() {
    // Re-derive the valid payload from the known-good fixture, then cut it.
    let good = "M:00,01,VgIFAQdCZWRyb29tGuXTAgtMaXZpbmcgcm9vbRrqAQMHS2l0Y2hlbhrnLgQGT2ZmaWNlGun/BQhCYXRocm9vbRrlGAUBGuXTT0VRMjEyMTY0NAdCZWRyb29tAQEa6gFPRVEyMTIyMzU2C0xpdmluZyByb29tAgEa5y5PRVEyMTIxNDc2B0tpdGNoZW4DARrp/09FUTIxMjIzNTMGT2ZmaWNlBAEa5RhPRVEyMTIxNzc0CEJhdGhyb29tBQE=";
    let payload = base64::engine::general_purpose::STANDARD
        .decode(good.split(',').last().unwrap())
        .unwrap();
    // The fixture carries one trailing byte past the last record, which
    // decoding ignores; every cut below lands strictly inside a record or a
    // count field.
    for cut in [payload.len() - 2, payload.len() - 7, payload.len() - 19, 3, 40] {
        let line = format!("M:00,01,{}", b64(&payload[..cut]));
        assert_eq!(
            from_message_m(&line).unwrap_err(),
            CodecError::TruncatedBuffer,
            "cut at {cut}"
        );
    }
}

#[test]
fn message_m_unsupported_type_keeps_slot() {
    // One room, two devices: an unsupported wall switch (type 99), then a
    // heater thermostat. The unsupported record still fills its slot and the
    // rest of the message decodes.
    let mut payload: Vec<u8> = vec![0x56, 0x02];
    payload.push(0x01); // one room
    payload.extend_from_slice(&[0x07, 0x04, b'H', b'a', b'l', b'l', 0x0a, 0xbb, 0xcc]);
    payload.push(0x02); // two devices
    payload.push(99); // unsupported device type
    payload.extend_from_slice(&[0x00, 0x11, 0x22]);
    payload.extend_from_slice(b"AAA0000001");
    payload.extend_from_slice(&[0x02, b'W', b'S', 0x07]);
    payload.push(0x01); // heater thermostat
    payload.extend_from_slice(&[0x0a, 0xbb, 0xcc]);
    payload.extend_from_slice(b"KEQ0000001");
    payload.extend_from_slice(&[0x04, b'H', b'a', b'l', b'l', 0x07]);
    let line = format!("M:00,01,{}", b64(&payload));
    let (rooms, devices) = from_message_m(&line).unwrap();
    assert_eq!(rooms.len(), 1);
    assert_eq!(devices.len(), 2);
    assert!(matches!(devices[0], Device::NotSupported));
    match &devices[1] {
        Device::HeaterThermostat(ts) => {
            assert_eq!(ts.rf_address, 0x0abbcc);
            assert_eq!(ts.serial.as_slice(), b"KEQ0000001");
            assert_eq!(ts.name.as_slice(), b"Hall");
            assert_eq!(ts.room_id, 7);
        }
        _ => panic!("Wrong device type!"),
    }
}

#[test]
fn message_l_wrong_tag() {
    let mut devices: Devices = Vec::new();
    assert_eq!(
        from_message_l("M:00", &mut devices).unwrap_err(),
        CodecError::UnexpectedMessageTag
    );
}

#[test]
fn message_l_empty_payload() {
    let (_, mut devices) = extract_message_m_1();
    from_message_l("L:", &mut devices).unwrap();
    assert_eq!(devices.len(), 5);
}

#[test]
fn message_l_bad_record_length() {
    let (_, mut devices) = extract_message_m_1();
    // A record announcing five bytes: too short for the fixed fields.
    let line = format!("L:{}", b64(&[0x05, 0x1a, 0xe5, 0xd3, 0x09, 0x12]));
    assert_eq!(from_message_l(&line, &mut devices).unwrap_err(), CodecError::TruncatedBuffer);
    // A record announcing seven bytes: extended fields cut short.
    let line = format!("L:{}", b64(&[0x07, 0x1a, 0xe5, 0xd3, 0x09, 0x12, 0x19, 0x00]));
    assert_eq!(from_message_l(&line, &mut devices).unwrap_err(), CodecError::TruncatedBuffer);
    // A record announcing more bytes than the payload holds.
    let line = format!("L:{}", b64(&[0x0b, 0x1a, 0xe5, 0xd3, 0x09, 0x12]));
    assert_eq!(from_message_l(&line, &mut devices).unwrap_err(), CodecError::TruncatedBuffer);
}

#[test]
fn message_l_unknown_address_skipped() {
    let (_, mut devices) = extract_message_m_1();
    // A six-byte record for a radio address not in the inventory.
    let line = format!("L:{}", b64(&[0x06, 0x99, 0x88, 0x77, 0x00, 0x12, 0x19]));
    from_message_l(&line, &mut devices).unwrap();
    for d in &devices {
        if let Device::HeaterThermostat(ts) = d {
            assert!(!ts.battery_low);
        }
    }
}

#[test]
fn message_l_updates_flags() {
    let (_, mut devices) = extract_message_m_1();
    // Kitchen (0x1ae72e): battery low (0x0080) and valid (0x1000) set, with
    // extended fields: valve 42 percent, set-point 21.5 degrees, measured
    // 20.7 degrees.
    let line = format!(
        "L:{}",
        b64(&[0x0b, 0x1a, 0xe7, 0x2e, 0x09, 0x10, 0x80, 42, 43, 0x00, 0xcf, 0x00])
    );
    from_message_l(&line, &mut devices).unwrap();
    match devices.get(2).unwrap() {
        Device::HeaterThermostat(ts) => {
            assert!(ts.battery_low);
            assert!(!ts.error);
            assert!(ts.valid);
            assert_eq!(ts.valve_position, 42);
            assert_eq!(ts.temperature_set as f64 / 2.0, 21.5);
            assert_eq!(ts.temperature_measured as f64 / 10.0, 20.7);
        }
        _ => panic!("Wrong device type!"),
    }
}

#[test]
fn message_n_decodes_announcement() {
    let mut payload: Vec<u8> = vec![0x01, 0x1a, 0xe5, 0xd3];
    payload.extend_from_slice(b"KEQ0565026!");
    let line = format!("N:{}", b64(&payload));
    match from_message_n(&line).unwrap() {
        Device::HeaterThermostat(ts) => {
            assert_eq!(ts.rf_address, 0x1ae5d3);
            assert_eq!(ts.serial.as_slice(), b"KEQ0565026!");
            assert_eq!(ts.room_id, 0);
            assert!(!ts.valid);
        }
        _ => panic!("Wrong device type!"),
    }
}

#[test]
fn message_n_errors() {
    assert_eq!(from_message_n("L:AA==").unwrap_err(), CodecError::UnexpectedMessageTag);
    // Shorter than the fixed 15-byte layout.
    let line = format!("N:{}", b64(&[0x01, 0x1a, 0xe5, 0xd3]));
    assert_eq!(from_message_n(&line).unwrap_err(), CodecError::MalformedMessage);
    // Not base64.
    assert_eq!(from_message_n("N:!!").unwrap_err(), CodecError::MalformedMessage);
    // A device type this client does not support.
    let mut payload: Vec<u8> = vec![0x02, 0x1a, 0xe5, 0xd3];
    payload.extend_from_slice(b"KEQ0565026!");
    let line = format!("N:{}", b64(&payload));
    assert_eq!(from_message_n(&line).unwrap_err(), CodecError::UnsupportedDeviceType);
}

#[test]
fn pairing_line_is_hex_with_clamp() {
    assert_eq!(PairingConfig::new(60).build(), "n:003c\r\n");
    assert_eq!(PairingConfig::new(0).build(), "n:0000\r\n");
    assert_eq!(PairingConfig::new(0xffff).build(), "n:ffff\r\n");
    // Beyond 16 bits the timeout is clamped.
    assert_eq!(PairingConfig::new(70000).build(), "n:ffff\r\n");
    assert_eq!(PairingConfig::new(u64::MAX).build(), "n:ffff\r\n");
}

#[test]
fn config_line_masks_high_setpoints() {
    // 32 degrees is 64 half-degrees, one past the six-bit field: the wire
    // byte wraps to zero, the gateway's own (lossy) layout.
    let low = DeviceConfig::new()
        .set_address(1)
        .set_mode(DeviceMode::Auto)
        .set_temperature(64)
        .build();
    let zero = DeviceConfig::new()
        .set_address(1)
        .set_mode(DeviceMode::Auto)
        .set_temperature(0)
        .build();
    assert_eq!(low, zero);
}

#[test]
fn reader_pops_fields_and_reports_underrun() {
    let data: Vec<u8> = vec![0x12, 0x34, 0x56, 0x03, b'a', b'b', b'c', 0xff];
    let mut rd = Reader::new(data.as_slice());
    assert!(rd.has_remaining());
    assert_eq!(rd.take_u8().unwrap(), 0x12);
    assert_eq!(rd.take_u16_be().unwrap(), 0x3456);
    assert_eq!(rd.take_length_prefixed().unwrap().as_slice(), b"abc");
    assert_eq!(rd.take_u24_be().unwrap_err(), CodecError::TruncatedBuffer);
    assert_eq!(rd.take_bytes(1).unwrap().as_slice(), &[0xff]);
    assert_eq!(rd.take_u8().unwrap_err(), CodecError::TruncatedBuffer);

    let mut rd = Reader::new(data.as_slice());
    assert_eq!(rd.take_u24_be().unwrap(), 0x123456);
    assert_eq!(rd.take_bytes(10).unwrap_err(), CodecError::TruncatedBuffer);
}
