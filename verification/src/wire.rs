//! Mathematical model of the wire protocol.
//!
//! Everything here is specification-level: ghost views of the inventory
//! records and pure functions over byte sequences that say, bit-exactly, what
//! each decoder returns. The executable decoders in [`crate::messages`] are
//! proved to agree with these functions on every input.

use vstd::prelude::*;

use crate::b64::b64_decode_of;
use crate::error::CodecError;

verus! {

/// Ghost view of a room record.
pub ghost struct RoomV {
    pub room_id: u8,
    pub name: Seq<u8>,
    pub rf_address: u32,
}

/// Ghost view of a heater thermostat.
pub ghost struct ThermostatV {
    pub rf_address: u32,
    pub serial: Seq<u8>,
    pub name: Seq<u8>,
    pub room_id: u8,
    pub valve_position: u8,
    pub temperature_set: u8,
    pub temperature_measured: u16,
    pub battery_low: bool,
    pub error: bool,
    pub valid: bool,
}

/// Ghost view of a device slot.
pub ghost enum DeviceV {
    NotSupported,
    HeaterThermostat(ThermostatV),
}

/// One decoded status record of an `L` message.
pub ghost struct StatusRecordV {
    pub rf_address: u32,
    pub flags: u16,
    /// Present when the record length exceeds six bytes: valve position,
    /// set-point in half-degree steps, measured temperature in tenths.
    pub ext: Option<(u8, u8, u16)>,
}

/// A thermostat fresh from a metadata or pairing message: identity fields
/// populated, status fields at their zero defaults.
pub open spec fn fresh_thermostat(rf_address: u32, serial: Seq<u8>, name: Seq<u8>, room_id: u8) -> ThermostatV {
    ThermostatV {
        rf_address,
        serial,
        name,
        room_id,
        valve_position: 0,
        temperature_set: 0,
        temperature_measured: 0,
        battery_low: false,
        error: false,
        valid: false,
    }
}

/// Big-endian 16-bit integer at position `i`.
pub open spec fn u16_be(b: Seq<u8>, i: int) -> u16
    recommends
        0 <= i,
        i + 2 <= b.len(),
{
    ((b[i] as int) * 0x100 + (b[i + 1] as int)) as u16
}

/// Big-endian 24-bit integer at position `i`, widened with a zero top byte.
pub open spec fn u24_be(b: Seq<u8>, i: int) -> u32
    recommends
        0 <= i,
        i + 3 <= b.len(),
{
    ((b[i] as int) * 0x10000 + (b[i + 1] as int) * 0x100 + (b[i + 2] as int)) as u32
}

/// Index of the first occurrence of `c` at or after position `i`.
pub open spec fn find_byte(b: Seq<u8>, c: u8, i: int) -> Option<int>
    decreases b.len() - i,
{
    if i >= b.len() {
        None
    } else if b[i] == c {
        Some(i)
    } else {
        find_byte(b, c, i + 1)
    }
}

/// Index of the last occurrence of `c`.
pub open spec fn find_last_byte(b: Seq<u8>, c: u8) -> Option<int>
    decreases b.len(),
{
    if b.len() == 0 {
        None
    } else if b[b.len() - 1] == c {
        Some(b.len() - 1)
    } else {
        find_last_byte(b.take(b.len() - 1), c)
    }
}

// ---------------------------------------------------------------------------
// Metadata payload (`M` message body, after base64 decoding)
// ---------------------------------------------------------------------------

/// One room record at position `i`: room id, length-prefixed name, radio
/// address. `None` means the record runs past the end of the buffer.
pub open spec fn dec_room(b: Seq<u8>, i: int) -> Option<(RoomV, int)>
    recommends
        0 <= i,
{
    if i + 2 > b.len() {
        None
    } else {
        let n = b[i + 1] as int;
        if i + 2 + n + 3 > b.len() {
            None
        } else {
            Some(
                (
                    RoomV {
                        room_id: b[i],
                        name: b.subrange(i + 2, i + 2 + n),
                        rf_address: u24_be(b, i + 2 + n),
                    },
                    i + 2 + n + 3,
                ),
            )
        }
    }
}

/// `n` consecutive room records starting at `i`, appended to `acc`.
pub open spec fn dec_rooms(b: Seq<u8>, i: int, n: int, acc: Seq<RoomV>) -> Option<(Seq<RoomV>, int)>
    decreases n,
{
    if n <= 0 {
        Some((acc, i))
    } else {
        match dec_room(b, i) {
            None => None,
            Some((r, j)) => dec_rooms(b, j, n - 1, acc.push(r)),
        }
    }
}

/// One device record at position `i`: type, radio address, ten-byte serial,
/// length-prefixed name, room id. A type code other than 1 still occupies its
/// slot but decodes to the unsupported marker.
pub open spec fn dec_device(b: Seq<u8>, i: int) -> Option<(DeviceV, int)>
    recommends
        0 <= i,
{
    if i + 15 > b.len() {
        None
    } else {
        let n = b[i + 14] as int;
        if i + 16 + n > b.len() {
            None
        } else {
            let d = if b[i] == 1 {
                DeviceV::HeaterThermostat(
                    fresh_thermostat(
                        u24_be(b, i + 1),
                        b.subrange(i + 4, i + 14),
                        b.subrange(i + 15, i + 15 + n),
                        b[i + 15 + n],
                    ),
                )
            } else {
                DeviceV::NotSupported
            };
            Some((d, i + 16 + n))
        }
    }
}

/// `n` consecutive device records starting at `i`, appended to `acc`.
pub open spec fn dec_devices(b: Seq<u8>, i: int, n: int, acc: Seq<DeviceV>) -> Option<
    (Seq<DeviceV>, int),
>
    decreases n,
{
    if n <= 0 {
        Some((acc, i))
    } else {
        match dec_device(b, i) {
            None => None,
            Some((d, j)) => dec_devices(b, j, n - 1, acc.push(d)),
        }
    }
}

/// A whole metadata payload together with the position one past its last
/// decoded byte: two ignored header bytes, a room count and that many room
/// records, a device count and that many device records. Trailing bytes are
/// ignored.
pub open spec fn dec_meta_payload_at(b: Seq<u8>) -> Result<
    ((Seq<RoomV>, Seq<DeviceV>), int),
    CodecError,
> {
    if b.len() < 3 {
        Err(CodecError::TruncatedBuffer)
    } else {
        match dec_rooms(b, 3, b[2] as int, Seq::empty()) {
            None => Err(CodecError::TruncatedBuffer),
            Some((rooms, i)) => {
                if i + 1 > b.len() {
                    Err(CodecError::TruncatedBuffer)
                } else {
                    match dec_devices(b, i + 1, b[i] as int, Seq::empty()) {
                        None => Err(CodecError::TruncatedBuffer),
                        Some((devices, j)) => Ok(((rooms, devices), j)),
                    }
                }
            },
        }
    }
}

/// A whole metadata payload: the room and device lists it carries.
pub open spec fn dec_meta_payload(b: Seq<u8>) -> Result<(Seq<RoomV>, Seq<DeviceV>), CodecError> {
    match dec_meta_payload_at(b) {
        Ok((lists, _)) => Ok(lists),
        Err(e) => Err(e),
    }
}

/// The required first comma-separated field of a metadata line: the chunk
/// index, which must equal the sentinel `M:00`.
pub open spec fn chunk_index_sentinel() -> Seq<u8> {
    seq!['M' as u8, ':' as u8, '0' as u8, '0' as u8]
}

/// The required second field: the chunk count, which must equal `01`.
pub open spec fn chunk_count_sentinel() -> Seq<u8> {
    seq!['0' as u8, '1' as u8]
}

/// What `from_message_m` returns for a given line.
pub open spec fn spec_message_m(line: Seq<u8>) -> Result<(Seq<RoomV>, Seq<DeviceV>), CodecError> {
    if !(line.len() >= 2 && line[0] == 'M' as u8 && line[1] == ':' as u8) {
        Err(CodecError::UnexpectedMessageTag)
    } else {
        let p0_end = match find_byte(line, ',' as u8, 0) {
            Some(c) => c,
            None => line.len() as int,
        };
        if line.subrange(0, p0_end) != chunk_index_sentinel() {
            Err(CodecError::UnsupportedChunking)
        } else if p0_end == line.len() {
            Err(CodecError::MalformedMessage)
        } else {
            let p1_end = match find_byte(line, ',' as u8, p0_end + 1) {
                Some(c) => c,
                None => line.len() as int,
            };
            if line.subrange(p0_end + 1, p1_end) != chunk_count_sentinel() {
                Err(CodecError::UnsupportedChunking)
            } else if p1_end == line.len() {
                Err(CodecError::MalformedMessage)
            } else {
                let p2_end = match find_byte(line, ',' as u8, p1_end + 1) {
                    Some(c) => c,
                    None => line.len() as int,
                };
                match b64_decode_of(line.subrange(p1_end + 1, p2_end)) {
                    None => Err(CodecError::MalformedMessage),
                    Some(payload) => dec_meta_payload(payload),
                }
            }
        }
    }
}

// ---------------------------------------------------------------------------
// Status payload (`L` message body)
// ---------------------------------------------------------------------------

/// Whether a well-formed status record starts at position `i`: its length
/// byte is present, the declared bytes all fit, and the declared length
/// covers the fixed fields (six bytes) and, when it exceeds six, the three
/// extended fields as well (ten bytes).
pub open spec fn status_record_ok(b: Seq<u8>, i: int) -> bool {
    &&& i < b.len()
    &&& i + 1 + (b[i] as int) <= b.len()
    &&& (b[i] as int) >= 6
    &&& ((b[i] as int) == 6 || (b[i] as int) >= 10)
}

/// The status record starting at position `i`.
pub open spec fn status_record_at(b: Seq<u8>, i: int) -> StatusRecordV
    recommends
        status_record_ok(b, i),
{
    StatusRecordV {
        rf_address: u24_be(b, i + 1),
        flags: u16_be(b, i + 5),
        ext: if (b[i] as int) > 6 {
            Some((b[i + 7], b[i + 8], u16_be(b, i + 9)))
        } else {
            None
        },
    }
}

/// How one status record changes one device slot: a heater thermostat with
/// the record's radio address takes the record's flag bits and, when present,
/// its extended fields; every other slot is untouched.
pub open spec fn apply_to_device(d: DeviceV, r: StatusRecordV) -> DeviceV {
    match d {
        DeviceV::HeaterThermostat(t) => {
            if t.rf_address == r.rf_address {
                DeviceV::HeaterThermostat(
                    ThermostatV {
                        rf_address: t.rf_address,
                        serial: t.serial,
                        name: t.name,
                        room_id: t.room_id,
                        valve_position: match r.ext {
                            Some(e) => e.0,
                            None => t.valve_position,
                        },
                        temperature_set: match r.ext {
                            Some(e) => e.1,
                            None => t.temperature_set,
                        },
                        temperature_measured: match r.ext {
                            Some(e) => e.2,
                            None => t.temperature_measured,
                        },
                        battery_low: r.flags & 0x80 != 0,
                        error: r.flags & 0x800 != 0,
                        valid: r.flags & 0x1000 != 0,
                    },
                )
            } else {
                d
            }
        },
        DeviceV::NotSupported => d,
    }
}

/// One status record applied to every device slot.
pub open spec fn apply_record(devs: Seq<DeviceV>, r: StatusRecordV) -> Seq<DeviceV> {
    devs.map_values(|d: DeviceV| apply_to_device(d, r))
}

/// Consuming status records from position `i` until the payload is exhausted,
/// applying each to the device list as it is read. Returns the final outcome
/// together with the device list as it stands then: records read before a
/// structural anomaly keep their effect.
pub open spec fn run_status(b: Seq<u8>, i: int, devs: Seq<DeviceV>) -> (Result<(), CodecError>, Seq<
    DeviceV,
>)
    decreases b.len() - i,
{
    if i >= b.len() {
        (Ok(()), devs)
    } else if !status_record_ok(b, i) {
        (Err(CodecError::TruncatedBuffer), devs)
    } else {
        run_status(b, i + 1 + (b[i] as int), apply_record(devs, status_record_at(b, i)))
    }
}

/// What `from_message_l` returns, and what it leaves in the device list, for
/// a given line and starting inventory.
pub open spec fn spec_message_l(line: Seq<u8>, devs: Seq<DeviceV>) -> (Result<(), CodecError>, Seq<
    DeviceV,
>) {
    if !(line.len() >= 2 && line[0] == 'L' as u8 && line[1] == ':' as u8) {
        (Err(CodecError::UnexpectedMessageTag), devs)
    } else {
        let payload_start = match find_last_byte(line, ':' as u8) {
            Some(c) => c + 1,
            None => 0,
        };
        match b64_decode_of(line.subrange(payload_start, line.len() as int)) {
            None => (Err(CodecError::MalformedMessage), devs),
            Some(payload) => run_status(payload, 0, devs),
        }
    }
}

// ---------------------------------------------------------------------------
// Pairing announcement (`N` message body)
// ---------------------------------------------------------------------------

/// What `from_message_n` returns for a given line: a fresh heater thermostat
/// whose radio address and eleven-byte serial come from the fixed-layout
/// payload.
pub open spec fn spec_message_n(line: Seq<u8>) -> Result<DeviceV, CodecError> {
    if !(line.len() >= 2 && line[0] == 'N' as u8 && line[1] == ':' as u8) {
        Err(CodecError::UnexpectedMessageTag)
    } else {
        let payload_start = match find_last_byte(line, ':' as u8) {
            Some(c) => c + 1,
            None => 0,
        };
        match b64_decode_of(line.subrange(payload_start, line.len() as int)) {
            None => Err(CodecError::MalformedMessage),
            Some(p) => {
                if p.len() < 15 {
                    Err(CodecError::MalformedMessage)
                } else if p[0] != 1 {
                    Err(CodecError::UnsupportedDeviceType)
                } else {
                    Ok(
                        DeviceV::HeaterThermostat(
                            fresh_thermostat(u24_be(p, 1), p.subrange(4, 15), Seq::empty(), 0),
                        ),
                    )
                }
            },
        }
    }
}

// ---------------------------------------------------------------------------
// Command acknowledgement lines
// ---------------------------------------------------------------------------

/// Whether every byte of `s` is an ASCII decimal digit.
pub open spec fn all_digits(s: Seq<u8>) -> bool {
    forall|k: int| 0 <= k < s.len() ==> '0' as u8 <= #[trigger] s[k] <= '9' as u8
}

/// The decimal value of a digit string.
pub open spec fn dec_value(s: Seq<u8>) -> int
    decreases s.len(),
{
    if s.len() == 0 {
        0
    } else {
        dec_value(s.take(s.len() - 1)) * 10 + (s[s.len() - 1] - '0' as u8)
    }
}

/// What `parse_ack` returns: the second comma-separated field must read as a
/// decimal 8-bit code, and only code zero means the gateway accepted the
/// command.
pub open spec fn spec_ack(line: Seq<u8>) -> Result<(), CodecError> {
    match find_byte(line, ',' as u8, 0) {
        None => Err(CodecError::CommandRejected),
        Some(c1) => {
            let end = match find_byte(line, ',' as u8, c1 + 1) {
                Some(c2) => c2,
                None => line.len() as int,
            };
            let f = line.subrange(c1 + 1, end);
            if f.len() == 0 || !all_digits(f) || dec_value(f) > 255 {
                Err(CodecError::CommandRejected)
            } else if dec_value(f) == 0 {
                Ok(())
            } else {
                Err(CodecError::CommandRejected)
            }
        },
    }
}

// ---------------------------------------------------------------------------
// Line classification
// ---------------------------------------------------------------------------

/// A line as the sequencer sees it: one trailing carriage-return/line-feed
/// pair removed.
pub open spec fn strip_crlf(line: Seq<u8>) -> Seq<u8> {
    if line.len() >= 2 && line[line.len() - 2] == '\r' as u8 && line[line.len() - 1] == '\n' as u8 {
        line.take(line.len() - 2)
    } else {
        line
    }
}

/// The first heater thermostat of the list with the given radio address.
pub open spec fn find_thermostat(devs: Seq<DeviceV>, rf_address: u32) -> Option<ThermostatV>
    decreases devs.len(),
{
    if devs.len() == 0 {
        None
    } else {
        match devs[0] {
            DeviceV::HeaterThermostat(t) => {
                if t.rf_address == rf_address {
                    Some(t)
                } else {
                    find_thermostat(devs.subrange(1, devs.len() as int), rf_address)
                }
            },
            DeviceV::NotSupported => find_thermostat(devs.subrange(1, devs.len() as int), rf_address),
        }
    }
}

} // verus!
