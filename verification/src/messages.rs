//! Typed records of the protocol and the message decoders.
//!
//! Names and serial numbers are kept as the raw bytes carried on the wire;
//! temperatures are kept in the wire's own units (half-degree steps for the
//! set-point, tenths of a degree for the measured value), so every field is a
//! plain value and every decoder is verified bit-exactly against
//! [`crate::wire`].

use vstd::prelude::*;
use vstd::slice::slice_subrange;
use vstd::string::StringSliceAdditionalSpecFns;

use crate::b64::{b64_chars_of, b64_decode, b64_encode};
use crate::error::CodecError;
use crate::reader::Reader;
use crate::wire::{
    apply_record, apply_to_device, chunk_count_sentinel, chunk_index_sentinel, dec_device,
    dec_devices, dec_meta_payload, dec_room, dec_rooms, find_byte, find_last_byte,
    fresh_thermostat, run_status, spec_message_l, spec_message_m, spec_message_n,
    status_record_at, status_record_ok, DeviceV, RoomV, StatusRecordV, ThermostatV,
};

verus! {

/// A heating-system device slot. Only heater thermostats are supported; any
/// other device type occupies its slot as `NotSupported`.
#[derive(Debug)]
pub enum Device {
    NotSupported,
    HeaterThermostat(HeaterThermostat),
}

/// A heater thermostat.
#[derive(Debug)]
pub struct HeaterThermostat {
    /// Radio address of the thermostat (24-bit).
    pub rf_address: u32,
    /// Serial number, as the raw bytes from the wire.
    pub serial: Vec<u8>,
    /// Name, as the raw bytes from the wire.
    pub name: Vec<u8>,
    /// Room (group) id the thermostat belongs to; 0 applies to all rooms.
    pub room_id: u8,
    /// Current valve position, in percent.
    pub valve_position: u8,
    /// Current set-point, in half-degree steps (a value of 38 is 19.0 degrees).
    pub temperature_set: u8,
    /// Last measured temperature, in tenths of a degree; not always populated.
    pub temperature_measured: u16,
    /// Whether the battery level is low.
    pub battery_low: bool,
    /// Whether the thermostat is in an error state.
    pub error: bool,
    /// Whether the values reported by the thermostat are valid.
    pub valid: bool,
}

/// A room (group) set up on the gateway.
#[derive(Debug)]
pub struct Room {
    /// Room (group) id.
    pub room_id: u8,
    /// Room name, as the raw bytes from the wire.
    pub name: Vec<u8>,
    /// Radio address of the room.
    pub rf_address: u32,
}

/// List of devices.
pub type Devices = Vec<Device>;

/// List of rooms.
pub type Rooms = Vec<Room>;

impl View for HeaterThermostat {
    type V = ThermostatV;

    open spec fn view(&self) -> ThermostatV {
        ThermostatV {
            rf_address: self.rf_address,
            serial: self.serial@,
            name: self.name@,
            room_id: self.room_id,
            valve_position: self.valve_position,
            temperature_set: self.temperature_set,
            temperature_measured: self.temperature_measured,
            battery_low: self.battery_low,
            error: self.error,
            valid: self.valid,
        }
    }
}

impl View for Device {
    type V = DeviceV;

    open spec fn view(&self) -> DeviceV {
        match self {
            Device::NotSupported => DeviceV::NotSupported,
            Device::HeaterThermostat(t) => DeviceV::HeaterThermostat(t@),
        }
    }
}

impl View for Room {
    type V = RoomV;

    open spec fn view(&self) -> RoomV {
        RoomV { room_id: self.room_id, name: self.name@, rf_address: self.rf_address }
    }
}

impl Default for Device {
    fn default() -> (r: Self)
        ensures
            r@ is NotSupported,
    {
        Device::NotSupported
    }
}

impl Default for HeaterThermostat {
    fn default() -> (r: Self)
        ensures
            r@ == fresh_thermostat(0, Seq::empty(), Seq::empty(), 0),
    {
        HeaterThermostat {
            rf_address: 0,
            serial: Vec::new(),
            name: Vec::new(),
            room_id: 0,
            valve_position: 0,
            temperature_set: 0,
            temperature_measured: 0,
            battery_low: false,
            error: false,
            valid: false,
        }
    }
}

impl Default for Room {
    fn default() -> (r: Self)
        ensures
            r@ == (RoomV { room_id: 0, name: Seq::empty(), rf_address: 0 }),
    {
        Room { room_id: 0, name: Vec::new(), rf_address: 0 }
    }
}

/// The room list as its ghost view.
pub open spec fn rooms_v(rs: Seq<Room>) -> Seq<RoomV> {
    rs.map_values(|r: Room| r@)
}

/// The device list as its ghost view.
pub open spec fn devices_v(ds: Seq<Device>) -> Seq<DeviceV> {
    ds.map_values(|d: Device| d@)
}

proof fn lemma_find_byte_extend(b: Seq<u8>, c: u8, i: int)
    requires
        0 <= i < b.len(),
        b[i] != c,
    ensures
        find_byte(b, c, i) == find_byte(b, c, i + 1),
{
}

/// First occurrence of `c` at or after `start`.
pub(crate) fn find_byte_from(b: &[u8], c: u8, start: usize) -> (r: Option<usize>)
    requires
        start <= b@.len(),
    ensures
        match r {
            Some(i) => find_byte(b@, c, start as int) == Some(i as int) && start <= i < b@.len(),
            None => find_byte(b@, c, start as int) is None,
        },
{
    let mut k = start;
    while k < b.len()
        invariant
            start <= k <= b@.len(),
            find_byte(b@, c, start as int) == find_byte(b@, c, k as int),
        decreases b@.len() - k,
    {
        if b[k] == c {
            return Some(k);
        }
        proof {
            lemma_find_byte_extend(b@, c, k as int);
        }
        k = k + 1;
    }
    None
}

/// Last occurrence of `c`.
pub(crate) fn find_byte_last(b: &[u8], c: u8) -> (r: Option<usize>)
    ensures
        match r {
            Some(i) => find_last_byte(b@, c) == Some(i as int) && i < b@.len(),
            None => find_last_byte(b@, c) is None,
        },
{
    let mut k = b.len();
    proof {
        assert(b@.take(k as int) =~= b@);
    }
    while k > 0
        invariant
            k <= b@.len(),
            find_last_byte(b@, c) == find_last_byte(b@.take(k as int), c),
        decreases k,
    {
        let ghost pre = b@.take(k as int);
        proof {
            assert(pre.len() == k);
            assert(pre[k - 1] == b@[k - 1]);
        }
        if b[k - 1] == c {
            return Some(k - 1);
        }
        proof {
            assert(pre.take(k - 1) =~= b@.take(k - 1));
        }
        k = k - 1;
    }
    proof {
        assert(b@.take(0) =~= Seq::<u8>::empty());
    }
    None
}

/// Decodes a pairing-announcement (`N`) line: a fixed-layout payload naming a
/// newly discovered heater thermostat.
///
/// Returns the thermostat with its radio address and eleven-byte serial
/// populated and every status field at its default. Fails with
/// `UnexpectedMessageTag` when the line does not begin with `N:`, with
/// `MalformedMessage` when the payload is not base64 or is shorter than 15
/// bytes, and with `UnsupportedDeviceType` when the announced device is not a
/// heater thermostat.
pub fn from_message_n(recv: &str) -> (r: Result<Device, CodecError>)
    ensures
        match r {
            Ok(d) => spec_message_n(recv.spec_bytes()) == Ok::<DeviceV, CodecError>(d@),
            Err(e) => spec_message_n(recv.spec_bytes()) == Err::<DeviceV, CodecError>(e),
        },
{
    let b = recv.as_bytes();
    if !(b.len() >= 2 && b[0] == 'N' as u8 && b[1] == ':' as u8) {
        return Err(CodecError::UnexpectedMessageTag);
    }
    let start = match find_byte_last(b, ':' as u8) {
        Some(i) => i + 1,
        None => 0,
    };
    let payload = slice_subrange(b, start, b.len());
    let p = match b64_decode(payload) {
        Ok(v) => v,
        Err(_) => {
            return Err(CodecError::MalformedMessage);
        },
    };
    if p.len() < 15 {
        return Err(CodecError::MalformedMessage);
    }
    let mut rd = Reader::new(p.as_slice());
    let kind = match rd.take_u8() {
        Ok(v) => v,
        Err(_) => {
            return Err(CodecError::MalformedMessage);
        },
    };
    if kind != 1 {
        return Err(CodecError::UnsupportedDeviceType);
    }
    let rf_address = match rd.take_u24_be() {
        Ok(v) => v,
        Err(_) => {
            return Err(CodecError::MalformedMessage);
        },
    };
    let serial = match rd.take_bytes(11) {
        Ok(v) => v,
        Err(_) => {
            return Err(CodecError::MalformedMessage);
        },
    };
    let d = Device::HeaterThermostat(
        HeaterThermostat {
            rf_address,
            serial,
            name: Vec::new(),
            room_id: 0,
            valve_position: 0,
            temperature_set: 0,
            temperature_measured: 0,
            battery_low: false,
            error: false,
            valid: false,
        },
    );
    proof {
        assert(d@ == fresh_thermostat_device(p@));
    }
    Ok(d)
}

/// The device a well-formed pairing payload denotes.
spec fn fresh_thermostat_device(p: Seq<u8>) -> DeviceV {
    DeviceV::HeaterThermostat(
        fresh_thermostat(crate::wire::u24_be(p, 1), p.subrange(4, 15), Seq::empty(), 0),
    )
}

/// Decodes the base64-decoded body of a metadata message: room list, then
/// device list.
fn decode_meta_payload(p: &[u8]) -> (r: Result<(Rooms, Devices), CodecError>)
    ensures
        match r {
            Ok(lists) => dec_meta_payload(p@) == Ok::<(Seq<RoomV>, Seq<DeviceV>), CodecError>(
                (rooms_v(lists.0@), devices_v(lists.1@)),
            ),
            Err(e) => dec_meta_payload(p@) == Err::<(Seq<RoomV>, Seq<DeviceV>), CodecError>(e),
        },
{
    if p.len() < 3 {
        return Err(CodecError::TruncatedBuffer);
    }
    let room_count = p[2] as usize;
    let mut rd = Reader::new(p);
    let _ = match rd.take_bytes(3) {
        Ok(v) => v,
        Err(_) => {
            return Err(CodecError::TruncatedBuffer);
        },
    };
    let mut rooms: Vec<Room> = Vec::new();
    let mut k: usize = 0;
    proof {
        assert(rooms_v(rooms@) =~= Seq::<RoomV>::empty());
    }
    while k < room_count
        invariant
            rd.wf(),
            rd.data() == p@,
            k <= room_count,
            room_count == p@[2] as int,
            3 <= p@.len(),
            dec_rooms(p@, 3, room_count as int, Seq::empty()) == dec_rooms(
                p@,
                rd.position(),
                room_count as int - k as int,
                rooms_v(rooms@),
            ),
        decreases room_count - k,
    {
        let ghost pos0 = rd.position();
        let ghost acc0 = rooms_v(rooms@);
        let room_id = match rd.take_u8() {
            Ok(v) => v,
            Err(_) => {
                return Err(CodecError::TruncatedBuffer);
            },
        };
        let name = match rd.take_length_prefixed() {
            Ok(v) => v,
            Err(_) => {
                proof {
                    assert(dec_room(p@, pos0) is None);
                }
                return Err(CodecError::TruncatedBuffer);
            },
        };
        let rf_address = match rd.take_u24_be() {
            Ok(v) => v,
            Err(_) => {
                proof {
                    assert(dec_room(p@, pos0) is None);
                }
                return Err(CodecError::TruncatedBuffer);
            },
        };
        let room = Room { room_id, name, rf_address };
        proof {
            assert(dec_room(p@, pos0) == Some((room@, rd.position())));
            assert(rooms_v(rooms@.push(room)) =~= acc0.push(room@));
        }
        rooms.push(room);
        k = k + 1;
    }
    let dev_count = match rd.take_u8() {
        Ok(v) => v as usize,
        Err(_) => {
            return Err(CodecError::TruncatedBuffer);
        },
    };
    let mut devices: Vec<Device> = Vec::new();
    let mut m: usize = 0;
    proof {
        assert(devices_v(devices@) =~= Seq::<DeviceV>::empty());
    }
    while m < dev_count
        invariant
            rd.wf(),
            rd.data() == p@,
            m <= dev_count,
            dec_meta_payload(p@) == (match dec_devices(
                p@,
                rd.position(),
                dev_count as int - m as int,
                devices_v(devices@),
            ) {
                None => Err::<(Seq<RoomV>, Seq<DeviceV>), CodecError>(CodecError::TruncatedBuffer),
                Some((ds, _)) => Ok::<(Seq<RoomV>, Seq<DeviceV>), CodecError>(
                    (rooms_v(rooms@), ds),
                ),
            }),
        decreases dev_count - m,
    {
        let ghost pos0 = rd.position();
        let ghost acc0 = devices_v(devices@);
        let dev_type = match rd.take_u8() {
            Ok(v) => v,
            Err(_) => {
                return Err(CodecError::TruncatedBuffer);
            },
        };
        let rf_address = match rd.take_u24_be() {
            Ok(v) => v,
            Err(_) => {
                proof {
                    assert(dec_device(p@, pos0) is None);
                }
                return Err(CodecError::TruncatedBuffer);
            },
        };
        let serial = match rd.take_bytes(10) {
            Ok(v) => v,
            Err(_) => {
                proof {
                    assert(dec_device(p@, pos0) is None);
                }
                return Err(CodecError::TruncatedBuffer);
            },
        };
        let name = match rd.take_length_prefixed() {
            Ok(v) => v,
            Err(_) => {
                proof {
                    assert(dec_device(p@, pos0) is None);
                }
                return Err(CodecError::TruncatedBuffer);
            },
        };
        let room_id = match rd.take_u8() {
            Ok(v) => v,
            Err(_) => {
                proof {
                    assert(dec_device(p@, pos0) is None);
                }
                return Err(CodecError::TruncatedBuffer);
            },
        };
        let device = if dev_type == 1 {
            Device::HeaterThermostat(
                HeaterThermostat {
                    rf_address,
                    serial,
                    name,
                    room_id,
                    valve_position: 0,
                    temperature_set: 0,
                    temperature_measured: 0,
                    battery_low: false,
                    error: false,
                    valid: false,
                },
            )
        } else {
            Device::NotSupported
        };
        proof {
            assert(dec_device(p@, pos0) == Some((device@, rd.position())));
            assert(devices_v(devices@.push(device)) =~= acc0.push(device@));
        }
        devices.push(device);
        m = m + 1;
    }
    Ok((rooms, devices))
}

/// Decodes a metadata (`M`) line into its room and device lists.
///
/// The line must carry the single-chunk sentinels `M:00,01,`; the third
/// comma-separated field is the base64 payload. On success the returned pair
/// is meant to replace the inventory's lists wholesale. Fails with
/// `UnexpectedMessageTag` when the line does not begin with `M:`, with
/// `UnsupportedChunking` when either chunk field differs from its sentinel,
/// with `MalformedMessage` when a field is missing or the payload is not
/// base64, and with `TruncatedBuffer` when a field of the payload runs past
/// its end.
pub fn from_message_m(recv: &str) -> (r: Result<(Rooms, Devices), CodecError>)
    ensures
        match r {
            Ok(lists) => spec_message_m(recv.spec_bytes()) == Ok::<
                (Seq<RoomV>, Seq<DeviceV>),
                CodecError,
            >((rooms_v(lists.0@), devices_v(lists.1@))),
            Err(e) => spec_message_m(recv.spec_bytes()) == Err::<
                (Seq<RoomV>, Seq<DeviceV>),
                CodecError,
            >(e),
        },
{
    let b = recv.as_bytes();
    if !(b.len() >= 2 && b[0] == 'M' as u8 && b[1] == ':' as u8) {
        return Err(CodecError::UnexpectedMessageTag);
    }
    let p0_end = match find_byte_from(b, ',' as u8, 0) {
        Some(i) => i,
        None => b.len(),
    };
    let ok0 = p0_end == 4 && b[2] == '0' as u8 && b[3] == '0' as u8;
    proof {
        if ok0 {
            assert(b@.subrange(0, p0_end as int) =~= chunk_index_sentinel());
        } else {
            assert(b@.subrange(0, p0_end as int).len() == p0_end as int);
            if p0_end == 4 {
                assert(b@.subrange(0, 4)[2] == b@[2]);
                assert(b@.subrange(0, 4)[3] == b@[3]);
            }
            assert(b@.subrange(0, p0_end as int) != chunk_index_sentinel());
        }
    }
    if !ok0 {
        return Err(CodecError::UnsupportedChunking);
    }
    if p0_end == b.len() {
        return Err(CodecError::MalformedMessage);
    }
    let p1_end = match find_byte_from(b, ',' as u8, p0_end + 1) {
        Some(i) => i,
        None => b.len(),
    };
    let ok1 = p1_end == p0_end + 3 && b[p0_end + 1] == '0' as u8 && b[p0_end + 2] == '1' as u8;
    proof {
        let part1 = b@.subrange(p0_end + 1, p1_end as int);
        if ok1 {
            assert(part1 =~= chunk_count_sentinel());
        } else {
            assert(part1.len() == p1_end - (p0_end + 1));
            if p1_end == p0_end + 3 {
                assert(part1[0] == b@[p0_end + 1]);
                assert(part1[1] == b@[p0_end + 2]);
            }
            assert(part1 != chunk_count_sentinel());
        }
    }
    if !ok1 {
        return Err(CodecError::UnsupportedChunking);
    }
    if p1_end == b.len() {
        return Err(CodecError::MalformedMessage);
    }
    let p2_end = match find_byte_from(b, ',' as u8, p1_end + 1) {
        Some(i) => i,
        None => b.len(),
    };
    let payload = slice_subrange(b, p1_end + 1, p2_end);
    let decoded = match b64_decode(payload) {
        Ok(v) => v,
        Err(_) => {
            return Err(CodecError::MalformedMessage);
        },
    };
    decode_meta_payload(decoded.as_slice())
}

/// Decodes a status (`L`) line and applies it to the device list in place.
///
/// The payload is a run of length-prefixed status records; each record's
/// flag bits and, when present, its extended fields overwrite the status of
/// every heater thermostat whose radio address matches, records for unknown
/// addresses are silently skipped, and a later record for the same address
/// wins. Fails with `UnexpectedMessageTag` when the line does not begin with
/// `L:`, with `MalformedMessage` when the payload is not base64, and with
/// `TruncatedBuffer` on any structural byte-count anomaly; records applied
/// before the anomaly keep their effect.
pub fn from_message_l(recv: &str, devices: &mut Devices) -> (r: Result<(), CodecError>)
    ensures
        r == spec_message_l(recv.spec_bytes(), devices_v(old(devices)@)).0,
        devices_v(final(devices)@) == spec_message_l(recv.spec_bytes(), devices_v(old(devices)@)).1,
{
    let ghost devs0 = devices_v(devices@);
    let b = recv.as_bytes();
    if !(b.len() >= 2 && b[0] == 'L' as u8 && b[1] == ':' as u8) {
        return Err(CodecError::UnexpectedMessageTag);
    }
    let start = match find_byte_last(b, ':' as u8) {
        Some(i) => i + 1,
        None => 0,
    };
    let payload = slice_subrange(b, start, b.len());
    let p = match b64_decode(payload) {
        Ok(v) => v,
        Err(_) => {
            return Err(CodecError::MalformedMessage);
        },
    };
    proof {
        assert(spec_message_l(recv.spec_bytes(), devs0) == run_status(p@, 0, devs0));
    }
    let mut i: usize = 0;
    while i < p.len()
        invariant
            i <= p@.len(),
            devs0 == devices_v(old(devices)@),
            run_status(p@, 0, devs0) == run_status(p@, i as int, devices_v(devices@)),
            spec_message_l(recv.spec_bytes(), devs0) == run_status(p@, 0, devs0),
        decreases p@.len() - i,
    {
        let len = p[i] as usize;
        if len < 6 || (len > 6 && len < 10) {
            proof {
                assert(!status_record_ok(p@, i as int));
                assert(run_status(p@, i as int, devices_v(devices@)) == (
                    Err::<(), CodecError>(CodecError::TruncatedBuffer),
                    devices_v(devices@),
                ));
            }
            return Err(CodecError::TruncatedBuffer);
        }
        if p.len() - (i + 1) < len {
            proof {
                assert(!status_record_ok(p@, i as int));
                assert(run_status(p@, i as int, devices_v(devices@)) == (
                    Err::<(), CodecError>(CodecError::TruncatedBuffer),
                    devices_v(devices@),
                ));
            }
            return Err(CodecError::TruncatedBuffer);
        }
        let rf = (p[i + 1] as u32) * 0x10000 + (p[i + 2] as u32) * 0x100 + (p[i + 3] as u32);
        let flags = (p[i + 5] as u16) * 0x100 + (p[i + 6] as u16);
        let has_ext = len > 6;
        let valve = if has_ext {
            p[i + 7]
        } else {
            0
        };
        let tset = if has_ext {
            p[i + 8]
        } else {
            0
        };
        let tmeas = if has_ext {
            (p[i + 9] as u16) * 0x100 + (p[i + 10] as u16)
        } else {
            0
        };
        let ghost rec = status_record_at(p@, i as int);
        let ghost devs_before = devices_v(devices@);
        proof {
            assert(status_record_ok(p@, i as int));
            assert(rec.rf_address == rf);
            assert(rec.flags == flags);
            assert(rec.ext == (if has_ext {
                Some((valve, tset, tmeas))
            } else {
                None::<(u8, u8, u16)>
            }));
        }
        let mut j: usize = 0;
        while j < devices.len()
            invariant
                j <= devices@.len(),
                devices@.len() == devs_before.len(),
                rec.rf_address == rf,
                rec.flags == flags,
                rec.ext == (if has_ext {
                    Some((valve, tset, tmeas))
                } else {
                    None::<(u8, u8, u16)>
                }),
                forall|q: int|
                    0 <= q < j ==> #[trigger] devices@[q]@ == apply_to_device(devs_before[q], rec),
                forall|q: int| j <= q < devices@.len() ==> #[trigger] devices@[q]@ == devs_before[q],
            decreases devices@.len() - j,
        {
            let ghost devs_pre = devices@;
            let dev = devices.remove(j);
            let dev2 = match dev {
                Device::HeaterThermostat(mut ts) => {
                    if ts.rf_address == rf {
                        ts.battery_low = flags & 0x80 != 0;
                        ts.error = flags & 0x800 != 0;
                        ts.valid = flags & 0x1000 != 0;
                        if has_ext {
                            ts.valve_position = valve;
                            ts.temperature_set = tset;
                            ts.temperature_measured = tmeas;
                        }
                    }
                    Device::HeaterThermostat(ts)
                },
                Device::NotSupported => Device::NotSupported,
            };
            devices.insert(j, dev2);
            proof {
                assert(devs_pre[j as int]@ == devs_before[j as int]);
                assert(devices@ =~= devs_pre.update(j as int, dev2));
                assert(dev2@ == apply_to_device(devs_before[j as int], rec));
                assert(devices@[j as int]@ == apply_to_device(devs_before[j as int], rec));
            }
            j = j + 1;
        }
        proof {
            assert(devices_v(devices@) =~= apply_record(devs_before, rec));
        }
        i = i + 1 + len;
    }
    Ok(())
}

// ---------------------------------------------------------------------------
// Command encoders
// ---------------------------------------------------------------------------

/// Operating mode of a thermostat. Other gateway modes (vacation, boost) are
/// unsupported.
#[derive(Debug, Copy, Clone)]
pub enum DeviceMode {
    /// The set-point is fixed until changed again by hand.
    Manual,
    /// The set-point follows the programmed weekly schedule.
    Auto,
}

impl Default for DeviceMode {
    fn default() -> (r: Self)
        ensures
            r is Auto,
    {
        DeviceMode::Auto
    }
}

/// Numeric wire code of a mode: Manual is 1, Auto is 0.
pub open spec fn mode_code(m: DeviceMode) -> u8 {
    match m {
        DeviceMode::Manual => 1,
        DeviceMode::Auto => 0,
    }
}

/// Ghost view of a configuration command builder.
pub ghost struct DeviceConfigV {
    pub mode: DeviceMode,
    pub temperature: u8,
    pub rf_address: u32,
    pub room_id: u8,
}

/// The fixed 11-byte binary payload of a configuration command: a six-byte
/// header, the radio address big-endian in three bytes, the room id, and one
/// bitfield byte holding the mode code in the top two bits and the set-point
/// (in half-degree steps, masked to six bits) in the rest. Set-points above
/// 63 half-degrees alias to a smaller wire value; that lossy mask is the
/// gateway's own bit layout.
pub open spec fn config_payload(c: DeviceConfigV) -> Seq<u8> {
    seq![
        0u8,
        4u8,
        0x40u8,
        0u8,
        0u8,
        0u8,
        ((c.rf_address >> 16) & 0xff) as u8,
        ((c.rf_address >> 8) & 0xff) as u8,
        (c.rf_address & 0xff) as u8,
        c.room_id,
        (mode_code(c.mode) << 6) | (c.temperature & 0x3f),
    ]
}

/// The whole outbound configuration line: `s:`, the base64 payload, and the
/// line terminator.
pub open spec fn spec_config_line(c: DeviceConfigV) -> Seq<char> {
    seq!['s', ':'] + b64_chars_of(config_payload(c)) + seq!['\r', '\n']
}

/// Builder for a configuration command (set-point change). Setters are
/// independent and order-free; `build` encodes the accumulated values.
#[derive(Debug)]
pub struct DeviceConfig {
    mode: DeviceMode,
    temperature: u8,
    rf_address: u32,
    room_id: u8,
}

impl View for DeviceConfig {
    type V = DeviceConfigV;

    closed spec fn view(&self) -> DeviceConfigV {
        DeviceConfigV {
            mode: self.mode,
            temperature: self.temperature,
            rf_address: self.rf_address,
            room_id: self.room_id,
        }
    }
}

impl Default for DeviceConfig {
    fn default() -> (r: Self)
        ensures
            r@ == (DeviceConfigV {
                mode: DeviceMode::Auto,
                temperature: 0,
                rf_address: 0,
                room_id: 0,
            }),
    {
        DeviceConfig { mode: DeviceMode::Auto, temperature: 0, rf_address: 0, room_id: 0 }
    }
}

impl DeviceConfig {
    /// A builder with default values: Auto mode, zero set-point, zero
    /// addresses.
    pub fn new() -> (r: Self)
        ensures
            r@ == (DeviceConfigV {
                mode: DeviceMode::Auto,
                temperature: 0,
                rf_address: 0,
                room_id: 0,
            }),
    {
        DeviceConfig { mode: DeviceMode::Auto, temperature: 0, rf_address: 0, room_id: 0 }
    }

    /// Sets the mode.
    pub fn set_mode(self, mode: DeviceMode) -> (r: Self)
        ensures
            r@ == (DeviceConfigV {
                mode,
                temperature: self@.temperature,
                rf_address: self@.rf_address,
                room_id: self@.room_id,
            }),
    {
        DeviceConfig { mode, ..self }
    }

    /// Sets the target set-point, in half-degree steps (46 is 23.0 degrees).
    pub fn set_temperature(self, temperature: u8) -> (r: Self)
        ensures
            r@ == (DeviceConfigV {
                mode: self@.mode,
                temperature,
                rf_address: self@.rf_address,
                room_id: self@.room_id,
            }),
    {
        DeviceConfig { temperature, ..self }
    }

    /// Sets the target radio address.
    pub fn set_address(self, rf_address: u32) -> (r: Self)
        ensures
            r@ == (DeviceConfigV {
                mode: self@.mode,
                temperature: self@.temperature,
                rf_address,
                room_id: self@.room_id,
            }),
    {
        DeviceConfig { rf_address, ..self }
    }

    /// Sets the room id. A room id of 0 applies the command to every device
    /// of the group; that semantic is the caller's to enforce.
    pub fn set_room_id(self, room_id: u8) -> (r: Self)
        ensures
            r@ == (DeviceConfigV {
                mode: self@.mode,
                temperature: self@.temperature,
                rf_address: self@.rf_address,
                room_id,
            }),
    {
        DeviceConfig { room_id, ..self }
    }

    /// Encodes the command as one outbound wire line.
    pub fn build(&self) -> (r: String)
        ensures
            r@ == spec_config_line(self@),
    {
        let mut data: Vec<u8> = Vec::new();
        data.push(0x00);
        data.push(0x04);
        data.push(0x40);
        data.push(0x00);
        data.push(0x00);
        data.push(0x00);
        data.push(((self.rf_address >> 16) & 0xff) as u8);
        data.push(((self.rf_address >> 8) & 0xff) as u8);
        data.push((self.rf_address & 0xff) as u8);
        data.push(self.room_id);
        let mode_bits: u8 = match self.mode {
            DeviceMode::Manual => 1,
            DeviceMode::Auto => 0,
        };
        data.push((mode_bits << 6) | (self.temperature & 0x3f));
        proof {
            assert(data@ =~= config_payload(self@));
        }
        let enc = b64_encode(data.as_slice());
        let mut line = String::from_str("s:");
        line.append(enc.as_str());
        line.append("\r\n");
        proof {
            reveal_strlit("s:");
            reveal_strlit("\r\n");
            assert(line@ =~= spec_config_line(self@));
        }
        line
    }
}

/// The value actually encoded for a pairing timeout: whole seconds, clamped
/// to what fits in 16 bits.
pub open spec fn clamped_timeout(secs: u64) -> u16 {
    if secs > 0xffff {
        0xffff as u16
    } else {
        secs as u16
    }
}

/// One lowercase hexadecimal digit.
pub open spec fn hex_char(d: u8) -> char
    recommends
        d < 16,
{
    if d < 10 {
        (('0' as u8) + d) as char
    } else {
        (('a' as u8) + (d - 10)) as char
    }
}

/// The whole outbound pairing line: `n:`, the timeout as four zero-padded
/// lowercase hex digits, and the line terminator.
pub open spec fn spec_pairing_line(secs: u64) -> Seq<char> {
    let v = clamped_timeout(secs);
    seq![
        'n',
        ':',
        hex_char((v / 4096 % 16) as u8),
        hex_char((v / 256 % 16) as u8),
        hex_char((v / 16 % 16) as u8),
        hex_char((v % 16) as u8),
        '\r',
        '\n',
    ]
}

fn hex_digit_str(d: u8) -> (r: &'static str)
    requires
        d < 16,
    ensures
        r@ == seq![hex_char(d)],
{
    match d {
        0 => {
            proof {
                reveal_strlit("0");
            }
            "0"
        },
        1 => {
            proof {
                reveal_strlit("1");
            }
            "1"
        },
        2 => {
            proof {
                reveal_strlit("2");
            }
            "2"
        },
        3 => {
            proof {
                reveal_strlit("3");
            }
            "3"
        },
        4 => {
            proof {
                reveal_strlit("4");
            }
            "4"
        },
        5 => {
            proof {
                reveal_strlit("5");
            }
            "5"
        },
        6 => {
            proof {
                reveal_strlit("6");
            }
            "6"
        },
        7 => {
            proof {
                reveal_strlit("7");
            }
            "7"
        },
        8 => {
            proof {
                reveal_strlit("8");
            }
            "8"
        },
        9 => {
            proof {
                reveal_strlit("9");
            }
            "9"
        },
        10 => {
            proof {
                reveal_strlit("a");
            }
            "a"
        },
        11 => {
            proof {
                reveal_strlit("b");
            }
            "b"
        },
        12 => {
            proof {
                reveal_strlit("c");
            }
            "c"
        },
        13 => {
            proof {
                reveal_strlit("d");
            }
            "d"
        },
        14 => {
            proof {
                reveal_strlit("e");
            }
            "e"
        },
        _ => {
            proof {
                reveal_strlit("f");
            }
            "f"
        },
    }
}

/// Configuration of a pairing request: how long the gateway should listen
/// for a new device.
#[derive(Debug)]
pub struct PairingConfig {
    /// Pairing timeout, in whole seconds.
    timeout: u64,
}

impl PairingConfig {
    /// The timeout this configuration was built with, in whole seconds.
    pub closed spec fn timeout_secs(&self) -> u64 {
        self.timeout
    }

    /// A pairing configuration with the given timeout in whole seconds.
    pub fn new(timeout: u64) -> (r: Self)
        ensures
            r.timeout_secs() == timeout,
    {
        PairingConfig { timeout }
    }

    /// Encodes the pairing request as one outbound wire line.
    pub fn build(&self) -> (r: String)
        ensures
            r@ == spec_pairing_line(self.timeout_secs()),
    {
        let v: u16 = if self.timeout > 0xffff {
            0xffff
        } else {
            self.timeout as u16
        };
        let mut line = String::from_str("n:");
        line.append(hex_digit_str((v / 4096 % 16) as u8));
        line.append(hex_digit_str((v / 256 % 16) as u8));
        line.append(hex_digit_str((v / 16 % 16) as u8));
        line.append(hex_digit_str((v % 16) as u8));
        line.append("\r\n");
        proof {
            reveal_strlit("n:");
            reveal_strlit("\r\n");
            assert(line@ =~= spec_pairing_line(self.timeout_secs()));
        }
        line
    }
}

} // verus!
