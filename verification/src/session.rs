//! Handshake sequencer and inventory.
//!
//! A session owns the room and device inventory. While awaiting the
//! handshake it classifies each inbound line by its leading character:
//! metadata replaces the inventory wholesale, the first status message
//! patches it in place and completes the handshake, anything else is
//! discarded. After that, command round-trips are stateless; only the
//! acknowledgement parser lives here.

use vstd::prelude::*;
use vstd::string::StringSliceAdditionalSpecFns;

use crate::error::CodecError;
use crate::messages::{
    devices_v, find_byte_from, from_message_l, from_message_m, rooms_v, spec_config_line,
    DeviceConfig, DeviceConfigV, DeviceMode, Devices, Rooms,
};
use crate::wire::{
    all_digits, dec_value, find_byte, find_thermostat, spec_ack, spec_message_l, spec_message_m,
    strip_crlf, DeviceV, RoomV,
};

verus! {

/// Phase of the initial reception sequence.
#[derive(Debug, Copy, Clone, PartialEq, Eq, Structural)]
pub enum HandshakeState {
    /// Still consuming the gateway's opening burst of lines.
    AwaitingHandshake,
    /// The terminal status line has been seen; commands may be exchanged.
    Ready,
}

/// Ghost view of a session.
pub ghost struct SessionV {
    pub rooms: Seq<RoomV>,
    pub devices: Seq<DeviceV>,
    pub state: HandshakeState,
}

/// What one line does to a session: the outcome of processing it and the
/// session afterwards. A ready session ignores lines; otherwise the line is
/// stripped of its terminator and classified by its first character.
pub open spec fn spec_process(s: SessionV, line: Seq<u8>) -> (Result<(), CodecError>, SessionV) {
    if s.state is Ready {
        (Ok(()), s)
    } else {
        let l = strip_crlf(line);
        if l.len() == 0 {
            (Ok(()), s)
        } else if l[0] == 'M' as u8 {
            match spec_message_m(l) {
                Ok((rooms, devices)) => (
                    Ok(()),
                    SessionV { rooms, devices, state: s.state },
                ),
                Err(e) => (Err(e), s),
            }
        } else if l[0] == 'L' as u8 {
            let outcome = spec_message_l(l, s.devices);
            match outcome.0 {
                Ok(_) => (
                    Ok(()),
                    SessionV { rooms: s.rooms, devices: outcome.1, state: HandshakeState::Ready },
                ),
                Err(e) => (Err(e), SessionV { rooms: s.rooms, devices: outcome.1, state: s.state }),
            }
        } else {
            (Ok(()), s)
        }
    }
}

/// A protocol session: the inventory and the handshake phase.
#[derive(Debug)]
pub struct Session {
    /// All rooms (groups) the gateway reported.
    pub rooms: Rooms,
    /// All devices the gateway reported, in wire order.
    pub devices: Devices,
    /// Where the handshake stands.
    pub state: HandshakeState,
}

impl View for Session {
    type V = SessionV;

    open spec fn view(&self) -> SessionV {
        SessionV { rooms: rooms_v(self.rooms@), devices: devices_v(self.devices@), state: self.state }
    }
}

impl Session {
    /// An empty session awaiting its handshake.
    pub fn new() -> (s: Session)
        ensures
            s@.rooms == Seq::<RoomV>::empty(),
            s@.devices == Seq::<DeviceV>::empty(),
            s@.state is AwaitingHandshake,
    {
        let s = Session { rooms: Vec::new(), devices: Vec::new(), state: HandshakeState::AwaitingHandshake };
        proof {
            assert(rooms_v(s.rooms@) =~= Seq::<RoomV>::empty());
            assert(devices_v(s.devices@) =~= Seq::<DeviceV>::empty());
        }
        s
    }

    /// Consumes one inbound line during the handshake phase.
    ///
    /// A metadata line replaces the inventory's rooms and devices wholesale;
    /// the first status line patches the devices in place and completes the
    /// handshake; any other line is discarded. A decoder error is returned
    /// to the caller and ends no phase by itself.
    pub fn process_line(&mut self, line: &str) -> (r: Result<(), CodecError>)
        ensures
            r == spec_process(old(self)@, line.spec_bytes()).0,
            final(self)@ == spec_process(old(self)@, line.spec_bytes()).1,
    {
        match self.state {
            HandshakeState::Ready => Ok(()),
            HandshakeState::AwaitingHandshake => {
                let b = line.as_bytes();
                let stripped: &str = if b.len() >= 2 && b[b.len() - 2] == '\r' as u8 && b[b.len()
                    - 1] == '\n' as u8 {
                    proof {
                        vstd::utf8::encode_utf8_valid_utf8(line@);
                        vstd::utf8::is_char_boundary_iff_not_is_continuation_byte(
                            line.spec_bytes(),
                            b@.len() - 2,
                        );
                        assert(!vstd::utf8::is_continuation_byte(b@[b@.len() - 2]));
                    }
                    let parts = line.split_at(b.len() - 2);
                    parts.0
                } else {
                    line
                };
                proof {
                    assert(stripped.spec_bytes() =~= strip_crlf(line.spec_bytes()));
                }
                let sb = stripped.as_bytes();
                if sb.len() == 0 {
                    Ok(())
                } else if sb[0] == 'M' as u8 {
                    match from_message_m(stripped) {
                        Ok(lists) => {
                            self.rooms = lists.0;
                            self.devices = lists.1;
                            Ok(())
                        },
                        Err(e) => Err(e),
                    }
                } else if sb[0] == 'L' as u8 {
                    match from_message_l(stripped, &mut self.devices) {
                        Ok(_) => {
                            self.state = HandshakeState::Ready;
                            Ok(())
                        },
                        Err(e) => Err(e),
                    }
                } else {
                    Ok(())
                }
            },
        }
    }

    /// Whether the handshake has completed.
    pub fn handshake_complete(&self) -> (r: bool)
        ensures
            r == (self@.state is Ready),
    {
        match self.state {
            HandshakeState::Ready => true,
            HandshakeState::AwaitingHandshake => false,
        }
    }

    /// The verdict when the stream ends: reaching end-of-stream before the
    /// terminal status line is a fatal `HandshakeIncomplete`.
    pub fn end_of_stream(&self) -> (r: Result<(), CodecError>)
        ensures
            self@.state is Ready ==> r == Ok::<(), CodecError>(()),
            !(self@.state is Ready) ==> r == Err::<(), CodecError>(CodecError::HandshakeIncomplete),
    {
        match self.state {
            HandshakeState::Ready => Ok(()),
            HandshakeState::AwaitingHandshake => Err(CodecError::HandshakeIncomplete),
        }
    }

    /// Encodes the configuration line that sets the thermostat with the
    /// given radio address to manual mode at the given set-point (in
    /// half-degree steps), taking the room id from the inventory. Fails with
    /// `DeviceNotFound` when no heater thermostat with that address is known.
    pub fn set_temperature_command(&self, rf_address: u32, temperature: u8) -> (r: Result<
        String,
        CodecError,
    >)
        ensures
            match find_thermostat(devices_v(self.devices@), rf_address) {
                Some(t) => match r {
                    Ok(s) => s@ == spec_config_line(
                        DeviceConfigV {
                            mode: DeviceMode::Manual,
                            temperature,
                            rf_address,
                            room_id: t.room_id,
                        },
                    ),
                    Err(_) => false,
                },
                None => r == Err::<String, CodecError>(CodecError::DeviceNotFound),
            },
    {
        let room_id = match find_thermostat_room(&self.devices, rf_address) {
            Ok(v) => v,
            Err(e) => {
                return Err(e);
            },
        };
        let line = DeviceConfig::new().set_address(rf_address).set_room_id(room_id).set_mode(
            DeviceMode::Manual,
        ).set_temperature(temperature).build();
        Ok(line)
    }
}

/// Room id of the first heater thermostat with the given radio address, or
/// `DeviceNotFound`.
pub fn find_thermostat_room(devices: &Devices, rf_address: u32) -> (r: Result<u8, CodecError>)
    ensures
        match find_thermostat(devices_v(devices@), rf_address) {
            Some(t) => r == Ok::<u8, CodecError>(t.room_id),
            None => r == Err::<u8, CodecError>(CodecError::DeviceNotFound),
        },
{
    let ghost dv = devices_v(devices@);
    proof {
        assert(dv.skip(0) =~= dv);
    }
    let mut k: usize = 0;
    while k < devices.len()
        invariant
            k <= devices@.len(),
            dv == devices_v(devices@),
            dv.len() == devices@.len(),
            find_thermostat(dv, rf_address) == find_thermostat(dv.skip(k as int), rf_address),
        decreases devices@.len() - k,
    {
        proof {
            assert(dv.skip(k as int)[0] == dv[k as int]);
            assert(dv[k as int] == devices@[k as int]@);
        }
        match &devices[k] {
            crate::messages::Device::HeaterThermostat(ts) => {
                if ts.rf_address == rf_address {
                    return Ok(ts.room_id);
                }
            },
            crate::messages::Device::NotSupported => {},
        }
        proof {
            assert(dv.skip(k as int).subrange(1, dv.skip(k as int).len() as int) =~= dv.skip(
                k as int + 1,
            ));
        }
        k = k + 1;
    }
    proof {
        assert(dv.skip(dv.len() as int).len() == 0);
    }
    Err(CodecError::DeviceNotFound)
}

/// Parses a command acknowledgement line.
///
/// The line is comma-separated; its second field must read as a decimal
/// 8-bit status code. Code zero means the gateway accepted the command; any
/// other value, or a missing or unreadable field, is `CommandRejected`.
pub fn parse_ack(line: &str) -> (r: Result<(), CodecError>)
    ensures
        r == spec_ack(line.spec_bytes()),
{
    let b = line.as_bytes();
    let c1 = match find_byte_from(b, ',' as u8, 0) {
        Some(i) => i,
        None => {
            return Err(CodecError::CommandRejected);
        },
    };
    proof {
        assert(b@.len() == vstd::slice::spec_slice_len(b));
    }
    let end = match find_byte_from(b, ',' as u8, c1 + 1) {
        Some(i) => i,
        None => b.len(),
    };
    let ghost f = b@.subrange(c1 + 1, end as int);
    if end == c1 + 1 {
        return Err(CodecError::CommandRejected);
    }
    let mut val: u32 = 0;
    let mut k: usize = c1 + 1;
    proof {
        assert(f.take(0) =~= Seq::<u8>::empty());
    }
    while k < end
        invariant
            b@ == line.spec_bytes(),
            find_byte(b@, ',' as u8, 0) == Some(c1 as int),
            end as int == (match find_byte(b@, ',' as u8, c1 as int + 1) {
                Some(c2) => c2,
                None => b@.len() as int,
            }),
            c1 + 1 < end,
            c1 + 1 <= k <= end,
            end <= b@.len(),
            f == b@.subrange(c1 + 1, end as int),
            f.len() == end - c1 - 1,
            all_digits(f.take(k as int - c1 - 1)),
            dec_value(f.take(k as int - c1 - 1)) <= 255 ==> val == dec_value(
                f.take(k as int - c1 - 1),
            ),
            dec_value(f.take(k as int - c1 - 1)) > 255 ==> val > 255,
            val <= 2559,
        decreases end - k,
    {
        let ch = b[k];
        if !(ch >= '0' as u8 && ch <= '9' as u8) {
            proof {
                assert(f[k as int - c1 - 1] == ch);
                assert(!all_digits(f));
            }
            return Err(CodecError::CommandRejected);
        }
        let d = (ch - '0' as u8) as u32;
        let ghost t0 = f.take(k as int - c1 - 1);
        let ghost t1 = f.take(k as int + 1 - c1 - 1);
        proof {
            assert(t1.take(t1.len() - 1) =~= t0);
            assert(t1[t1.len() - 1] == ch);
            assert(dec_value(t1) == dec_value(t0) * 10 + (ch - '0' as u8));
        }
        val = if val > 255 {
            256
        } else {
            val * 10 + d
        };
        k = k + 1;
    }
    proof {
        assert(f.take(end as int - c1 - 1) =~= f);
    }
    if val > 255 {
        return Err(CodecError::CommandRejected);
    }
    if val == 0 {
        Ok(())
    } else {
        Err(CodecError::CommandRejected)
    }
}

} // verus!
