//! Crate-wide laws of the codec, stated and proved once.
//!
//! The fixture encoders here are specification-level constructions: they
//! build a metadata payload from arbitrary room and device lists so that the
//! decoder of [`crate::wire`] can be held to reproduce those lists exactly.

use vstd::arithmetic::div_mod::{
    lemma_div_denominator, lemma_fundamental_div_mod, lemma_small_mod,
};
use vstd::prelude::*;

use crate::error::CodecError;
use crate::wire::{
    chunk_index_sentinel, dec_device, dec_devices, dec_meta_payload, dec_meta_payload_at,
    dec_room, dec_rooms, find_byte, spec_message_m, u24_be, DeviceV, RoomV,
};

verus! {

// ---------------------------------------------------------------------------
// Fixture encoding of a metadata payload
// ---------------------------------------------------------------------------

/// A 24-bit value as its three big-endian wire bytes.
pub open spec fn enc_u24(v: u32) -> Seq<u8> {
    seq![(v / 0x10000 % 0x100) as u8, (v / 0x100 % 0x100) as u8, (v % 0x100) as u8]
}

/// One room record as its wire bytes.
pub open spec fn enc_room(r: RoomV) -> Seq<u8> {
    seq![r.room_id, r.name.len() as u8] + r.name + enc_u24(r.rf_address)
}

/// A room list as its wire bytes, in order.
pub open spec fn enc_rooms(rs: Seq<RoomV>) -> Seq<u8>
    decreases rs.len(),
{
    if rs.len() == 0 {
        Seq::empty()
    } else {
        enc_room(rs[0]) + enc_rooms(rs.skip(1))
    }
}

/// One device record as its wire bytes. An unsupported slot carries no data
/// of its own, so it is encoded as a record of an unsupported type code with
/// zeroed fields and an empty name.
pub open spec fn enc_device(d: DeviceV) -> Seq<u8> {
    match d {
        DeviceV::NotSupported => Seq::new(16, |q: int| 0u8),
        DeviceV::HeaterThermostat(t) => seq![1u8] + enc_u24(t.rf_address) + t.serial + seq![
            t.name.len() as u8,
        ] + t.name + seq![t.room_id],
    }
}

/// A device list as its wire bytes, in order.
pub open spec fn enc_devices(ds: Seq<DeviceV>) -> Seq<u8>
    decreases ds.len(),
{
    if ds.len() == 0 {
        Seq::empty()
    } else {
        enc_device(ds[0]) + enc_devices(ds.skip(1))
    }
}

/// A whole metadata payload built from the given lists: a two-byte header,
/// the room count and records, the device count and records.
pub open spec fn enc_meta_payload(rooms: Seq<RoomV>, devices: Seq<DeviceV>) -> Seq<u8> {
    seq![0x56u8, 0x02u8, rooms.len() as u8] + enc_rooms(rooms) + seq![devices.len() as u8]
        + enc_devices(devices)
}

/// A room that a metadata record can carry: the name fits its length byte
/// and the radio address its three bytes.
pub open spec fn valid_room(r: RoomV) -> bool {
    r.name.len() <= 255 && r.rf_address < 0x1000000
}

/// A device slot that a metadata record can carry. A heater thermostat
/// fresh from metadata also has every status field at its zero default,
/// since the wire carries no status there.
pub open spec fn valid_device(d: DeviceV) -> bool {
    match d {
        DeviceV::NotSupported => true,
        DeviceV::HeaterThermostat(t) => {
            &&& t.serial.len() == 10
            &&& t.name.len() <= 255
            &&& t.rf_address < 0x1000000
            &&& t.valve_position == 0
            &&& t.temperature_set == 0
            &&& t.temperature_measured == 0
            &&& !t.battery_low
            &&& !t.error
            &&& !t.valid
        },
    }
}

proof fn lemma_u24_value(v: u32)
    requires
        v < 0x1000000,
    ensures
        (v / 0x10000 % 0x100) * 0x10000 + (v / 0x100 % 0x100) * 0x100 + (v % 0x100) == v as int,
{
    let x = v as int;
    lemma_fundamental_div_mod(x, 0x100);
    lemma_fundamental_div_mod(x / 0x100, 0x100);
    lemma_div_denominator(x, 0x100, 0x100);
    assert(x / 0x10000 < 0x100) by {
        lemma_div_denominator(x, 0x100, 0x100);
        assert(x / 0x100 < 0x10000);
        vstd::arithmetic::div_mod::lemma_div_is_ordered(x / 0x100, 0xffffff, 0x100);
    }
    lemma_small_mod((x / 0x10000) as nat, 0x100);
}

proof fn lemma_u24_round(b: Seq<u8>, i: int, v: u32)
    requires
        v < 0x1000000,
        0 <= i,
        i + 3 <= b.len(),
        b[i] == enc_u24(v)[0],
        b[i + 1] == enc_u24(v)[1],
        b[i + 2] == enc_u24(v)[2],
    ensures
        u24_be(b, i) == v,
{
    lemma_u24_value(v);
}

// ---------------------------------------------------------------------------
// Round trip of the metadata payload (decode after fixture-encode)
// ---------------------------------------------------------------------------

proof fn lemma_dec_room_enc(pre: Seq<u8>, r: RoomV, suf: Seq<u8>)
    requires
        valid_room(r),
    ensures
        dec_room(pre + enc_room(r) + suf, pre.len() as int) == Some(
            (r, (pre.len() + enc_room(r).len()) as int),
        ),
{
    let b = pre + enc_room(r) + suf;
    let i = pre.len() as int;
    let e = enc_room(r);
    let n = r.name.len() as int;
    assert(e.len() == 2 + n + 3);
    assert forall|q: int| 0 <= q < e.len() implies b[i + q] == e[q] by {}
    assert(b[i] == r.room_id);
    assert(b[i + 1] == n as u8);
    assert(b.subrange(i + 2, i + 2 + n) =~= r.name);
    lemma_u24_round(b, i + 2 + n, r.rf_address);
    assert(dec_room(b, i) == Some((r, i + 2 + n + 3)));
}

proof fn lemma_dec_rooms_enc(pre: Seq<u8>, rs: Seq<RoomV>, suf: Seq<u8>, acc: Seq<RoomV>)
    requires
        forall|q: int| 0 <= q < rs.len() ==> valid_room(#[trigger] rs[q]),
    ensures
        dec_rooms(pre + enc_rooms(rs) + suf, pre.len() as int, rs.len() as int, acc) == Some(
            (acc + rs, (pre.len() + enc_rooms(rs).len()) as int),
        ),
    decreases rs.len(),
{
    let b = pre + enc_rooms(rs) + suf;
    if rs.len() == 0 {
        assert(enc_rooms(rs) == Seq::<u8>::empty());
        assert(acc + rs =~= acc);
    } else {
        let head = rs[0];
        let rest = rs.skip(1);
        assert(enc_rooms(rs) == enc_room(head) + enc_rooms(rest));
        let pre2 = pre + enc_room(head);
        assert(b =~= pre + enc_room(head) + (enc_rooms(rest) + suf));
        lemma_dec_room_enc(pre, head, enc_rooms(rest) + suf);
        assert(b =~= pre2 + enc_rooms(rest) + suf);
        lemma_dec_rooms_enc(pre2, rest, suf, acc.push(head));
        assert(acc.push(head) + rest =~= acc + rs);
        assert(dec_room(b, pre.len() as int) == Some((head, pre2.len() as int)));
        assert(dec_rooms(b, pre.len() as int, rs.len() as int, acc) == dec_rooms(
            b,
            pre2.len() as int,
            rest.len() as int,
            acc.push(head),
        ));
    }
}

proof fn lemma_dec_device_enc(pre: Seq<u8>, d: DeviceV, suf: Seq<u8>)
    requires
        valid_device(d),
    ensures
        dec_device(pre + enc_device(d) + suf, pre.len() as int) == Some(
            (d, (pre.len() + enc_device(d).len()) as int),
        ),
{
    let b = pre + enc_device(d) + suf;
    let i = pre.len() as int;
    let e = enc_device(d);
    assert forall|q: int| 0 <= q < e.len() implies b[i + q] == e[q] by {}
    match d {
        DeviceV::NotSupported => {
            assert(e.len() == 16);
            assert(b[i] == 0);
            assert(b[i + 14] == 0);
            assert(dec_device(b, i) == Some((DeviceV::NotSupported, i + 16)));
        },
        DeviceV::HeaterThermostat(t) => {
            let n = t.name.len() as int;
            assert(e.len() == 16 + n);
            assert(b[i] == 1);
            assert(b[i + 14] == n as u8);
            assert(b.subrange(i + 4, i + 14) =~= t.serial);
            assert(b.subrange(i + 15, i + 15 + n) =~= t.name);
            assert(b[i + 15 + n] == t.room_id);
            lemma_u24_round(b, i + 1, t.rf_address);
            assert(dec_device(b, i) == Some((d, i + 16 + n)));
        },
    }
}

proof fn lemma_dec_devices_enc(pre: Seq<u8>, ds: Seq<DeviceV>, suf: Seq<u8>, acc: Seq<DeviceV>)
    requires
        forall|q: int| 0 <= q < ds.len() ==> valid_device(#[trigger] ds[q]),
    ensures
        dec_devices(pre + enc_devices(ds) + suf, pre.len() as int, ds.len() as int, acc) == Some(
            (acc + ds, (pre.len() + enc_devices(ds).len()) as int),
        ),
    decreases ds.len(),
{
    let b = pre + enc_devices(ds) + suf;
    if ds.len() == 0 {
        assert(enc_devices(ds) == Seq::<u8>::empty());
        assert(acc + ds =~= acc);
    } else {
        let head = ds[0];
        let rest = ds.skip(1);
        assert(enc_devices(ds) == enc_device(head) + enc_devices(rest));
        let pre2 = pre + enc_device(head);
        assert(b =~= pre + enc_device(head) + (enc_devices(rest) + suf));
        lemma_dec_device_enc(pre, head, enc_devices(rest) + suf);
        assert(b =~= pre2 + enc_devices(rest) + suf);
        lemma_dec_devices_enc(pre2, rest, suf, acc.push(head));
        assert(acc.push(head) + rest =~= acc + ds);
        assert(dec_device(b, pre.len() as int) == Some((head, pre2.len() as int)));
        assert(dec_devices(b, pre.len() as int, ds.len() as int, acc) == dec_devices(
            b,
            pre2.len() as int,
            rest.len() as int,
            acc.push(head),
        ));
    }
}

/// Decoding is total and lossless on every well-formed metadata payload: a
/// payload built from any valid room and device lists decodes successfully
/// and reproduces exactly those lists — every count, name, serial, address
/// and room id. Together with the decoders' bit-exact contracts this pins
/// decoding down as a deterministic function of the payload.
pub proof fn lemma_metadata_round_trip(rooms: Seq<RoomV>, devices: Seq<DeviceV>)
    requires
        rooms.len() <= 255,
        devices.len() <= 255,
        forall|q: int| 0 <= q < rooms.len() ==> valid_room(#[trigger] rooms[q]),
        forall|q: int| 0 <= q < devices.len() ==> valid_device(#[trigger] devices[q]),
    ensures
        dec_meta_payload(enc_meta_payload(rooms, devices)) == Ok::<
            (Seq<RoomV>, Seq<DeviceV>),
            CodecError,
        >((rooms, devices)),
{
    let b = enc_meta_payload(rooms, devices);
    let head = seq![0x56u8, 0x02u8, rooms.len() as u8];
    let mid = seq![devices.len() as u8];
    assert(b =~= head + enc_rooms(rooms) + (mid + enc_devices(devices)));
    assert(b[2] == rooms.len() as u8);
    lemma_dec_rooms_enc(head, rooms, mid + enc_devices(devices), Seq::empty());
    let i = (head.len() + enc_rooms(rooms).len()) as int;
    assert(dec_rooms(b, 3, rooms.len() as int, Seq::empty()) == Some(
        (Seq::empty() + rooms, i as int),
    ));
    assert(Seq::empty() + rooms =~= rooms);
    assert(b[i as int] == devices.len() as u8);
    let pre2 = head + enc_rooms(rooms) + mid;
    assert(b =~= pre2 + enc_devices(devices) + Seq::<u8>::empty());
    lemma_dec_devices_enc(pre2, devices, Seq::empty(), Seq::empty());
    assert(pre2.len() == i + 1);
    assert(dec_devices(b, i + 1, devices.len() as int, Seq::empty()) == Some(
        (Seq::empty() + devices, (pre2.len() + enc_devices(devices).len()) as int),
    ));
    assert(Seq::empty() + devices =~= devices);
}

// ---------------------------------------------------------------------------
// Unsupported device types occupy their slot without aborting the message
// ---------------------------------------------------------------------------

/// The device slot a record decodes to, where one decodes at all.
pub open spec fn device_slot(b: Seq<u8>, i: int) -> DeviceV {
    match dec_device(b, i) {
        Some(p) => p.0,
        None => DeviceV::NotSupported,
    }
}

/// Cursor position after the room record at `i`, where one decodes.
pub open spec fn after_room(b: Seq<u8>, i: int) -> int {
    match dec_room(b, i) {
        Some(p) => p.1,
        None => i,
    }
}

/// Cursor position after `n` room records at `i`, where they decode.
pub open spec fn after_rooms(b: Seq<u8>, i: int, n: int, acc: Seq<RoomV>) -> int {
    match dec_rooms(b, i, n, acc) {
        Some(p) => p.1,
        None => i,
    }
}

/// Cursor position after the device record at `i`, where one decodes.
pub open spec fn after_device(b: Seq<u8>, i: int) -> int {
    match dec_device(b, i) {
        Some(p) => p.1,
        None => i,
    }
}

/// Cursor position after `n` device records at `i`, where they decode.
pub open spec fn after_devices(b: Seq<u8>, i: int, n: int, acc: Seq<DeviceV>) -> int {
    match dec_devices(b, i, n, acc) {
        Some(p) => p.1,
        None => i,
    }
}

/// An unsupported type code never aborts a device record: whatever the
/// record's type byte is replaced with, the record still decodes, consumes
/// exactly the same bytes, and — for any code other than the heater
/// thermostat's — fills its slot with the unsupported marker.
pub proof fn lemma_unsupported_device_type(b: Seq<u8>, i: int, t: u8)
    requires
        0 <= i,
        dec_device(b, i) is Some,
        t != 1,
    ensures
        b[i] != 1 ==> device_slot(b, i) is NotSupported,
        dec_device(b.update(i, t), i) == Some((DeviceV::NotSupported, after_device(b, i))),
{
    let b2 = b.update(i, t);
    assert(b2.len() == b.len());
    assert(b2[i] == t);
    assert(b2[i + 14] == b[i + 14]);
    let n = b[i + 14] as int;
    assert(dec_device(b2, i) == Some((DeviceV::NotSupported, i + 16 + n)));
}

// ---------------------------------------------------------------------------
// Truncation anywhere inside a metadata payload fails with TruncatedBuffer
// ---------------------------------------------------------------------------

/// Position one past the last byte a metadata payload's decoding consumed.
pub open spec fn meta_extent(b: Seq<u8>) -> int {
    match dec_meta_payload_at(b) {
        Ok((lists, j)) => j,
        Err(_) => 0,
    }
}

proof fn lemma_dec_room_take(b: Seq<u8>, i: int, k: int)
    requires
        0 <= i,
        dec_room(b, i) is Some,
        0 <= k <= b.len(),
    ensures
        k >= after_room(b, i) ==> dec_room(b.take(k), i) == dec_room(b, i),
        i <= k < after_room(b, i) ==> dec_room(b.take(k), i) is None,
{
    let j = after_room(b, i);
    let n = b[i + 1] as int;
    let bt = b.take(k);
    if k >= j {
        assert(bt.subrange(i + 2, i + 2 + n) =~= b.subrange(i + 2, i + 2 + n));
        assert(u24_be(bt, i + 2 + n) == u24_be(b, i + 2 + n));
    }
}

proof fn lemma_dec_rooms_bounds(b: Seq<u8>, i: int, n: int, acc: Seq<RoomV>)
    requires
        0 <= i <= b.len(),
        dec_rooms(b, i, n, acc) is Some,
    ensures
        i <= after_rooms(b, i, n, acc) <= b.len(),
    decreases n,
{
    if n > 0 {
        match dec_room(b, i) {
            Some(p) => lemma_dec_rooms_bounds(b, p.1, n - 1, acc.push(p.0)),
            None => (),
        }
    }
}

proof fn lemma_dec_rooms_take(b: Seq<u8>, i: int, n: int, acc: Seq<RoomV>, k: int)
    requires
        0 <= i <= b.len(),
        dec_rooms(b, i, n, acc) is Some,
        0 <= k <= b.len(),
    ensures
        k >= after_rooms(b, i, n, acc) ==> dec_rooms(b.take(k), i, n, acc) == dec_rooms(
            b,
            i,
            n,
            acc,
        ),
        i <= k < after_rooms(b, i, n, acc) ==> dec_rooms(b.take(k), i, n, acc) is None,
    decreases n,
{
    let j = after_rooms(b, i, n, acc);
    if n <= 0 {
    } else {
        match dec_room(b, i) {
            Some(p) => {
                lemma_dec_rooms_bounds(b, p.1, n - 1, acc.push(p.0));
                lemma_dec_room_take(b, i, k);
                if k >= p.1 {
                    lemma_dec_rooms_take(b, p.1, n - 1, acc.push(p.0), k);
                }
            },
            None => (),
        }
    }
}

proof fn lemma_dec_device_take(b: Seq<u8>, i: int, k: int)
    requires
        0 <= i,
        dec_device(b, i) is Some,
        0 <= k <= b.len(),
    ensures
        k >= after_device(b, i) ==> dec_device(b.take(k), i) == dec_device(b, i),
        i <= k < after_device(b, i) ==> dec_device(b.take(k), i) is None,
{
    let j = after_device(b, i);
    let n = b[i + 14] as int;
    let bt = b.take(k);
    if k >= j {
        assert(bt.subrange(i + 4, i + 14) =~= b.subrange(i + 4, i + 14));
        assert(bt.subrange(i + 15, i + 15 + n) =~= b.subrange(i + 15, i + 15 + n));
        assert(u24_be(bt, i + 1) == u24_be(b, i + 1));
    }
}

proof fn lemma_dec_devices_bounds(b: Seq<u8>, i: int, n: int, acc: Seq<DeviceV>)
    requires
        0 <= i <= b.len(),
        dec_devices(b, i, n, acc) is Some,
    ensures
        i <= after_devices(b, i, n, acc) <= b.len(),
    decreases n,
{
    if n > 0 {
        match dec_device(b, i) {
            Some(p) => lemma_dec_devices_bounds(b, p.1, n - 1, acc.push(p.0)),
            None => (),
        }
    }
}

proof fn lemma_dec_devices_take(b: Seq<u8>, i: int, n: int, acc: Seq<DeviceV>, k: int)
    requires
        0 <= i <= b.len(),
        dec_devices(b, i, n, acc) is Some,
        0 <= k <= b.len(),
    ensures
        k >= after_devices(b, i, n, acc) ==> dec_devices(b.take(k), i, n, acc) == dec_devices(
            b,
            i,
            n,
            acc,
        ),
        i <= k < after_devices(b, i, n, acc) ==> dec_devices(b.take(k), i, n, acc) is None,
    decreases n,
{
    let j = after_devices(b, i, n, acc);
    if n <= 0 {
    } else {
        match dec_device(b, i) {
            Some(p) => {
                lemma_dec_devices_bounds(b, p.1, n - 1, acc.push(p.0));
                lemma_dec_device_take(b, i, k);
                if k >= p.1 {
                    lemma_dec_devices_take(b, p.1, n - 1, acc.push(p.0), k);
                }
            },
            None => (),
        }
    }
}

/// Cutting a decodable metadata payload anywhere before its decoded extent
/// — mid-record, mid-serial, mid-name, or inside a count byte — makes
/// decoding fail with `TruncatedBuffer`; no truncation is silently accepted
/// or misread.
pub proof fn lemma_truncated_metadata(b: Seq<u8>, k: int)
    requires
        dec_meta_payload_at(b) is Ok,
        0 <= k < meta_extent(b),
    ensures
        dec_meta_payload(b.take(k)) == Err::<(Seq<RoomV>, Seq<DeviceV>), CodecError>(
            CodecError::TruncatedBuffer,
        ),
{
    let bt = b.take(k);
    if k < 3 {
    } else {
        let n = b[2] as int;
        let rr = dec_rooms(b, 3, n, Seq::empty());
        let i = after_rooms(b, 3, n, Seq::empty());
        lemma_dec_rooms_bounds(b, 3, n, Seq::empty());
        let m = b[i] as int;
        lemma_dec_devices_bounds(b, i + 1, m, Seq::empty());
        assert(bt[2] == b[2]);
        lemma_dec_rooms_take(b, 3, n, Seq::empty(), k);
        if k < i {
        } else {
            assert(dec_rooms(bt, 3, n, Seq::empty()) == rr);
            if k == i {
            } else {
                assert(bt[i] == b[i]);
                lemma_dec_devices_take(b, i + 1, m, Seq::empty(), k);
            }
        }
    }
}

// ---------------------------------------------------------------------------
// Chunked metadata is rejected before any payload work
// ---------------------------------------------------------------------------

/// A metadata line whose chunk-index field differs from the single-chunk
/// sentinel fails with `UnsupportedChunking`, whatever the rest of the line
/// holds: no payload is ever consulted.
pub proof fn lemma_chunking_rejected(line: Seq<u8>)
    requires
        line.len() >= 2,
        line[0] == 'M' as u8,
        line[1] == ':' as u8,
        ({
            let p0_end = match find_byte(line, ',' as u8, 0) {
                Some(c) => c,
                None => line.len() as int,
            };
            line.subrange(0, p0_end) != chunk_index_sentinel()
        }),
    ensures
        spec_message_m(line) == Err::<(Seq<RoomV>, Seq<DeviceV>), CodecError>(
            CodecError::UnsupportedChunking,
        ),
{
}

} // verus!
