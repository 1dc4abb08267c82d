use vstd::prelude::*;

verus! {

broadcast use vstd::seq::group_seq_axioms;

/// Number of bytes at the end of an input-event record that hold its type,
/// code and value; the bytes before them hold the timestamp.
pub const EVENT_FIELDS_LEN: usize = 8;

/// The part of a Linux input event (`struct input_event`) that the barcode
/// reader looks at.
#[derive(Debug, Clone, Copy, PartialEq, Eq, Structural)]
pub struct InputEvent {
    /// The event type (`type`), such as `EV_MSC`.
    pub kind: u16,
    /// The event code, such as `MSC_SCAN`.
    pub code: u16,
    /// The event value; for `MSC_SCAN`, the HID usage of the key.
    pub value: i32,
}

/// The little-endian unsigned 16-bit number held by two bytes.
pub open spec fn le_u16(b0: u8, b1: u8) -> int {
    b0 + 256 * b1
}

/// The little-endian two's-complement 32-bit number held by four bytes.
pub open spec fn le_i32(b0: u8, b1: u8, b2: u8, b3: u8) -> int {
    let u = b0 + 256 * b1 + 65536 * b2 + 16777216 * b3;
    if u < 0x8000_0000 {
        u
    } else {
        u - 0x1_0000_0000
    }
}

/// The event held by a record: its last eight bytes are the type and the
/// code (two bytes each) and the value (four bytes), little-endian, as the
/// kernel lays out `struct input_event` on the little-endian machines the
/// reader runs on; the timestamp before them is not read.
pub open spec fn event_of_record(record: Seq<u8>) -> InputEvent
    recommends
        record.len() >= 8,
{
    let k = record.len() - 8;
    InputEvent {
        kind: le_u16(record[k], record[k + 1]) as u16,
        code: le_u16(record[k + 2], record[k + 3]) as u16,
        value: le_i32(record[k + 4], record[k + 5], record[k + 6], record[k + 7]) as i32,
    }
}

/// The eight bytes that hold an event's type, code and value.
pub open spec fn event_fields_bytes(event: InputEvent) -> Seq<u8> {
    let k = event.kind as int;
    let c = event.code as int;
    let u = if event.value < 0 {
        event.value + 0x1_0000_0000
    } else {
        event.value as int
    };
    seq![
        (k % 256) as u8,
        (k / 256) as u8,
        (c % 256) as u8,
        (c / 256) as u8,
        (u % 256) as u8,
        ((u / 256) % 256) as u8,
        ((u / 65536) % 256) as u8,
        (u / 16777216) as u8,
    ]
}

/// Reads the event held by a raw record of the input device.
pub fn decode_input_event(record: &[u8]) -> (event: InputEvent)
    requires
        record@.len() >= EVENT_FIELDS_LEN,
    ensures
        event == event_of_record(record@),
{
    let k = record.len() - EVENT_FIELDS_LEN;
    let kind = (record[k] as u16) + (record[k + 1] as u16) * 256;
    let code = (record[k + 2] as u16) + (record[k + 3] as u16) * 256;
    let u = (record[k + 4] as u32) + (record[k + 5] as u32) * 256 + (record[k + 6] as u32)
        * 65536 + (record[k + 7] as u32) * 16777216;
    let value: i32 = if u < 0x8000_0000 {
        u as i32
    } else {
        ((u - 0x8000_0000) as i32) + i32::MIN
    };
    InputEvent { kind, code, value }
}

proof fn lemma_u16_bytes(k: int)
    requires
        0 <= k < 65536,
    ensures
        0 <= k % 256 < 256,
        0 <= k / 256 < 256,
        (k % 256) + 256 * (k / 256) == k,
{
}

proof fn lemma_u32_bytes(u: int)
    requires
        0 <= u < 0x1_0000_0000,
    ensures
        0 <= u % 256 < 256,
        0 <= (u / 256) % 256 < 256,
        0 <= (u / 65536) % 256 < 256,
        0 <= u / 16777216 < 256,
        (u % 256) + 256 * ((u / 256) % 256) + 65536 * ((u / 65536) % 256) + 16777216 * (u
            / 16777216) == u,
{
    assert(u / 65536 == (u / 256) / 256);
    assert(u / 16777216 == (u / 65536) / 256);
}

/// Law: a record whose last eight bytes lay out an event's type, code and
/// value reads back as that event, whatever the timestamp before them.
pub proof fn lemma_record_round_trip(timestamp: Seq<u8>, event: InputEvent)
    ensures
        event_of_record(timestamp + event_fields_bytes(event)) == event,
{
    let r = timestamp + event_fields_bytes(event);
    let k = r.len() - 8;
    let u = if event.value < 0 {
        event.value + 0x1_0000_0000
    } else {
        event.value as int
    };
    lemma_u16_bytes(event.kind as int);
    lemma_u16_bytes(event.code as int);
    lemma_u32_bytes(u);
    assert(r[k] == (event.kind as int % 256) as u8);
    assert(r[k + 1] == (event.kind as int / 256) as u8);
    assert(r[k + 2] == (event.code as int % 256) as u8);
    assert(r[k + 3] == (event.code as int / 256) as u8);
    assert(r[k + 4] == (u % 256) as u8);
    assert(r[k + 5] == ((u / 256) % 256) as u8);
    assert(r[k + 6] == ((u / 65536) % 256) as u8);
    assert(r[k + 7] == (u / 16777216) as u8);
}

/// Law: only the last eight bytes of a record matter; two records that
/// agree on them hold the same event.
pub proof fn lemma_timestamp_ignored(r1: Seq<u8>, r2: Seq<u8>)
    requires
        r1.len() >= 8,
        r2.len() >= 8,
        r1.subrange(r1.len() - 8, r1.len() as int) == r2.subrange(r2.len() - 8, r2.len() as int),
    ensures
        event_of_record(r1) == event_of_record(r2),
{
    let a = r1.subrange(r1.len() - 8, r1.len() as int);
    let b = r2.subrange(r2.len() - 8, r2.len() as int);
    let k1 = r1.len() - 8;
    let k2 = r2.len() - 8;
    assert(r1[k1] == a[0] && r2[k2] == b[0]);
    assert(r1[k1 + 1] == a[1] && r2[k2 + 1] == b[1]);
    assert(r1[k1 + 2] == a[2] && r2[k2 + 2] == b[2]);
    assert(r1[k1 + 3] == a[3] && r2[k2 + 3] == b[3]);
    assert(r1[k1 + 4] == a[4] && r2[k2 + 4] == b[4]);
    assert(r1[k1 + 5] == a[5] && r2[k2 + 5] == b[5]);
    assert(r1[k1 + 6] == a[6] && r2[k2 + 6] == b[6]);
    assert(r1[k1 + 7] == a[7] && r2[k2 + 7] == b[7]);
}

} // verus!
